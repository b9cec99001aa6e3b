//! Workflow validation rules.
//!
//! Each rule checks one aspect of a workflow.  What a rule reports is stated as
//! a sequence of issue texts over the workflow, in the order the rule finds them.
use vstd::prelude::*;
use crate::ecc::workflow::errors::WorkflowEccResult;
use crate::ecc::workflow::report::{issues_view, spec_issue, workflow_context, EccIssue, IssueView};
use crate::ecc::workflow::types::{ids_of, Workflow, WorkflowStep};
use crate::ecc::workflow::rules::deadlock::deadlock_issues;
use crate::ecc::workflow::rules::dependency_cycle::dependency_cycle_report;
use crate::ecc::workflow::rules::dependency_exists::dependency_exists_issues;
use crate::ecc::workflow::rules::disconnected_graph::disconnected_graph_issues;
use crate::ecc::workflow::rules::duplicate_step::duplicate_step_issues;
use crate::ecc::workflow::rules::end_state::end_state_issues;
use crate::ecc::workflow::rules::orphan_node::orphan_node_issues;
use crate::ecc::workflow::rules::reachability::reachability_issues;
use crate::ecc::workflow::rules::retry_config::retry_config_issues;
use crate::ecc::workflow::rules::start_state::start_state_issues;
use crate::ecc::workflow::rules::terminal_state::terminal_state_issues;
use crate::ecc::workflow::rules::timeout::{timeout_issues, timeouts_summable};
use crate::ecc::workflow::rules::unique_step_id::unique_step_id_issues;
use crate::ecc::workflow::rules::workflow_id::workflow_id_issues;
use crate::ecc::workflow::rules::workflow_not_empty::workflow_not_empty_issues;
use crate::text::{contains_str, str_views};

pub mod deadlock;
pub mod dependency_cycle;
pub mod dependency_exists;
pub mod disconnected_graph;
pub mod duplicate_step;
pub mod end_state;
pub mod orphan_node;
pub mod reachability;
pub mod retry_config;
pub mod start_state;
pub mod terminal_state;
pub mod timeout;
pub mod unique_step_id;
pub mod workflow_id;
pub mod workflow_not_empty;

pub use deadlock::DeadlockRule;
pub use dependency_cycle::DependencyCycleRule;
pub use dependency_exists::DependencyExistsRule;
pub use disconnected_graph::DisconnectedGraphRule;
pub use duplicate_step::DuplicateStepRule;
pub use end_state::EndStateRule;
pub use orphan_node::OrphanNodeRule;
pub use reachability::ReachabilityRule;
pub use retry_config::RetryConfigRule;
pub use start_state::StartStateRule;
pub use terminal_state::TerminalStateRule;
pub use timeout::TimeoutRule;
pub use unique_step_id::UniqueStepIdRule;
pub use workflow_id::WorkflowIdRule;
pub use workflow_not_empty::WorkflowNotEmptyRule;

verus! {

/// An issue about workflow `w`, with the context `Workflow: <id>`.
pub open spec fn wf_issue(w: Workflow, code: Seq<char>, message: Seq<char>, suggestion: Seq<char>) -> IssueView {
    spec_issue(code, message, suggestion, workflow_context(w.id@))
}

/// The one issue `i` when `c` holds, else nothing.
pub open spec fn issue_if(c: bool, i: IssueView) -> Seq<IssueView> {
    if c {
        seq![i]
    } else {
        Seq::empty()
    }
}

/// The issues `f` gives for each step, concatenated in step order.
pub open spec fn per_step(steps: Seq<WorkflowStep>, f: spec_fn(WorkflowStep) -> Seq<IssueView>) -> Seq<IssueView>
    decreases steps.len(),
{
    if steps.len() == 0 {
        Seq::empty()
    } else {
        per_step(steps.drop_last(), f) + f(steps.last())
    }
}

/// Extending the prefix by one step appends that step's issues.
pub proof fn lemma_per_step_next(steps: Seq<WorkflowStep>, i: int, f: spec_fn(WorkflowStep) -> Seq<IssueView>)
    requires
        0 <= i < steps.len(),
    ensures
        per_step(steps.subrange(0, i + 1), f) == per_step(steps.subrange(0, i), f) + f(steps[i]),
{
    assert(steps.subrange(0, i + 1).drop_last() =~= steps.subrange(0, i));
}

/// Appending one issue to a list appends its text to the list's texts.
pub proof fn lemma_issues_push(v: Seq<EccIssue>, i: EccIssue)
    ensures
        issues_view(v.push(i)) == issues_view(v).push(i@),
{
    assert(issues_view(v.push(i)) =~= issues_view(v).push(i@));
}

/// The issues `f` gives for each name, concatenated in order.
pub open spec fn per_name(names: Seq<Seq<char>>, f: spec_fn(Seq<char>) -> Seq<IssueView>) -> Seq<IssueView>
    decreases names.len(),
{
    if names.len() == 0 {
        Seq::empty()
    } else {
        per_name(names.drop_last(), f) + f(names.last())
    }
}

/// Extending the prefix by one name appends that name's issues.
pub proof fn lemma_per_name_next(names: Seq<Seq<char>>, i: int, f: spec_fn(Seq<char>) -> Seq<IssueView>)
    requires
        0 <= i < names.len(),
    ensures
        per_name(names.subrange(0, i + 1), f) == per_name(names.subrange(0, i), f) + f(names[i]),
{
    assert(names.subrange(0, i + 1).drop_last() =~= names.subrange(0, i));
}

/// A list of distinct identifiers with the same set as the step identifiers
/// holds exactly the step identifiers.
pub proof fn lemma_ids_contains(ids: Seq<Seq<char>>, steps: Seq<WorkflowStep>, x: Seq<char>)
    requires
        ids.to_set() == ids_of(steps).to_set(),
    ensures
        ids.contains(x) == ids_of(steps).contains(x),
{
    assert(ids.to_set().contains(x) == ids.contains(x));
    assert(ids_of(steps).to_set().contains(x) == ids_of(steps).contains(x));
}

/// Whether `x` is a step identifier, looked up in the list `ids` that
/// [`Workflow::step_ids`] gives.
pub fn in_step_ids(ids: &Vec<String>, w: &Workflow, x: &String) -> (b: bool)
    requires
        str_views(ids@).to_set() == ids_of(w.steps@).to_set(),
    ensures
        b == ids_of(w.steps@).contains(x@),
{
    let b = contains_str(ids, x.as_str());
    proof {
        lemma_ids_contains(str_views(ids@), w.steps@, x@);
    }
    b
}

/// The identifiers of the steps whose identifier an earlier step already has,
/// in step order.
pub open spec fn repeated_ids(steps: Seq<WorkflowStep>) -> Seq<Seq<char>>
    decreases steps.len(),
{
    if steps.len() == 0 {
        Seq::empty()
    } else {
        repeated_ids(steps.drop_last()) + if ids_of(steps.drop_last()).contains(steps.last().id@) {
            seq![steps.last().id@]
        } else {
            Seq::empty()
        }
    }
}

/// Every built-in workflow rule.
#[derive(Clone, Copy, Debug, PartialEq, Eq)]
pub enum WorkflowRule {
    WorkflowId(WorkflowIdRule),
    WorkflowNotEmpty(WorkflowNotEmptyRule),
    UniqueStepId(UniqueStepIdRule),
    DependencyExists(DependencyExistsRule),
    DependencyCycle(DependencyCycleRule),
    Reachability(ReachabilityRule),
    TerminalState(TerminalStateRule),
    StartState(StartStateRule),
    EndState(EndStateRule),
    DuplicateStep(DuplicateStepRule),
    OrphanNode(OrphanNodeRule),
    Deadlock(DeadlockRule),
    DisconnectedGraph(DisconnectedGraphRule),
    Timeout(TimeoutRule),
    RetryConfig(RetryConfigRule),
}

impl WorkflowRule {
    /// The identifier of the rule.
    pub open spec fn spec_id(self) -> Seq<char> {
        match self {
            WorkflowRule::WorkflowId(_) => "workflow_id_rule"@,
            WorkflowRule::WorkflowNotEmpty(_) => "workflow_not_empty_rule"@,
            WorkflowRule::UniqueStepId(_) => "unique_step_id_rule"@,
            WorkflowRule::DependencyExists(_) => "dependency_exists_rule"@,
            WorkflowRule::DependencyCycle(_) => "dependency_cycle_rule"@,
            WorkflowRule::Reachability(_) => "reachability_rule"@,
            WorkflowRule::TerminalState(_) => "terminal_state_rule"@,
            WorkflowRule::StartState(_) => "start_state_rule"@,
            WorkflowRule::EndState(_) => "end_state_rule"@,
            WorkflowRule::DuplicateStep(_) => "duplicate_step_rule"@,
            WorkflowRule::OrphanNode(_) => "orphan_node_rule"@,
            WorkflowRule::Deadlock(_) => "deadlock_rule"@,
            WorkflowRule::DisconnectedGraph(_) => "disconnected_graph_rule"@,
            WorkflowRule::Timeout(_) => "timeout_rule"@,
            WorkflowRule::RetryConfig(_) => "retry_config_rule"@,
        }
    }

    /// What the rule checks, in words.
    pub open spec fn spec_description(self) -> Seq<char> {
        match self {
            WorkflowRule::WorkflowId(_) => "Workflow must have a valid non-empty ID"@,
            WorkflowRule::WorkflowNotEmpty(_) => "Workflow must contain at least one step"@,
            WorkflowRule::UniqueStepId(_) => "All step IDs must be unique within the workflow"@,
            WorkflowRule::DependencyExists(_) => "All step dependencies must reference existing steps"@,
            WorkflowRule::DependencyCycle(_) => "Workflow must not contain dependency cycles"@,
            WorkflowRule::Reachability(_) => "All steps must be reachable from start step"@,
            WorkflowRule::TerminalState(_) => "End steps must be valid and reachable"@,
            WorkflowRule::StartState(_) => "Start step, if defined, must exist in workflow"@,
            WorkflowRule::EndState(_) => "Workflow must have at least one end step"@,
            WorkflowRule::DuplicateStep(_) => "Workflow must not contain duplicate steps"@,
            WorkflowRule::OrphanNode(_) => "All steps must have a path to at least one end step"@,
            WorkflowRule::Deadlock(_) => "Workflow must not have deadlock conditions"@,
            WorkflowRule::DisconnectedGraph(_) => "Workflow graph must have path from start to at least one end step"@,
            WorkflowRule::Timeout(_) => "Timeout configuration must be valid"@,
            WorkflowRule::RetryConfig(_) => "Retry configuration must be valid"@,
        }
    }

    /// Whether the rule looks at workflow `w` at all.
    pub open spec fn spec_applies(self, w: Workflow) -> bool {
        let has_steps = w.steps@.len() > 0;
        let has_start = w.start_step_id is Some;
        let has_ends = w.end_step_ids@.len() > 0;
        match self {
            WorkflowRule::WorkflowId(_) => true,
            WorkflowRule::WorkflowNotEmpty(_) => true,
            WorkflowRule::UniqueStepId(_) => has_steps,
            WorkflowRule::DependencyExists(_) => has_steps,
            WorkflowRule::DependencyCycle(_) => has_steps,
            WorkflowRule::Reachability(_) => has_steps && has_start,
            WorkflowRule::TerminalState(_) => has_steps && has_ends,
            WorkflowRule::StartState(_) => has_steps && has_start,
            WorkflowRule::EndState(_) => true,
            WorkflowRule::DuplicateStep(_) => has_steps,
            WorkflowRule::OrphanNode(_) => has_steps && has_ends,
            WorkflowRule::Deadlock(_) => has_steps,
            WorkflowRule::DisconnectedGraph(_) => has_steps && has_start && has_ends,
            WorkflowRule::Timeout(_) => true,
            WorkflowRule::RetryConfig(_) => true,
        }
    }

    /// What evaluating the rule needs of `w`: the time limits must add up in 64
    /// bits for the time-limit rule.
    pub open spec fn spec_ready(self, w: Workflow) -> bool {
        match self {
            WorkflowRule::Timeout(_) => timeouts_summable(w),
            _ => true,
        }
    }

    /// Whether `s` is what evaluating the rule on `w` reports.
    pub open spec fn spec_reports(self, w: Workflow, s: Seq<IssueView>) -> bool {
        match self {
            WorkflowRule::WorkflowId(_) => s == workflow_id_issues(w),
            WorkflowRule::WorkflowNotEmpty(_) => s == workflow_not_empty_issues(w),
            WorkflowRule::UniqueStepId(_) => s == unique_step_id_issues(w),
            WorkflowRule::DependencyExists(_) => s == dependency_exists_issues(w),
            WorkflowRule::DependencyCycle(_) => dependency_cycle_report(w, s),
            WorkflowRule::Reachability(_) => s == reachability_issues(w),
            WorkflowRule::TerminalState(_) => s == terminal_state_issues(w),
            WorkflowRule::StartState(_) => s == start_state_issues(w),
            WorkflowRule::EndState(_) => s == end_state_issues(w),
            WorkflowRule::DuplicateStep(_) => s == duplicate_step_issues(w),
            WorkflowRule::OrphanNode(_) => s == orphan_node_issues(w),
            WorkflowRule::Deadlock(_) => s == deadlock_issues(w),
            WorkflowRule::DisconnectedGraph(_) => s == disconnected_graph_issues(w),
            WorkflowRule::Timeout(_) => s == timeout_issues(w),
            WorkflowRule::RetryConfig(_) => s == retry_config_issues(w),
        }
    }

    /// The rule's identifier.
    pub fn id(&self) -> (r: &'static str)
        ensures
            r@ == self.spec_id(),
    {
        match self {
            WorkflowRule::WorkflowId(r) => r.id(),
            WorkflowRule::WorkflowNotEmpty(r) => r.id(),
            WorkflowRule::UniqueStepId(r) => r.id(),
            WorkflowRule::DependencyExists(r) => r.id(),
            WorkflowRule::DependencyCycle(r) => r.id(),
            WorkflowRule::Reachability(r) => r.id(),
            WorkflowRule::TerminalState(r) => r.id(),
            WorkflowRule::StartState(r) => r.id(),
            WorkflowRule::EndState(r) => r.id(),
            WorkflowRule::DuplicateStep(r) => r.id(),
            WorkflowRule::OrphanNode(r) => r.id(),
            WorkflowRule::Deadlock(r) => r.id(),
            WorkflowRule::DisconnectedGraph(r) => r.id(),
            WorkflowRule::Timeout(r) => r.id(),
            WorkflowRule::RetryConfig(r) => r.id(),
        }
    }

    /// What the rule checks.
    pub fn description(&self) -> (r: &'static str)
        ensures
            r@ == self.spec_description(),
    {
        match self {
            WorkflowRule::WorkflowId(r) => r.description(),
            WorkflowRule::WorkflowNotEmpty(r) => r.description(),
            WorkflowRule::UniqueStepId(r) => r.description(),
            WorkflowRule::DependencyExists(r) => r.description(),
            WorkflowRule::DependencyCycle(r) => r.description(),
            WorkflowRule::Reachability(r) => r.description(),
            WorkflowRule::TerminalState(r) => r.description(),
            WorkflowRule::StartState(r) => r.description(),
            WorkflowRule::EndState(r) => r.description(),
            WorkflowRule::DuplicateStep(r) => r.description(),
            WorkflowRule::OrphanNode(r) => r.description(),
            WorkflowRule::Deadlock(r) => r.description(),
            WorkflowRule::DisconnectedGraph(r) => r.description(),
            WorkflowRule::Timeout(r) => r.description(),
            WorkflowRule::RetryConfig(r) => r.description(),
        }
    }

    /// Whether the rule looks at `workflow` at all.
    pub fn applies_to(&self, workflow: &Workflow) -> (b: bool)
        ensures
            b == self.spec_applies(*workflow),
    {
        match self {
            WorkflowRule::WorkflowId(r) => r.applies_to(workflow),
            WorkflowRule::WorkflowNotEmpty(r) => r.applies_to(workflow),
            WorkflowRule::UniqueStepId(r) => r.applies_to(workflow),
            WorkflowRule::DependencyExists(r) => r.applies_to(workflow),
            WorkflowRule::DependencyCycle(r) => r.applies_to(workflow),
            WorkflowRule::Reachability(r) => r.applies_to(workflow),
            WorkflowRule::TerminalState(r) => r.applies_to(workflow),
            WorkflowRule::StartState(r) => r.applies_to(workflow),
            WorkflowRule::EndState(r) => r.applies_to(workflow),
            WorkflowRule::DuplicateStep(r) => r.applies_to(workflow),
            WorkflowRule::OrphanNode(r) => r.applies_to(workflow),
            WorkflowRule::Deadlock(r) => r.applies_to(workflow),
            WorkflowRule::DisconnectedGraph(r) => r.applies_to(workflow),
            WorkflowRule::Timeout(r) => r.applies_to(workflow),
            WorkflowRule::RetryConfig(r) => r.applies_to(workflow),
        }
    }

    /// The issues the rule finds in `workflow`.
    pub fn evaluate(&self, workflow: &Workflow) -> (r: WorkflowEccResult<Vec<EccIssue>>)
        requires
            self.spec_ready(*workflow),
        ensures
            r matches Ok(v) && self.spec_reports(*workflow, issues_view(v@)),
    {
        match self {
            WorkflowRule::WorkflowId(r) => r.evaluate(workflow),
            WorkflowRule::WorkflowNotEmpty(r) => r.evaluate(workflow),
            WorkflowRule::UniqueStepId(r) => r.evaluate(workflow),
            WorkflowRule::DependencyExists(r) => r.evaluate(workflow),
            WorkflowRule::DependencyCycle(r) => r.evaluate(workflow),
            WorkflowRule::Reachability(r) => r.evaluate(workflow),
            WorkflowRule::TerminalState(r) => r.evaluate(workflow),
            WorkflowRule::StartState(r) => r.evaluate(workflow),
            WorkflowRule::EndState(r) => r.evaluate(workflow),
            WorkflowRule::DuplicateStep(r) => r.evaluate(workflow),
            WorkflowRule::OrphanNode(r) => r.evaluate(workflow),
            WorkflowRule::Deadlock(r) => r.evaluate(workflow),
            WorkflowRule::DisconnectedGraph(r) => r.evaluate(workflow),
            WorkflowRule::Timeout(r) => r.evaluate(workflow),
            WorkflowRule::RetryConfig(r) => r.evaluate(workflow),
        }
    }
}

/// The standard rules, in the order they run.
pub open spec fn default_rules() -> Seq<WorkflowRule> {
    seq![
        WorkflowRule::WorkflowId(WorkflowIdRule),
        WorkflowRule::WorkflowNotEmpty(WorkflowNotEmptyRule),
        WorkflowRule::UniqueStepId(UniqueStepIdRule),
        WorkflowRule::DependencyExists(DependencyExistsRule),
        WorkflowRule::DependencyCycle(DependencyCycleRule),
        WorkflowRule::Reachability(ReachabilityRule),
        WorkflowRule::TerminalState(TerminalStateRule),
        WorkflowRule::StartState(StartStateRule),
        WorkflowRule::EndState(EndStateRule),
        WorkflowRule::DuplicateStep(DuplicateStepRule),
        WorkflowRule::OrphanNode(OrphanNodeRule),
        WorkflowRule::Deadlock(DeadlockRule),
        WorkflowRule::DisconnectedGraph(DisconnectedGraphRule),
        WorkflowRule::Timeout(TimeoutRule),
        WorkflowRule::RetryConfig(RetryConfigRule),
    ]
}

/// All the standard workflow rules.
pub fn get_all_rules() -> (r: Vec<WorkflowRule>)
    ensures
        r@ == default_rules(),
{
    let r = vec![
        WorkflowRule::WorkflowId(WorkflowIdRule),
        WorkflowRule::WorkflowNotEmpty(WorkflowNotEmptyRule),
        WorkflowRule::UniqueStepId(UniqueStepIdRule),
        WorkflowRule::DependencyExists(DependencyExistsRule),
        WorkflowRule::DependencyCycle(DependencyCycleRule),
        WorkflowRule::Reachability(ReachabilityRule),
        WorkflowRule::TerminalState(TerminalStateRule),
        WorkflowRule::StartState(StartStateRule),
        WorkflowRule::EndState(EndStateRule),
        WorkflowRule::DuplicateStep(DuplicateStepRule),
        WorkflowRule::OrphanNode(OrphanNodeRule),
        WorkflowRule::Deadlock(DeadlockRule),
        WorkflowRule::DisconnectedGraph(DisconnectedGraphRule),
        WorkflowRule::Timeout(TimeoutRule),
        WorkflowRule::RetryConfig(RetryConfigRule),
    ];
    proof {
        assert(r@ =~= default_rules());
    }
    r
}

} // verus!
