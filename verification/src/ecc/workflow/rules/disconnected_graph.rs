//! Rule: some end step can be reached from the start step.
use vstd::prelude::*;
use crate::ecc::workflow::errors::WorkflowEccResult;
use crate::ecc::workflow::graph::{find_flagged, flagged_from, reachable, reachable_flags};
use crate::ecc::workflow::report::{context_for, issues_view, make_issue, EccIssue, IssueView};
use crate::ecc::workflow::rules::{issue_if, wf_issue};
use crate::ecc::workflow::types::Workflow;
use crate::text::{owned, str_eq};

verus! {

/// Checks that the dependency graph leads from the start step to an end step.
#[derive(Clone, Copy, Debug, PartialEq, Eq)]
pub struct DisconnectedGraphRule;

/// The workflow has a start step from which some end step is reachable.
pub open spec fn connected_from_start(w: Workflow) -> bool {
    match w.start_step_id {
        Some(s) => exists|e: int| 0 <= e < w.end_step_ids@.len() && reachable(w.steps@, s@, #[trigger] w.end_step_ids@[e]@),
        None => false,
    }
}

/// The issues of [`DisconnectedGraphRule`]: one when no end step is reachable.
pub open spec fn disconnected_graph_issues(w: Workflow) -> Seq<IssueView> {
    issue_if(
        !connected_from_start(w),
        wf_issue(w, "disconnected_graph"@, "No path exists from start step to any end step"@, "Add dependencies to connect start step to end steps"@),
    )
}

impl DisconnectedGraphRule {
    /// Breadth-first search from the start step along dependents, then a look
    /// for an end step among the steps found.
    fn is_connected_from_start(workflow: &Workflow) -> (b: bool)
        ensures
            b == connected_from_start(*workflow),
    {
        if let Some(start_id) = &workflow.start_step_id {
            let flags = reachable_flags(&workflow.steps, start_id);
            let n = workflow.end_step_ids.len();
            let mut e: usize = 0;
            while e < n
                invariant
                    e <= n,
                    n == workflow.end_step_ids@.len(),
                    workflow.start_step_id == Some(*start_id),
                    flags@.len() == workflow.steps@.len(),
                    forall|x: Seq<char>| #[trigger] flagged_from(workflow.steps@, flags@, start_id@, x)
                        <==> reachable(workflow.steps@, start_id@, x),
                    forall|t: int| 0 <= t < e ==> !reachable(workflow.steps@, start_id@, #[trigger] workflow.end_step_ids@[t]@),
                decreases n - e,
            {
                let end_id = &workflow.end_step_ids[e];
                if str_eq(end_id.as_str(), start_id.as_str()) || find_flagged(&workflow.steps, &flags, end_id) {
                    assert(flagged_from(workflow.steps@, flags@, start_id@, end_id@));
                    return true;
                }
                assert(!flagged_from(workflow.steps@, flags@, start_id@, end_id@));
                e = e + 1;
            }
        }
        false
    }

    /// The rule's identifier.
    pub fn id(&self) -> (r: &'static str)
        ensures
            r@ == "disconnected_graph_rule"@,
    {
        "disconnected_graph_rule"
    }

    /// What the rule checks.
    pub fn description(&self) -> (r: &'static str)
        ensures
            r@ == "Workflow graph must have path from start to at least one end step"@,
    {
        "Workflow graph must have path from start to at least one end step"
    }

    /// The rule applies to workflows with steps, a start step and an end step.
    pub fn applies_to(&self, workflow: &Workflow) -> (b: bool)
        ensures
            b == (workflow.steps@.len() > 0 && workflow.start_step_id is Some && workflow.end_step_ids@.len() > 0),
    {
        !workflow.is_empty() && workflow.start_step_id.is_some() && workflow.end_step_ids.len() != 0
    }

    /// The issues found in `workflow`.
    pub fn evaluate(&self, workflow: &Workflow) -> (r: WorkflowEccResult<Vec<EccIssue>>)
        ensures
            r matches Ok(v) && issues_view(v@) == disconnected_graph_issues(*workflow),
    {
        let mut issues: Vec<EccIssue> = Vec::new();
        if !Self::is_connected_from_start(workflow) {
            issues.push(make_issue(
                "disconnected_graph",
                owned("No path exists from start step to any end step"),
                owned("Add dependencies to connect start step to end steps"),
                context_for(&workflow.id),
            ));
        }
        proof {
            assert(issues_view(issues@) =~= disconnected_graph_issues(*workflow));
        }
        Ok(issues)
    }
}

} // verus!
