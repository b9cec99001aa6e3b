//! Rule: every step can be reached from the start step.
use vstd::prelude::*;
use crate::ecc::workflow::errors::WorkflowEccResult;
use crate::ecc::workflow::graph::{find_flagged, flagged_from, reachable, reachable_flags};
use crate::ecc::workflow::report::{context_for, issues_view, make_issue, EccIssue, IssueView};
use crate::text::{join3};
use crate::ecc::workflow::rules::{issue_if, lemma_issues_push, lemma_per_step_next, per_step, wf_issue};
use crate::ecc::workflow::types::{Workflow, WorkflowStep};
use crate::text::{owned, str_eq};

verus! {

/// Checks that every step is reachable from the start step along dependents.
#[derive(Clone, Copy, Debug, PartialEq, Eq)]
pub struct ReachabilityRule;

/// The issue about step `st` of `w` when it cannot be reached from `start`.
pub open spec fn unreachable_issue(w: Workflow, start: Seq<char>, st: WorkflowStep) -> Seq<IssueView> {
    issue_if(
        !reachable(w.steps@, start, st.id@),
        wf_issue(w, "unreachable_step"@, "Step "@ + st.id@ + " is not reachable from start"@, "Add dependency path from start step to this step"@),
    )
}

/// The issues of [`ReachabilityRule`]: with a start step, one for each step, in
/// order, that cannot be reached from it.
pub open spec fn reachability_issues(w: Workflow) -> Seq<IssueView> {
    match w.start_step_id {
        Some(s) => per_step(w.steps@, |st: WorkflowStep| unreachable_issue(w, s@, st)),
        None => Seq::empty(),
    }
}

impl ReachabilityRule {
    /// The rule's identifier.
    pub fn id(&self) -> (r: &'static str)
        ensures
            r@ == "reachability_rule"@,
    {
        "reachability_rule"
    }

    /// What the rule checks.
    pub fn description(&self) -> (r: &'static str)
        ensures
            r@ == "All steps must be reachable from start step"@,
    {
        "All steps must be reachable from start step"
    }

    /// The rule applies to workflows with steps and a start step.
    pub fn applies_to(&self, workflow: &Workflow) -> (b: bool)
        ensures
            b == (workflow.steps@.len() > 0 && workflow.start_step_id is Some),
    {
        !workflow.is_empty() && workflow.start_step_id.is_some()
    }

    /// The issues found in `workflow`.
    pub fn evaluate(&self, workflow: &Workflow) -> (r: WorkflowEccResult<Vec<EccIssue>>)
        ensures
            r matches Ok(v) && issues_view(v@) == reachability_issues(*workflow),
    {
        let mut issues: Vec<EccIssue> = Vec::new();
        if let Some(start_id) = &workflow.start_step_id {
            let ghost f = |st: WorkflowStep| unreachable_issue(*workflow, start_id@, st);
            let ghost steps = workflow.steps@;
            let flags = reachable_flags(&workflow.steps, start_id);
            let n = workflow.steps.len();
            let mut i: usize = 0;
            while i < n
                invariant
                    i <= n,
                    n == steps.len(),
                    steps == workflow.steps@,
                    f == (|st: WorkflowStep| unreachable_issue(*workflow, start_id@, st)),
                    flags@.len() == steps.len(),
                    forall|x: Seq<char>| #[trigger] flagged_from(steps, flags@, start_id@, x) <==> reachable(steps, start_id@, x),
                    issues_view(issues@) == per_step(steps.subrange(0, i as int), f),
                decreases n - i,
            {
                proof {
                    lemma_per_step_next(steps, i as int, f);
                }
                let step_id = &workflow.steps[i].id;
                let reached = str_eq(step_id.as_str(), start_id.as_str()) || find_flagged(&workflow.steps, &flags, step_id);
                assert(reached == flagged_from(steps, flags@, start_id@, step_id@));
                if !reached {
                    let issue = make_issue(
                        "unreachable_step",
                        join3("Step ", step_id.as_str(), " is not reachable from start"),
                        owned("Add dependency path from start step to this step"),
                        context_for(&workflow.id),
                    );
                    proof {
                        lemma_issues_push(issues@, issue);
                    }
                    issues.push(issue);
                }
                proof {
                    assert(issues_view(issues@) =~= per_step(steps.subrange(0, i + 1), f));
                }
                i = i + 1;
            }
            proof {
                assert(steps.subrange(0, n as int) =~= steps);
            }
        }
        Ok(issues)
    }
}

} // verus!
