//! Rule: the workflow has no deadlock.
use vstd::prelude::*;
use crate::ecc::workflow::errors::WorkflowEccResult;
use crate::ecc::workflow::graph::{has_deadlock, spec_has_deadlock};
use crate::ecc::workflow::report::{context_for, issues_view, make_issue, EccIssue, IssueView};
use crate::ecc::workflow::rules::{issue_if, wf_issue};
use crate::ecc::workflow::types::Workflow;
use crate::text::owned;

verus! {

/// Checks that a topological sort of the dependency graph places every step.
#[derive(Clone, Copy, Debug, PartialEq, Eq)]
pub struct DeadlockRule;

/// The issues of [`DeadlockRule`]: one when the workflow can deadlock.
pub open spec fn deadlock_issues(w: Workflow) -> Seq<IssueView> {
    issue_if(
        spec_has_deadlock(w.steps@),
        wf_issue(w, "deadlock_detected"@, "Potential deadlock detected in workflow"@, "Check for circular dependencies or missing end conditions"@),
    )
}

impl DeadlockRule {
    /// The rule's identifier.
    pub fn id(&self) -> (r: &'static str)
        ensures
            r@ == "deadlock_rule"@,
    {
        "deadlock_rule"
    }

    /// What the rule checks.
    pub fn description(&self) -> (r: &'static str)
        ensures
            r@ == "Workflow must not have deadlock conditions"@,
    {
        "Workflow must not have deadlock conditions"
    }

    /// The rule applies to workflows with steps.
    pub fn applies_to(&self, workflow: &Workflow) -> (b: bool)
        ensures
            b == (workflow.steps@.len() > 0),
    {
        !workflow.is_empty()
    }

    /// The issues found in `workflow`.
    pub fn evaluate(&self, workflow: &Workflow) -> (r: WorkflowEccResult<Vec<EccIssue>>)
        ensures
            r matches Ok(v) && issues_view(v@) == deadlock_issues(*workflow),
    {
        let mut issues: Vec<EccIssue> = Vec::new();
        if has_deadlock(&workflow.steps) {
            issues.push(make_issue(
                "deadlock_detected",
                owned("Potential deadlock detected in workflow"),
                owned("Check for circular dependencies or missing end conditions"),
                context_for(&workflow.id),
            ));
        }
        proof {
            assert(issues_view(issues@) =~= deadlock_issues(*workflow));
        }
        Ok(issues)
    }
}

} // verus!
