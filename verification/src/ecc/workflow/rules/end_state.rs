//! Rule: a workflow has at least one end step.
use vstd::prelude::*;
use crate::ecc::workflow::errors::WorkflowEccResult;
use crate::ecc::workflow::report::{context_for, issues_view, make_issue, EccIssue, IssueView};
use crate::ecc::workflow::rules::{issue_if, wf_issue};
use crate::ecc::workflow::types::Workflow;
use crate::text::owned;

verus! {

/// Checks that the workflow has at least one end step.
#[derive(Clone, Copy, Debug, PartialEq, Eq)]
pub struct EndStateRule;

/// The issues of [`EndStateRule`]: one when no end step is defined.
pub open spec fn end_state_issues(w: Workflow) -> Seq<IssueView> {
    issue_if(
        w.end_step_ids@.len() == 0,
        wf_issue(w, "no_end_steps"@, "Workflow has no end steps defined"@, "Define at least one end step for the workflow"@),
    )
}

impl EndStateRule {
    /// The rule's identifier.
    pub fn id(&self) -> (r: &'static str)
        ensures
            r@ == "end_state_rule"@,
    {
        "end_state_rule"
    }

    /// What the rule checks.
    pub fn description(&self) -> (r: &'static str)
        ensures
            r@ == "Workflow must have at least one end step"@,
    {
        "Workflow must have at least one end step"
    }

    /// The rule applies to every workflow.
    pub fn applies_to(&self, workflow: &Workflow) -> (b: bool)
        ensures
            b,
    {
        true
    }

    /// The issues found in `workflow`.
    pub fn evaluate(&self, workflow: &Workflow) -> (r: WorkflowEccResult<Vec<EccIssue>>)
        ensures
            r matches Ok(v) && issues_view(v@) == end_state_issues(*workflow),
    {
        let mut issues: Vec<EccIssue> = Vec::new();
        if workflow.end_step_ids.len() == 0 {
            issues.push(make_issue(
                "no_end_steps",
                owned("Workflow has no end steps defined"),
                owned("Define at least one end step for the workflow"),
                context_for(&workflow.id),
            ));
        }
        proof {
            assert(issues_view(issues@) =~= end_state_issues(*workflow));
        }
        Ok(issues)
    }
}

} // verus!
