//! Rule: a workflow has at least one step.
use vstd::prelude::*;
use crate::ecc::workflow::errors::WorkflowEccResult;
use crate::ecc::workflow::report::{context_for, issues_view, make_issue, EccIssue, IssueView};
use crate::ecc::workflow::rules::{issue_if, wf_issue};
use crate::ecc::workflow::types::Workflow;
use crate::text::owned;

verus! {

/// Checks that the workflow holds at least one step.
#[derive(Clone, Copy, Debug, PartialEq, Eq)]
pub struct WorkflowNotEmptyRule;

/// The issues of [`WorkflowNotEmptyRule`]: one when the workflow has no step.
pub open spec fn workflow_not_empty_issues(w: Workflow) -> Seq<IssueView> {
    issue_if(
        w.steps@.len() == 0,
        wf_issue(w, "workflow_empty"@, "Workflow is empty"@, "Add at least one step to the workflow"@),
    )
}

impl WorkflowNotEmptyRule {
    /// The rule's identifier.
    pub fn id(&self) -> (r: &'static str)
        ensures
            r@ == "workflow_not_empty_rule"@,
    {
        "workflow_not_empty_rule"
    }

    /// What the rule checks.
    pub fn description(&self) -> (r: &'static str)
        ensures
            r@ == "Workflow must contain at least one step"@,
    {
        "Workflow must contain at least one step"
    }

    /// The rule applies to every workflow.
    pub fn applies_to(&self, workflow: &Workflow) -> (b: bool)
        ensures
            b,
    {
        true
    }

    /// The issues found in `workflow`.
    pub fn evaluate(&self, workflow: &Workflow) -> (r: WorkflowEccResult<Vec<EccIssue>>)
        ensures
            r matches Ok(v) && issues_view(v@) == workflow_not_empty_issues(*workflow),
    {
        let mut issues: Vec<EccIssue> = Vec::new();
        if workflow.is_empty() {
            issues.push(make_issue(
                "workflow_empty",
                owned("Workflow is empty"),
                owned("Add at least one step to the workflow"),
                context_for(&workflow.id),
            ));
        }
        proof {
            assert(issues_view(issues@) =~= workflow_not_empty_issues(*workflow));
        }
        Ok(issues)
    }
}

} // verus!
