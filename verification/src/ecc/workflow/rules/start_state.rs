//! Rule: the start step, when one is named, exists.
use vstd::prelude::*;
use crate::ecc::workflow::errors::WorkflowEccResult;
use crate::ecc::workflow::report::{context_for, issues_view, make_issue, EccIssue, IssueView};
use crate::text::{join3};
use crate::ecc::workflow::rules::{in_step_ids, issue_if, wf_issue};
use crate::ecc::workflow::types::{ids_of, Workflow};
use crate::text::owned;

verus! {

/// Checks that a named start step is one of the workflow's steps.
#[derive(Clone, Copy, Debug, PartialEq, Eq)]
pub struct StartStateRule;

/// The issues of [`StartStateRule`]: one when the start step names no step.
pub open spec fn start_state_issues(w: Workflow) -> Seq<IssueView> {
    match w.start_step_id {
        Some(s) => issue_if(
            !ids_of(w.steps@).contains(s@),
            wf_issue(w, "invalid_start_step"@, "Start step "@ + s@ + " does not exist"@, "Ensure start step exists in the workflow"@),
        ),
        None => Seq::empty(),
    }
}

impl StartStateRule {
    /// The rule's identifier.
    pub fn id(&self) -> (r: &'static str)
        ensures
            r@ == "start_state_rule"@,
    {
        "start_state_rule"
    }

    /// What the rule checks.
    pub fn description(&self) -> (r: &'static str)
        ensures
            r@ == "Start step, if defined, must exist in workflow"@,
    {
        "Start step, if defined, must exist in workflow"
    }

    /// The rule applies to workflows with steps and a start step.
    pub fn applies_to(&self, workflow: &Workflow) -> (b: bool)
        ensures
            b == (workflow.steps@.len() > 0 && workflow.start_step_id is Some),
    {
        !workflow.is_empty() && workflow.start_step_id.is_some()
    }

    /// The issues found in `workflow`.
    pub fn evaluate(&self, workflow: &Workflow) -> (r: WorkflowEccResult<Vec<EccIssue>>)
        ensures
            r matches Ok(v) && issues_view(v@) == start_state_issues(*workflow),
    {
        let mut issues: Vec<EccIssue> = Vec::new();
        if let Some(start_id) = &workflow.start_step_id {
            let ids = workflow.step_ids();
            if !in_step_ids(&ids, workflow, start_id) {
                issues.push(make_issue(
                    "invalid_start_step",
                    join3("Start step ", start_id.as_str(), " does not exist"),
                    owned("Ensure start step exists in the workflow"),
                    context_for(&workflow.id),
                ));
            }
        }
        proof {
            assert(issues_view(issues@) =~= start_state_issues(*workflow));
        }
        Ok(issues)
    }
}

} // verus!
