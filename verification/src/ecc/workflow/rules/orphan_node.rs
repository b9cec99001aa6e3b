//! Rule: every step has a path to an end step.
use vstd::prelude::*;
use crate::ecc::workflow::errors::WorkflowEccResult;
use crate::ecc::workflow::graph::{find_flagged, flagged_end, leads_to_end, leads_to_end_flags};
use crate::ecc::workflow::report::{context_for, issues_view, make_issue, EccIssue, IssueView};
use crate::text::{join3};
use crate::ecc::workflow::rules::{issue_if, lemma_issues_push, lemma_per_step_next, per_step, wf_issue};
use crate::ecc::workflow::types::{Workflow, WorkflowStep};
use crate::text::{contains_str, owned, str_views};

verus! {

/// Checks that every step leads, through its dependents, to an end step.
#[derive(Clone, Copy, Debug, PartialEq, Eq)]
pub struct OrphanNodeRule;

/// The issue about step `st` of `w` when it has no path to an end step.
pub open spec fn orphan_issue(w: Workflow, st: WorkflowStep) -> Seq<IssueView> {
    issue_if(
        !leads_to_end(w.steps@, str_views(w.end_step_ids@), st.id@),
        wf_issue(w, "orphan_step"@, "Step "@ + st.id@ + " has no path to any end step"@, "Add dependencies to connect this step to an end step"@),
    )
}

/// The issues of [`OrphanNodeRule`]: one for each step, in order, without a path
/// to an end step.
pub open spec fn orphan_node_issues(w: Workflow) -> Seq<IssueView> {
    per_step(w.steps@, |st: WorkflowStep| orphan_issue(w, st))
}

impl OrphanNodeRule {
    /// The rule's identifier.
    pub fn id(&self) -> (r: &'static str)
        ensures
            r@ == "orphan_node_rule"@,
    {
        "orphan_node_rule"
    }

    /// What the rule checks.
    pub fn description(&self) -> (r: &'static str)
        ensures
            r@ == "All steps must have a path to at least one end step"@,
    {
        "All steps must have a path to at least one end step"
    }

    /// The rule applies to workflows with steps and end steps.
    pub fn applies_to(&self, workflow: &Workflow) -> (b: bool)
        ensures
            b == (workflow.steps@.len() > 0 && workflow.end_step_ids@.len() > 0),
    {
        !workflow.is_empty() && workflow.end_step_ids.len() != 0
    }

    /// The issues found in `workflow`.
    pub fn evaluate(&self, workflow: &Workflow) -> (r: WorkflowEccResult<Vec<EccIssue>>)
        ensures
            r matches Ok(v) && issues_view(v@) == orphan_node_issues(*workflow),
    {
        let ghost f = |st: WorkflowStep| orphan_issue(*workflow, st);
        let ghost steps = workflow.steps@;
        let ghost ends = str_views(workflow.end_step_ids@);
        let flags = leads_to_end_flags(&workflow.steps, &workflow.end_step_ids);
        let mut issues: Vec<EccIssue> = Vec::new();
        let n = workflow.steps.len();
        let mut i: usize = 0;
        while i < n
            invariant
                i <= n,
                n == steps.len(),
                steps == workflow.steps@,
                ends == str_views(workflow.end_step_ids@),
                f == (|st: WorkflowStep| orphan_issue(*workflow, st)),
                flags@.len() == steps.len(),
                forall|x: Seq<char>| #[trigger] flagged_end(steps, flags@, ends, x) <==> leads_to_end(steps, ends, x),
                issues_view(issues@) == per_step(steps.subrange(0, i as int), f),
            decreases n - i,
        {
            proof {
                lemma_per_step_next(steps, i as int, f);
            }
            let step_id = &workflow.steps[i].id;
            let leads = contains_str(&workflow.end_step_ids, step_id.as_str()) || find_flagged(&workflow.steps, &flags, step_id);
            assert(leads == flagged_end(steps, flags@, ends, step_id@));
            if !leads {
                let issue = make_issue(
                    "orphan_step",
                    join3("Step ", step_id.as_str(), " has no path to any end step"),
                    owned("Add dependencies to connect this step to an end step"),
                    context_for(&workflow.id),
                );
                proof {
                    lemma_issues_push(issues@, issue);
                }
                issues.push(issue);
            }
            proof {
                assert(issues_view(issues@) =~= per_step(steps.subrange(0, i + 1), f));
            }
            i = i + 1;
        }
        proof {
            assert(steps.subrange(0, n as int) =~= steps);
        }
        Ok(issues)
    }
}

} // verus!
