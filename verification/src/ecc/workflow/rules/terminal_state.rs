//! Rule: every end step exists and can be reached from the start step.
use vstd::prelude::*;
use crate::ecc::workflow::errors::WorkflowEccResult;
use crate::ecc::workflow::report::{context_for, issues_view, make_issue, EccIssue, IssueView};
use crate::text::{join3};
use crate::ecc::workflow::rules::{in_step_ids, issue_if, lemma_issues_push, lemma_per_name_next, per_name, wf_issue};
use crate::ecc::workflow::graph::{find_flagged, flagged_from, reachable, reachable_flags};
use crate::ecc::workflow::types::{ids_of, Workflow};
use crate::text::{owned, str_eq, str_views};

verus! {

/// Checks that each end step is one of the workflow's steps and, when there
/// is a start step, can be reached from it.
#[derive(Clone, Copy, Debug, PartialEq, Eq)]
pub struct TerminalStateRule;

/// The issue about end step `e` of `w`: one when it names no step, or when it
/// names a step that cannot be reached from the start step (along dependents,
/// as [`crate::ecc::workflow::rules::ReachabilityRule`] reaches steps).
pub open spec fn end_step_issue(w: Workflow, e: Seq<char>) -> Seq<IssueView> {
    if !ids_of(w.steps@).contains(e) {
        seq![wf_issue(w, "invalid_end_step"@, "End step "@ + e + " does not exist"@, "Ensure end step exists in the workflow"@)]
    } else {
        match w.start_step_id {
            Some(s) => issue_if(
                !reachable(w.steps@, s@, e),
                wf_issue(
                    w,
                    "unreachable_end_step"@,
                    "End step "@ + e + " is not reachable from start"@,
                    "Add dependency path from start step to this end step"@,
                ),
            ),
            None => Seq::empty(),
        }
    }
}

/// The issues of [`TerminalStateRule`]: for each end step, in order, one when
/// it names no step or cannot be reached from the start step.
pub open spec fn terminal_state_issues(w: Workflow) -> Seq<IssueView> {
    per_name(str_views(w.end_step_ids@), |e: Seq<char>| end_step_issue(w, e))
}

impl TerminalStateRule {
    /// The rule's identifier.
    pub fn id(&self) -> (r: &'static str)
        ensures
            r@ == "terminal_state_rule"@,
    {
        "terminal_state_rule"
    }

    /// What the rule checks.
    pub fn description(&self) -> (r: &'static str)
        ensures
            r@ == "End steps must be valid and reachable"@,
    {
        "End steps must be valid and reachable"
    }

    /// The rule applies to workflows with steps and end steps.
    pub fn applies_to(&self, workflow: &Workflow) -> (b: bool)
        ensures
            b == (workflow.steps@.len() > 0 && workflow.end_step_ids@.len() > 0),
    {
        !workflow.is_empty() && workflow.end_step_ids.len() != 0
    }

    /// The issues found in `workflow`.
    pub fn evaluate(&self, workflow: &Workflow) -> (r: WorkflowEccResult<Vec<EccIssue>>)
        ensures
            r matches Ok(v) && issues_view(v@) == terminal_state_issues(*workflow),
    {
        let ghost f = |e: Seq<char>| end_step_issue(*workflow, e);
        let ghost ends = str_views(workflow.end_step_ids@);
        let ghost steps = workflow.steps@;
        let ids = workflow.step_ids();
        let flags: Vec<bool> = match &workflow.start_step_id {
            Some(start) => reachable_flags(&workflow.steps, start),
            None => Vec::new(),
        };
        let mut issues: Vec<EccIssue> = Vec::new();
        let n = workflow.end_step_ids.len();
        let mut i: usize = 0;
        while i < n
            invariant
                i <= n,
                n == workflow.end_step_ids@.len(),
                ends == str_views(workflow.end_step_ids@),
                steps == workflow.steps@,
                f == (|e: Seq<char>| end_step_issue(*workflow, e)),
                str_views(ids@).to_set() == ids_of(workflow.steps@).to_set(),
                workflow.start_step_id matches Some(s) ==> flags@.len() == steps.len() && forall|x: Seq<char>|
                    #[trigger] flagged_from(steps, flags@, s@, x) <==> reachable(steps, s@, x),
                issues_view(issues@) == per_name(ends.subrange(0, i as int), f),
            decreases n - i,
        {
            proof {
                lemma_per_name_next(ends, i as int, f);
            }
            let end_id = &workflow.end_step_ids[i];
            assert(ends[i as int] == end_id@);
            if !in_step_ids(&ids, workflow, end_id) {
                let issue = make_issue(
                    "invalid_end_step",
                    join3("End step ", end_id.as_str(), " does not exist"),
                    owned("Ensure end step exists in the workflow"),
                    context_for(&workflow.id),
                );
                proof {
                    lemma_issues_push(issues@, issue);
                }
                issues.push(issue);
            } else if let Some(start) = &workflow.start_step_id {
                let reached = str_eq(end_id.as_str(), start.as_str()) || find_flagged(&workflow.steps, &flags, end_id);
                assert(reached == flagged_from(steps, flags@, start@, end_id@));
                if !reached {
                    let issue = make_issue(
                        "unreachable_end_step",
                        join3("End step ", end_id.as_str(), " is not reachable from start"),
                        owned("Add dependency path from start step to this end step"),
                        context_for(&workflow.id),
                    );
                    proof {
                        lemma_issues_push(issues@, issue);
                    }
                    issues.push(issue);
                }
            }
            proof {
                assert(issues_view(issues@) =~= per_name(ends.subrange(0, i + 1), f));
            }
            i = i + 1;
        }
        proof {
            assert(ends.subrange(0, n as int) =~= ends);
        }
        Ok(issues)
    }
}

} // verus!
