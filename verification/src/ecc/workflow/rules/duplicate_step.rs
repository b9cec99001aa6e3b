//! Rule: no step occurs twice.
use vstd::prelude::*;
use crate::ecc::workflow::errors::WorkflowEccResult;
use crate::ecc::workflow::report::{context_for, issues_view, make_issue, EccIssue, IssueView};
use crate::text::{join2};
use crate::ecc::workflow::rules::{lemma_issues_push, repeated_ids, wf_issue};
use crate::ecc::workflow::types::{ids_of, Workflow};
use crate::text::{contains_str, copy_string, owned, str_views};

verus! {

/// Checks that no step repeats the identifier of an earlier one.
#[derive(Clone, Copy, Debug, PartialEq, Eq)]
pub struct DuplicateStepRule;

/// The issue about a step of `w` that repeats identifier `id`.
pub open spec fn duplicate_step_issue(w: Workflow, id: Seq<char>) -> IssueView {
    wf_issue(w, "duplicate_step"@, "Duplicate step: "@ + id, "Remove duplicate step or rename it with unique ID"@)
}

/// The issues of [`DuplicateStepRule`]: one for each step, in order, whose
/// identifier an earlier step already has.
pub open spec fn duplicate_step_issues(w: Workflow) -> Seq<IssueView> {
    repeated_ids(w.steps@).map_values(|id: Seq<char>| duplicate_step_issue(w, id))
}

impl DuplicateStepRule {
    /// The rule's identifier.
    pub fn id(&self) -> (r: &'static str)
        ensures
            r@ == "duplicate_step_rule"@,
    {
        "duplicate_step_rule"
    }

    /// What the rule checks.
    pub fn description(&self) -> (r: &'static str)
        ensures
            r@ == "Workflow must not contain duplicate steps"@,
    {
        "Workflow must not contain duplicate steps"
    }

    /// The rule applies to workflows with steps.
    pub fn applies_to(&self, workflow: &Workflow) -> (b: bool)
        ensures
            b == (workflow.steps@.len() > 0),
    {
        !workflow.is_empty()
    }

    /// The issues found in `workflow`.
    pub fn evaluate(&self, workflow: &Workflow) -> (r: WorkflowEccResult<Vec<EccIssue>>)
        ensures
            r matches Ok(v) && issues_view(v@) == duplicate_step_issues(*workflow),
    {
        let ghost g = |id: Seq<char>| duplicate_step_issue(*workflow, id);
        let ghost steps = workflow.steps@;
        let mut issues: Vec<EccIssue> = Vec::new();
        let mut seen: Vec<String> = Vec::new();
        let n = workflow.steps.len();
        let mut i: usize = 0;
        while i < n
            invariant
                i <= n,
                n == steps.len(),
                steps == workflow.steps@,
                g == (|id: Seq<char>| duplicate_step_issue(*workflow, id)),
                str_views(seen@) == ids_of(steps.subrange(0, i as int)),
                issues_view(issues@) == repeated_ids(steps.subrange(0, i as int)).map_values(g),
            decreases n - i,
        {
            let ghost pre = steps.subrange(0, i as int);
            let ghost pre1 = steps.subrange(0, i + 1);
            proof {
                assert(pre1.drop_last() =~= pre);
                assert(pre1.last() == steps[i as int]);
            }
            let step_id = &workflow.steps[i].id;
            if contains_str(&seen, step_id.as_str()) {
                let issue = make_issue(
                    "duplicate_step",
                    join2("Duplicate step: ", step_id.as_str()),
                    owned("Remove duplicate step or rename it with unique ID"),
                    context_for(&workflow.id),
                );
                proof {
                    lemma_issues_push(issues@, issue);
                }
                issues.push(issue);
            }
            let ghost s0 = seen@;
            seen.push(copy_string(step_id));
            proof {
                assert(str_views(seen@) =~= str_views(s0).push(step_id@));
                assert(ids_of(pre1) =~= ids_of(pre).push(step_id@));
                assert(issues_view(issues@) =~= repeated_ids(pre1).map_values(g));
            }
            i = i + 1;
        }
        proof {
            assert(steps.subrange(0, n as int) =~= steps);
        }
        Ok(issues)
    }
}

} // verus!
