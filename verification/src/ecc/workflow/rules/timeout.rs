//! Rule: time limits are consistent.
use vstd::prelude::*;
use crate::ecc::workflow::errors::WorkflowEccResult;
use crate::ecc::workflow::report::{context_for, issues_view, make_issue, EccIssue, IssueView};
use crate::text::{join3};
use crate::ecc::workflow::rules::{issue_if, lemma_issues_push, lemma_per_step_next, per_step, wf_issue};
use crate::ecc::workflow::types::{Workflow, WorkflowStep};
use crate::text::owned;

verus! {

/// Checks that time limits are positive and that the steps' limits fit into the
/// workflow's total limit.
#[derive(Clone, Copy, Debug, PartialEq, Eq)]
pub struct TimeoutRule;

/// The sum of the time limits that the steps set.
pub open spec fn timeout_sum(steps: Seq<WorkflowStep>) -> nat
    decreases steps.len(),
{
    if steps.len() == 0 {
        0
    } else {
        timeout_sum(steps.drop_last()) + match steps.last().timeout_ms {
            Some(t) => t as nat,
            None => 0nat,
        }
    }
}

/// The sum over a prefix is at most the sum over all steps.
pub proof fn lemma_timeout_sum_prefix(steps: Seq<WorkflowStep>, i: int)
    requires
        0 <= i <= steps.len(),
    ensures
        timeout_sum(steps.subrange(0, i)) <= timeout_sum(steps),
    decreases steps.len() - i,
{
    if i < steps.len() {
        lemma_timeout_sum_prefix(steps, i + 1);
        assert(steps.subrange(0, i + 1).drop_last() =~= steps.subrange(0, i));
    } else {
        assert(steps.subrange(0, i) =~= steps);
    }
}

/// The issue about step `st` of `w` when its time limit is zero.
pub open spec fn zero_timeout_issue(w: Workflow, st: WorkflowStep) -> Seq<IssueView> {
    issue_if(
        st.timeout_ms == Some(0u64),
        wf_issue(w, "zero_timeout"@, "Step "@ + st.id@ + " has zero timeout"@, "Set a positive timeout value in milliseconds"@),
    )
}

/// The issues about the total time limit of `w`: one when it is zero, one when
/// the steps' limits add up to more.
pub open spec fn total_timeout_issues(w: Workflow) -> Seq<IssueView> {
    match w.total_timeout_ms {
        Some(total) => issue_if(
            total == 0,
            wf_issue(w, "zero_total_timeout"@, "Workflow has zero total timeout"@, "Set a positive total timeout value in milliseconds"@),
        ) + issue_if(
            timeout_sum(w.steps@) > total,
            wf_issue(w, "timeout_mismatch"@, "Sum of step timeouts exceeds workflow total timeout"@, "Adjust step or total timeout values"@),
        ),
        None => Seq::empty(),
    }
}

/// The issues of [`TimeoutRule`]: one for each step, in order, with a zero time
/// limit, then those about the total limit.
pub open spec fn timeout_issues(w: Workflow) -> Seq<IssueView> {
    per_step(w.steps@, |st: WorkflowStep| zero_timeout_issue(w, st)) + total_timeout_issues(w)
}

/// Whether the steps' time limits can be added up in 64 bits when a total limit
/// is set (the sum is only taken then).
pub open spec fn timeouts_summable(w: Workflow) -> bool {
    w.total_timeout_ms is Some ==> timeout_sum(w.steps@) <= u64::MAX
}

/// Whether the steps' time limits of `workflow` add up in 64 bits where a total
/// limit is set: the condition under which the timeout rule, and so the standard
/// validation, can run on it.
pub fn timeouts_fit(workflow: &Workflow) -> (b: bool)
    ensures
        b == timeouts_summable(*workflow),
{
    if workflow.total_timeout_ms.is_none() {
        return true;
    }
    let ghost steps = workflow.steps@;
    let n = workflow.steps.len();
    let mut s: u64 = 0;
    let mut i: usize = 0;
    while i < n
        invariant
            i <= n,
            n == steps.len(),
            steps == workflow.steps@,
            workflow.total_timeout_ms is Some,
            s == timeout_sum(steps.subrange(0, i as int)),
        decreases n - i,
    {
        proof {
            assert(steps.subrange(0, i + 1).drop_last() =~= steps.subrange(0, i as int));
            assert(steps.subrange(0, i + 1).last() == steps[i as int]);
        }
        if let Some(t) = workflow.steps[i].timeout_ms {
            match s.checked_add(t) {
                Some(v) => {
                    s = v;
                },
                None => {
                    proof {
                        assert(timeout_sum(steps.subrange(0, i + 1)) == s + t);
                        lemma_timeout_sum_prefix(steps, i + 1);
                    }
                    return false;
                },
            }
        }
        i = i + 1;
    }
    proof {
        assert(steps.subrange(0, n as int) =~= steps);
    }
    true
}

impl TimeoutRule {
    /// The rule's identifier.
    pub fn id(&self) -> (r: &'static str)
        ensures
            r@ == "timeout_rule"@,
    {
        "timeout_rule"
    }

    /// What the rule checks.
    pub fn description(&self) -> (r: &'static str)
        ensures
            r@ == "Timeout configuration must be valid"@,
    {
        "Timeout configuration must be valid"
    }

    /// The rule applies to every workflow.
    pub fn applies_to(&self, workflow: &Workflow) -> (b: bool)
        ensures
            b,
    {
        true
    }

    /// The sum of the steps' time limits.
    fn step_timeout_sum(steps: &Vec<WorkflowStep>) -> (s: u64)
        requires
            timeout_sum(steps@) <= u64::MAX,
        ensures
            s == timeout_sum(steps@),
    {
        let n = steps.len();
        let mut s: u64 = 0;
        let mut i: usize = 0;
        while i < n
            invariant
                i <= n,
                n == steps@.len(),
                timeout_sum(steps@) <= u64::MAX,
                s == timeout_sum(steps@.subrange(0, i as int)),
            decreases n - i,
        {
            proof {
                lemma_timeout_sum_prefix(steps@, i + 1);
                assert(steps@.subrange(0, i + 1).drop_last() =~= steps@.subrange(0, i as int));
            }
            if let Some(t) = steps[i].timeout_ms {
                s = s + t;
            }
            i = i + 1;
        }
        proof {
            assert(steps@.subrange(0, n as int) =~= steps@);
        }
        s
    }

    /// The issues found in `workflow`.
    pub fn evaluate(&self, workflow: &Workflow) -> (r: WorkflowEccResult<Vec<EccIssue>>)
        requires
            timeouts_summable(*workflow),
        ensures
            r matches Ok(v) && issues_view(v@) == timeout_issues(*workflow),
    {
        let ghost f = |st: WorkflowStep| zero_timeout_issue(*workflow, st);
        let ghost steps = workflow.steps@;
        let mut issues: Vec<EccIssue> = Vec::new();
        let n = workflow.steps.len();
        let mut i: usize = 0;
        while i < n
            invariant
                i <= n,
                n == steps.len(),
                steps == workflow.steps@,
                f == (|st: WorkflowStep| zero_timeout_issue(*workflow, st)),
                issues_view(issues@) == per_step(steps.subrange(0, i as int), f),
            decreases n - i,
        {
            proof {
                lemma_per_step_next(steps, i as int, f);
            }
            let step = &workflow.steps[i];
            if step.timeout_ms == Some(0u64) {
                let issue = make_issue(
                    "zero_timeout",
                    join3("Step ", step.id.as_str(), " has zero timeout"),
                    owned("Set a positive timeout value in milliseconds"),
                    context_for(&workflow.id),
                );
                proof {
                    lemma_issues_push(issues@, issue);
                }
                issues.push(issue);
            }
            proof {
                assert(issues_view(issues@) =~= per_step(steps.subrange(0, i + 1), f));
            }
            i = i + 1;
        }
        proof {
            assert(steps.subrange(0, n as int) =~= steps);
        }
        let ghost before = issues_view(issues@);
        if let Some(total) = workflow.total_timeout_ms {
            if total == 0 {
                let issue = make_issue(
                    "zero_total_timeout",
                    owned("Workflow has zero total timeout"),
                    owned("Set a positive total timeout value in milliseconds"),
                    context_for(&workflow.id),
                );
                proof {
                    lemma_issues_push(issues@, issue);
                }
                issues.push(issue);
            }
            let sum = Self::step_timeout_sum(&workflow.steps);
            if sum > total {
                let issue = make_issue(
                    "timeout_mismatch",
                    owned("Sum of step timeouts exceeds workflow total timeout"),
                    owned("Adjust step or total timeout values"),
                    context_for(&workflow.id),
                );
                proof {
                    lemma_issues_push(issues@, issue);
                }
                issues.push(issue);
            }
        }
        proof {
            assert(issues_view(issues@) =~= before + total_timeout_issues(*workflow));
        }
        Ok(issues)
    }
}

} // verus!
