//! Rule: retry settings are sensible.
use vstd::prelude::*;
use crate::ecc::workflow::errors::WorkflowEccResult;
use crate::ecc::workflow::report::{context_for, issues_view, make_issue, EccIssue, IssueView};
use crate::ecc::workflow::rules::{issue_if, lemma_issues_push, lemma_per_step_next, per_step, wf_issue};
use crate::ecc::workflow::types::{Workflow, WorkflowStep};
use crate::text::{owned, push_decimal, push_str, spec_decimal};

verus! {

/// Checks for very high retry limits and for a zero retry delay.
#[derive(Clone, Copy, Debug, PartialEq, Eq)]
pub struct RetryConfigRule;

/// Retry limits above this are reported.
pub const MAX_SENSIBLE_RETRIES: u32 = 100;

/// The issue about step `st` of `w` when its retry limit is above
/// [`MAX_SENSIBLE_RETRIES`].
pub open spec fn high_retry_issue(w: Workflow, st: WorkflowStep) -> Seq<IssueView> {
    match st.max_retries {
        Some(n) => issue_if(
            n > MAX_SENSIBLE_RETRIES,
            wf_issue(
                w,
                "high_retry_count"@,
                "Step "@ + st.id@ + " has very high max_retries ("@ + spec_decimal(n as nat) + ")"@,
                "Consider reducing max_retries to prevent infinite retries"@,
            ),
        ),
        None => Seq::empty(),
    }
}

/// The issues of [`RetryConfigRule`]: one for each step, in order, with a very
/// high retry limit, then one when retries are on with a zero delay.
pub open spec fn retry_config_issues(w: Workflow) -> Seq<IssueView> {
    per_step(w.steps@, |st: WorkflowStep| high_retry_issue(w, st)) + issue_if(
        w.recovery_config.enable_retry && w.recovery_config.retry_delay_ms == Some(0u64),
        wf_issue(w, "zero_retry_delay"@, "Retry delay is zero milliseconds"@, "Set a positive retry delay to avoid busy spinning"@),
    )
}

/// When every step's issues carry code `c`, so do all the issues over the steps.
proof fn lemma_per_step_codes(steps: Seq<WorkflowStep>, f: spec_fn(WorkflowStep) -> Seq<IssueView>, c: Seq<char>)
    requires
        forall|st: WorkflowStep, i: int| 0 <= i < f(st).len() ==> (#[trigger] f(st)[i]).code == c,
    ensures
        forall|i: int| 0 <= i < per_step(steps, f).len() ==> (#[trigger] per_step(steps, f)[i]).code == c,
    decreases steps.len(),
{
    if steps.len() > 0 {
        lemma_per_step_codes(steps.drop_last(), f, c);
        let pre = per_step(steps.drop_last(), f);
        let last = f(steps.last());
        assert forall|i: int| 0 <= i < per_step(steps, f).len() implies (#[trigger] per_step(steps, f)[i]).code == c by {
            if i >= pre.len() {
                assert(per_step(steps, f)[i] == last[i - pre.len()]);
            } else {
                assert(per_step(steps, f)[i] == pre[i]);
            }
        }
    }
}

/// A zero retry delay matters only while retries are on: with retries enabled
/// and a delay of `Some(0)` the rule reports, after the per-step issues, one
/// `zero_retry_delay` issue ("Retry delay is zero milliseconds"); with retries
/// disabled, or any other delay, no reported issue has that code.
pub proof fn lemma_zero_retry_delay(w: Workflow)
    ensures
        w.recovery_config.enable_retry && w.recovery_config.retry_delay_ms == Some(0u64) ==> retry_config_issues(w).len()
            > 0 && retry_config_issues(w).last().code == "zero_retry_delay"@ && retry_config_issues(w).last().message
            == "Retry delay is zero milliseconds"@,
        !(w.recovery_config.enable_retry && w.recovery_config.retry_delay_ms == Some(0u64)) ==> forall|i: int|
            0 <= i < retry_config_issues(w).len() ==> (#[trigger] retry_config_issues(w)[i]).code != "zero_retry_delay"@,
{
    reveal_strlit("high_retry_count");
    reveal_strlit("zero_retry_delay");
    let f = |st: WorkflowStep| high_retry_issue(w, st);
    assert forall|st: WorkflowStep, i: int| 0 <= i < f(st).len() implies (#[trigger] f(st)[i]).code == "high_retry_count"@ by {
        assert(f(st) == high_retry_issue(w, st));
    }
    lemma_per_step_codes(w.steps@, f, "high_retry_count"@);
    let pre = per_step(w.steps@, f);
    if !(w.recovery_config.enable_retry && w.recovery_config.retry_delay_ms == Some(0u64)) {
        assert(retry_config_issues(w) =~= pre);
        assert forall|i: int| 0 <= i < retry_config_issues(w).len() implies (#[trigger] retry_config_issues(w)[i]).code
            != "zero_retry_delay"@ by {
            assert(pre[i].code == "high_retry_count"@);
            assert("high_retry_count"@[0] != "zero_retry_delay"@[0]);
        }
    }
}

/// `Step <id> has very high max_retries (<n>)`.
fn high_retry_message(id: &String, n: u32) -> (r: String)
    ensures
        r@ == "Step "@ + id@ + " has very high max_retries ("@ + spec_decimal(n as nat) + ")"@,
{
    let mut r = owned("Step ");
    push_str(&mut r, id.as_str());
    push_str(&mut r, " has very high max_retries (");
    push_decimal(&mut r, n as u64);
    push_str(&mut r, ")");
    r
}

impl RetryConfigRule {
    /// The rule's identifier.
    pub fn id(&self) -> (r: &'static str)
        ensures
            r@ == "retry_config_rule"@,
    {
        "retry_config_rule"
    }

    /// What the rule checks.
    pub fn description(&self) -> (r: &'static str)
        ensures
            r@ == "Retry configuration must be valid"@,
    {
        "Retry configuration must be valid"
    }

    /// The rule applies to every workflow.
    pub fn applies_to(&self, workflow: &Workflow) -> (b: bool)
        ensures
            b,
    {
        true
    }

    /// The issues found in `workflow`.
    pub fn evaluate(&self, workflow: &Workflow) -> (r: WorkflowEccResult<Vec<EccIssue>>)
        ensures
            r matches Ok(v) && issues_view(v@) == retry_config_issues(*workflow),
    {
        let ghost f = |st: WorkflowStep| high_retry_issue(*workflow, st);
        let ghost steps = workflow.steps@;
        let mut issues: Vec<EccIssue> = Vec::new();
        let n = workflow.steps.len();
        let mut i: usize = 0;
        while i < n
            invariant
                i <= n,
                n == steps.len(),
                steps == workflow.steps@,
                f == (|st: WorkflowStep| high_retry_issue(*workflow, st)),
                issues_view(issues@) == per_step(steps.subrange(0, i as int), f),
            decreases n - i,
        {
            proof {
                lemma_per_step_next(steps, i as int, f);
            }
            let step = &workflow.steps[i];
            if let Some(max_retries) = step.max_retries {
                if max_retries > MAX_SENSIBLE_RETRIES {
                    let issue = make_issue(
                        "high_retry_count",
                        high_retry_message(&step.id, max_retries),
                        owned("Consider reducing max_retries to prevent infinite retries"),
                        context_for(&workflow.id),
                    );
                    proof {
                        lemma_issues_push(issues@, issue);
                    }
                    issues.push(issue);
                }
            }
            proof {
                assert(issues_view(issues@) =~= per_step(steps.subrange(0, i + 1), f));
            }
            i = i + 1;
        }
        proof {
            assert(steps.subrange(0, n as int) =~= steps);
        }
        let ghost before = issues_view(issues@);
        if workflow.recovery_config.enable_retry && workflow.recovery_config.retry_delay_ms == Some(0u64) {
            let issue = make_issue(
                "zero_retry_delay",
                owned("Retry delay is zero milliseconds"),
                owned("Set a positive retry delay to avoid busy spinning"),
                context_for(&workflow.id),
            );
            proof {
                lemma_issues_push(issues@, issue);
            }
            issues.push(issue);
        }
        proof {
            assert(issues_view(issues@) =~= retry_config_issues(*workflow));
        }
        Ok(issues)
    }
}

} // verus!
