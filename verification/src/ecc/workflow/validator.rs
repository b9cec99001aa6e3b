//! The workflow validator: runs a list of rules and collects their issues.
use vstd::prelude::*;
use crate::ecc::workflow::errors::WorkflowEccResult;
use crate::ecc::workflow::report::{issues_view, IssueView, ValidationReport};
use crate::ecc::workflow::rules::{default_rules, get_all_rules, WorkflowRule};
use crate::ecc::workflow::types::Workflow;
use crate::time::{elapsed_since, instant_now, utc_now};

verus! {

/// Runs rules over workflows.
pub struct WorkflowValidator {
    /// The rules, in the order they run.
    pub rules: Vec<WorkflowRule>,
}

/// What rule `r` contributes for `w`: its issues when it applies, else nothing.
pub open spec fn rule_outcome(r: WorkflowRule, w: Workflow, s: Seq<IssueView>) -> bool {
    if r.spec_applies(w) {
        r.spec_reports(w, s)
    } else {
        s.len() == 0
    }
}

/// `s` is what running `rules` in order on `w` reports: the outcomes of the
/// rules, concatenated in rule order.
pub open spec fn validated(rules: Seq<WorkflowRule>, w: Workflow, s: Seq<IssueView>) -> bool
    decreases rules.len(),
{
    if rules.len() == 0 {
        s.len() == 0
    } else {
        exists|k: int|
            0 <= k <= s.len() && validated(rules.drop_last(), w, #[trigger] s.subrange(0, k)) && rule_outcome(
                rules.last(),
                w,
                s.subrange(k, s.len() as int),
            )
    }
}

/// Running one more rule appends its outcome.
proof fn lemma_validated_step(rules: Seq<WorkflowRule>, w: Workflow, s: Seq<IssueView>, k: int)
    requires
        rules.len() > 0,
        0 <= k <= s.len(),
        validated(rules.drop_last(), w, s.subrange(0, k)),
        rule_outcome(rules.last(), w, s.subrange(k, s.len() as int)),
    ensures
        validated(rules, w, s),
{
}

/// Every rule of `rules` can be evaluated on `w`.
pub open spec fn rules_ready(rules: Seq<WorkflowRule>, w: Workflow) -> bool {
    forall|i: int| 0 <= i < rules.len() ==> (#[trigger] rules[i]).spec_ready(w)
}

impl Clone for WorkflowValidator {
    /// A validator with the standard rules (whatever rules `self` has).
    fn clone(&self) -> (r: Self)
        ensures
            r.rules@ == default_rules(),
    {
        WorkflowValidator { rules: get_all_rules() }
    }
}

impl WorkflowValidator {
    /// A validator with the standard rules.
    pub fn with_default_rules() -> (r: Self)
        ensures
            r.rules@ == default_rules(),
    {
        WorkflowValidator { rules: get_all_rules() }
    }

    /// A validator with the given rules.
    pub fn new(rules: Vec<WorkflowRule>) -> (r: Self)
        ensures
            r.rules == rules,
    {
        WorkflowValidator { rules }
    }

    /// The validator with `rule` run last.
    pub fn with_rule(self, rule: WorkflowRule) -> (r: Self)
        ensures
            r.rules@ == self.rules@.push(rule),
    {
        let mut v = self;
        v.rules.push(rule);
        v
    }

    /// Runs every rule that applies to `workflow`, in order, and reports all their
    /// issues with the time taken.
    pub fn validate(&self, workflow: &Workflow) -> (r: WorkflowEccResult<ValidationReport>)
        requires
            rules_ready(self.rules@, *workflow),
        ensures
            r matches Ok(rep) && validated(self.rules@, *workflow, issues_view(rep.issues@)),
    {
        let start = instant_now();
        let mut issues: Vec<crate::ecc::workflow::report::EccIssue> = Vec::new();
        let n = self.rules.len();
        let mut i: usize = 0;
        proof {
            assert(self.rules@.subrange(0, 0).len() == 0);
        }
        while i < n
            invariant
                i <= n,
                n == self.rules@.len(),
                rules_ready(self.rules@, *workflow),
                validated(self.rules@.subrange(0, i as int), *workflow, issues_view(issues@)),
            decreases n - i,
        {
            let rule = &self.rules[i];
            let ghost before = issues@;
            let ghost rules1 = self.rules@.subrange(0, i + 1);
            proof {
                assert(rules1.drop_last() =~= self.rules@.subrange(0, i as int));
                assert(rules1.last() == self.rules@[i as int]);
                assert(self.rules@[i as int].spec_ready(*workflow));
            }
            if rule.applies_to(workflow) {
                match rule.evaluate(workflow) {
                    Ok(mut found) => {
                        let ghost added = found@;
                        issues.append(&mut found);
                        proof {
                            let s = issues_view(issues@);
                            let k = before.len() as int;
                            assert(issues@ =~= before + added);
                            assert(s.subrange(0, k) =~= issues_view(before));
                            assert(s.subrange(k, s.len() as int) =~= issues_view(added));
                            assert(validated(rules1.drop_last(), *workflow, s.subrange(0, k)));
                            assert(rule_outcome(rules1.last(), *workflow, s.subrange(k, s.len() as int)));
                            lemma_validated_step(rules1, *workflow, s, k);
                        }
                    },
                    Err(e) => {
                        return Err(e);
                    },
                }
            } else {
                proof {
                    let s = issues_view(issues@);
                    let k = before.len() as int;
                    assert(s.subrange(0, k) =~= s);
                    assert(s.subrange(k, s.len() as int) =~= Seq::<IssueView>::empty());
                    assert(validated(rules1.drop_last(), *workflow, s.subrange(0, k)));
                    assert(rule_outcome(rules1.last(), *workflow, s.subrange(k, s.len() as int)));
                    lemma_validated_step(rules1, *workflow, s, k);
                }
            }
            i = i + 1;
        }
        proof {
            assert(self.rules@.subrange(0, n as int) =~= self.rules@);
        }
        let duration = elapsed_since(&start);
        Ok(ValidationReport::new(utc_now(), duration, issues))
    }

    /// The identifiers of the rules, in order.
    pub fn rule_ids(&self) -> (r: Vec<&'static str>)
        ensures
            r@.len() == self.rules@.len(),
            forall|i: int| 0 <= i < r@.len() ==> (#[trigger] r@[i])@ == self.rules@[i].spec_id(),
    {
        let mut r: Vec<&'static str> = Vec::new();
        let n = self.rules.len();
        let mut i: usize = 0;
        while i < n
            invariant
                i <= n,
                n == self.rules@.len(),
                r@.len() == i,
                forall|t: int| 0 <= t < i ==> (#[trigger] r@[t])@ == self.rules@[t].spec_id(),
            decreases n - i,
        {
            r.push(self.rules[i].id());
            i = i + 1;
        }
        r
    }
}

} // verus!
