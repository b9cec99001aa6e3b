//! Rule: the dependencies form no cycle.
use vstd::prelude::*;
use crate::ecc::workflow::errors::WorkflowEccResult;
use crate::ecc::workflow::graph::{find_cycles, found_cycles, has_cycle, is_cycle, spec_has_cycle};
use crate::ecc::workflow::report::{context_for, issues_view, make_issue, EccIssue, IssueView};
use crate::text::{join2};
use crate::ecc::workflow::rules::{lemma_issues_push, wf_issue};
use crate::ecc::workflow::types::{Workflow, WorkflowStep};
use crate::text::{owned, push_str, str_views};

verus! {

/// Checks that no step can reach a dependency cycle, and names the cycles found.
#[derive(Clone, Copy, Debug, PartialEq, Eq)]
pub struct DependencyCycleRule;

/// The names of a cycle joined by ` -> `.
pub open spec fn join_arrow(c: Seq<Seq<char>>) -> Seq<char>
    decreases c.len(),
{
    if c.len() == 0 {
        Seq::empty()
    } else if c.len() == 1 {
        c[0]
    } else {
        join_arrow(c.drop_last()) + " -> "@ + c.last()
    }
}

/// The issue naming cycle `c` of `w`.
pub open spec fn cycle_issue(w: Workflow, c: Seq<Seq<char>>) -> IssueView {
    wf_issue(w, "dependency_cycle"@, "Dependency cycle detected: "@ + join_arrow(c), "Remove or modify dependencies to break the cycle"@)
}

/// `cs` are dependency cycles, at most one per step.
pub open spec fn cycles_found(steps: Seq<WorkflowStep>, cs: Seq<Seq<Seq<char>>>) -> bool {
    &&& cs.len() <= steps.len()
    &&& forall|i: int| 0 <= i < cs.len() ==> is_cycle(steps, #[trigger] cs[i])
}

/// What [`DependencyCycleRule`] reports for `w`: nothing when no step reaches a
/// dependency cycle; otherwise one issue for each cycle that the search started
/// at each step finds ([`found_cycles`]), in step order.  Those cycles are
/// genuine, at most one per step, and there is at least one.
pub open spec fn dependency_cycle_report(w: Workflow, s: Seq<IssueView>) -> bool {
    if spec_has_cycle(w.steps@) {
        let cs = found_cycles(w.steps@, w.steps@.len() as int);
        &&& s == cs.map_values(|c: Seq<Seq<char>>| cycle_issue(w, c))
        &&& cycles_found(w.steps@, cs)
        &&& cs.len() > 0
    } else {
        s.len() == 0
    }
}

/// The names of `c` joined by ` -> `.
pub fn join_cycle(c: &Vec<String>) -> (r: String)
    ensures
        r@ == join_arrow(str_views(c@)),
{
    let ghost v = str_views(c@);
    let mut r = String::new();
    let n = c.len();
    let mut k: usize = 0;
    while k < n
        invariant
            k <= n,
            n == c@.len(),
            v == str_views(c@),
            r@ == join_arrow(v.subrange(0, k as int)),
        decreases n - k,
    {
        let ghost r0 = r@;
        if k > 0 {
            push_str(&mut r, " -> ");
        }
        push_str(&mut r, c[k].as_str());
        proof {
            let p1 = v.subrange(0, k + 1);
            assert(p1.drop_last() =~= v.subrange(0, k as int));
            assert(p1.last() == c@[k as int]@);
            if k == 0 {
                assert(r0 =~= Seq::<char>::empty());
                assert(r@ =~= p1[0]);
            }
        }
        k = k + 1;
    }
    proof {
        assert(v.subrange(0, n as int) =~= v);
    }
    r
}

impl DependencyCycleRule {
    /// The rule's identifier.
    pub fn id(&self) -> (r: &'static str)
        ensures
            r@ == "dependency_cycle_rule"@,
    {
        "dependency_cycle_rule"
    }

    /// What the rule checks.
    pub fn description(&self) -> (r: &'static str)
        ensures
            r@ == "Workflow must not contain dependency cycles"@,
    {
        "Workflow must not contain dependency cycles"
    }

    /// The rule applies to workflows with steps.
    pub fn applies_to(&self, workflow: &Workflow) -> (b: bool)
        ensures
            b == (workflow.steps@.len() > 0),
    {
        !workflow.is_empty()
    }

    /// The issues found in `workflow`.
    pub fn evaluate(&self, workflow: &Workflow) -> (r: WorkflowEccResult<Vec<EccIssue>>)
        ensures
            r matches Ok(v) && dependency_cycle_report(*workflow, issues_view(v@)),
    {
        let mut issues: Vec<EccIssue> = Vec::new();
        if has_cycle(&workflow.steps) {
            let cycles = find_cycles(&workflow.steps);
            let ghost cs = cycles@.map_values(|c: Vec<String>| str_views(c@));
            let ghost g = |c: Seq<Seq<char>>| cycle_issue(*workflow, c);
            let n = cycles.len();
            let mut i: usize = 0;
            while i < n
                invariant
                    i <= n,
                    n == cycles@.len(),
                    cs == cycles@.map_values(|c: Vec<String>| str_views(c@)),
                    g == (|c: Seq<Seq<char>>| cycle_issue(*workflow, c)),
                    issues_view(issues@) == cs.subrange(0, i as int).map_values(g),
                decreases n - i,
            {
                let issue = make_issue(
                    "dependency_cycle",
                    join2("Dependency cycle detected: ", join_cycle(&cycles[i]).as_str()),
                    owned("Remove or modify dependencies to break the cycle"),
                    context_for(&workflow.id),
                );
                proof {
                    lemma_issues_push(issues@, issue);
                }
                issues.push(issue);
                proof {
                    assert(cs.subrange(0, i + 1) =~= cs.subrange(0, i as int).push(cs[i as int]));
                    assert(issues_view(issues@) =~= cs.subrange(0, i + 1).map_values(g));
                }
                i = i + 1;
            }
            proof {
                assert(cs.subrange(0, n as int) =~= cs);
                assert(cycles_found(workflow.steps@, cs));
            }
        }
        Ok(issues)
    }
}

} // verus!
