//! Properties that hold across the workflow rules and the validator.
use vstd::prelude::*;
use crate::ecc::workflow::graph::{
    acyclic_from, finite_within, ids_unique, is_step_id, leads_to_end, leads_within, reachable, reached, resolvable,
    resolved, spec_has_cycle, spec_has_deadlock, succ,
};
use crate::ecc::workflow::report::IssueView;
use crate::ecc::workflow::rules::deadlock::deadlock_issues;
use crate::ecc::workflow::rules::dependency_cycle::dependency_cycle_report;
use crate::ecc::workflow::rules::duplicate_step::duplicate_step_issues;
use crate::ecc::workflow::rules::end_state::end_state_issues;
use crate::ecc::workflow::rules::orphan_node::orphan_issue;
use crate::ecc::workflow::rules::reachability::unreachable_issue;
use crate::ecc::workflow::rules::unique_step_id::unique_step_id_issues;
use crate::ecc::workflow::rules::workflow_not_empty::workflow_not_empty_issues;
use crate::ecc::workflow::rules::{default_rules, repeated_ids, wf_issue, WorkflowRule};
use crate::ecc::workflow::types::{first_step_index, ids_of, lemma_first_step_index, step_deps, Workflow, WorkflowStep};
use crate::ecc::workflow::validator::{rule_outcome, validated};
use crate::text::str_views;

verus! {

/// A step identifier that a topological order can place has no dependency cycle
/// ahead of it.
proof fn lemma_resolved_finite(steps: Seq<WorkflowStep>, x: Seq<char>, k: nat)
    requires
        resolved(steps, x, k),
    ensures
        finite_within(steps, x, k),
    decreases k,
{
    if resolved(steps, x, (k - 1) as nat) {
        lemma_resolved_finite(steps, x, (k - 1) as nat);
    } else {
        lemma_first_step_index(steps, x);
        let f = first_step_index(steps, x);
        assert forall|m: int| 0 <= m < succ(steps, x).len() implies finite_within(
            steps,
            #[trigger] succ(steps, x)[m],
            (k - 1) as nat,
        ) by {
            assert(steps[f].id@ == x);
            assert(step_deps(steps[f])[m] == succ(steps, x)[m]);
            lemma_resolved_finite(steps, succ(steps, x)[m], (k - 1) as nat);
        }
    }
}

/// Whenever some step can reach a dependency cycle, the workflow can deadlock:
/// the dependency-cycle rule never fires without the deadlock rule firing too.
pub proof fn lemma_cycle_implies_deadlock(w: Workflow)
    requires
        spec_has_cycle(w.steps@),
    ensures
        spec_has_deadlock(w.steps@),
        deadlock_issues(w).len() == 1,
{
    let steps = w.steps@;
    let i = choose|i: int| 0 <= i < steps.len() && !acyclic_from(steps, #[trigger] steps[i].id@);
    if !spec_has_deadlock(steps) {
        assert(resolvable(steps, steps[i].id@));
        let k = choose|k: nat| resolved(steps, steps[i].id@, k);
        lemma_resolved_finite(steps, steps[i].id@, k);
    }
}

/// Every dependency of every step names some step.
pub open spec fn deps_exist(steps: Seq<WorkflowStep>) -> bool {
    forall|i: int, m: int|
        0 <= i < steps.len() && 0 <= m < step_deps(steps[i]).len() ==> is_step_id(steps, #[trigger] step_deps(steps[i])[m])
}

/// With unique identifiers and existing dependencies, a step identifier from
/// which every dependency path ends within `k` nodes is placed within `k` rounds.
proof fn lemma_finite_resolved(steps: Seq<WorkflowStep>, x: Seq<char>, k: nat)
    requires
        ids_unique(steps),
        deps_exist(steps),
        is_step_id(steps, x),
        finite_within(steps, x, k),
    ensures
        resolved(steps, x, k),
    decreases k,
{
    if finite_within(steps, x, (k - 1) as nat) {
        lemma_finite_resolved(steps, x, (k - 1) as nat);
    } else {
        lemma_first_step_index(steps, x);
        let f = first_step_index(steps, x);
        assert(steps[f].id@ == x);
        assert forall|j: int, m: int|
            0 <= j < steps.len() && steps[j].id@ == x && 0 <= m < step_deps(steps[j]).len()
                implies resolved(steps, #[trigger] step_deps(steps[j])[m], (k - 1) as nat) by {
            assert(ids_of(steps)[j] == ids_of(steps)[f]);
            assert(j == f);
            assert(succ(steps, x)[m] == step_deps(steps[j])[m]);
            assert(is_step_id(steps, step_deps(steps[j])[m]));
            lemma_finite_resolved(steps, step_deps(steps[j])[m], (k - 1) as nat);
        }
    }
}

/// When step identifiers are pairwise different and every dependency names a
/// step, a deadlock comes only from a dependency cycle: the deadlock rule never
/// fires without the dependency-cycle rule firing too.
pub proof fn lemma_deadlock_implies_cycle(w: Workflow)
    requires
        ids_unique(w.steps@),
        deps_exist(w.steps@),
        spec_has_deadlock(w.steps@),
    ensures
        spec_has_cycle(w.steps@),
{
    let steps = w.steps@;
    if !spec_has_cycle(steps) {
        assert forall|i: int| 0 <= i < steps.len() implies resolvable(steps, #[trigger] steps[i].id@) by {
            assert(acyclic_from(steps, steps[i].id@));
            let k = choose|k: nat| finite_within(steps, steps[i].id@, k);
            assert(ids_of(steps)[i] == steps[i].id@);
            lemma_finite_resolved(steps, steps[i].id@, k);
        }
    }
}

proof fn lemma_repeated_none(steps: Seq<WorkflowStep>)
    ensures
        (repeated_ids(steps).len() == 0) == ids_of(steps).no_duplicates(),
    decreases steps.len(),
{
    if steps.len() > 0 {
        let pre = steps.drop_last();
        lemma_repeated_none(pre);
        let ids = ids_of(steps);
        assert(ids.drop_last() =~= ids_of(pre));
        assert(ids.last() == steps.last().id@);
        if ids.no_duplicates() {
            assert(ids_of(pre).no_duplicates()) by {
                assert forall|a: int, b: int| 0 <= a < ids_of(pre).len() && 0 <= b < ids_of(pre).len() && a != b implies
                    ids_of(pre)[a] != ids_of(pre)[b] by {
                    assert(ids[a] == ids_of(pre)[a] && ids[b] == ids_of(pre)[b]);
                }
            }
            if ids_of(pre).contains(steps.last().id@) {
                let a = choose|a: int| 0 <= a < ids_of(pre).len() && ids_of(pre)[a] == steps.last().id@;
                assert(ids[a] == ids[ids.len() - 1]);
            }
        } else {
            let (a, b) = choose|a: int, b: int| 0 <= a < ids.len() && 0 <= b < ids.len() && a != b && ids[a] == ids[b];
            if a == ids.len() - 1 {
                assert(ids_of(pre)[b] == ids[b]);
            } else if b == ids.len() - 1 {
                assert(ids_of(pre)[a] == ids[a]);
            } else {
                assert(ids_of(pre)[a] == ids[a] && ids_of(pre)[b] == ids[b]);
            }
        }
    }
}

/// The unique-identifier rule and the duplicate-step rule report the same steps,
/// and they report nothing exactly when the step identifiers are pairwise different.
pub proof fn lemma_duplicate_rules_agree(w: Workflow)
    ensures
        unique_step_id_issues(w).len() == duplicate_step_issues(w).len(),
        (unique_step_id_issues(w).len() == 0) == ids_unique(w.steps@),
{
    lemma_repeated_none(w.steps@);
}

/// The start step is never reported as unreachable from itself.
pub proof fn lemma_start_reachable(w: Workflow, start: Seq<char>, st: WorkflowStep)
    requires
        st.id@ == start,
    ensures
        reachable(w.steps@, start, st.id@),
        unreachable_issue(w, start, st).len() == 0,
{
    assert(reached(w.steps@, start, st.id@, 0));
}

/// An end step is never reported as lacking a path to an end step.
pub proof fn lemma_end_not_orphan(w: Workflow, st: WorkflowStep)
    requires
        str_views(w.end_step_ids@).contains(st.id@),
    ensures
        leads_to_end(w.steps@, str_views(w.end_step_ids@), st.id@),
        orphan_issue(w, st).len() == 0,
{
    assert(leads_within(w.steps@, str_views(w.end_step_ids@), st.id@, 0));
}

/// What a validator reports holds everything that an applying rule with a fixed
/// outcome reports.
pub proof fn lemma_validated_contains(rules: Seq<WorkflowRule>, w: Workflow, s: Seq<IssueView>, j: int, x: IssueView)
    requires
        validated(rules, w, s),
        0 <= j < rules.len(),
        rules[j].spec_applies(w),
        forall|t: Seq<IssueView>| rules[j].spec_reports(w, t) ==> t.contains(x),
    ensures
        s.contains(x),
    decreases rules.len(),
{
    let k = choose|k: int|
        0 <= k <= s.len() && validated(rules.drop_last(), w, #[trigger] s.subrange(0, k)) && rule_outcome(
            rules.last(),
            w,
            s.subrange(k, s.len() as int),
        );
    if j == rules.len() - 1 {
        let t = s.subrange(k, s.len() as int);
        assert(t.contains(x));
        let a = choose|a: int| 0 <= a < t.len() && t[a] == x;
        assert(s[k + a] == x);
    } else {
        assert(rules.drop_last()[j] == rules[j]);
        lemma_validated_contains(rules.drop_last(), w, s.subrange(0, k), j, x);
        let a = choose|a: int| 0 <= a < k && s.subrange(0, k)[a] == x;
        assert(s[a] == x);
    }
}

/// With the standard rules, a workflow without steps is reported as empty, and
/// one without end steps is reported as having none.
pub proof fn lemma_default_rules_report_empty(w: Workflow, s: Seq<IssueView>)
    requires
        validated(default_rules(), w, s),
    ensures
        w.steps@.len() == 0 ==> s.contains(
            wf_issue(w, "workflow_empty"@, "Workflow is empty"@, "Add at least one step to the workflow"@),
        ),
        w.end_step_ids@.len() == 0 ==> s.contains(
            wf_issue(w, "no_end_steps"@, "Workflow has no end steps defined"@, "Define at least one end step for the workflow"@),
        ),
{
    let rules = default_rules();
    if w.steps@.len() == 0 {
        let x = wf_issue(w, "workflow_empty"@, "Workflow is empty"@, "Add at least one step to the workflow"@);
        assert(workflow_not_empty_issues(w)[0] == x);
        lemma_validated_contains(rules, w, s, 1, x);
    }
    if w.end_step_ids@.len() == 0 {
        let x = wf_issue(w, "no_end_steps"@, "Workflow has no end steps defined"@, "Define at least one end step for the workflow"@);
        assert(end_state_issues(w)[0] == x);
        lemma_validated_contains(rules, w, s, 8, x);
    }
}

/// The dependency-cycle rule reports nothing exactly when no step can reach a
/// dependency cycle.
pub proof fn lemma_cycle_rule_silent_iff_acyclic(w: Workflow, s: Seq<IssueView>)
    requires
        dependency_cycle_report(w, s),
    ensures
        (s.len() == 0) == !spec_has_cycle(w.steps@),
{
}

} // verus!
