//! Dependency-graph analyses of workflows.
//!
//! Steps are nodes named by their identifiers; a step depends on the steps named in
//! its `dependencies`.  Each analysis is a least fixed point, specified by levels:
//! a property holds of a node when it holds at some finite level `k`.  The
//! executable versions iterate over the steps until nothing changes.
use vstd::prelude::*;
use crate::ecc::workflow::types::{
    first_step_index, ids_of, lemma_first_step_index, step_deps, WorkflowStep,
};

verus! {

/// Number of `true` entries.
pub open spec fn count_true(s: Seq<bool>) -> nat
    decreases s.len(),
{
    if s.len() == 0 {
        0
    } else {
        count_true(s.drop_last()) + if s.last() {
            1nat
        } else {
            0nat
        }
    }
}

/// Setting entries to `true` never lowers the count, and raising one raises it.
pub proof fn lemma_count_grows(a: Seq<bool>, b: Seq<bool>)
    requires
        a.len() == b.len(),
        forall|i: int| 0 <= i < a.len() && a[i] ==> b[i],
    ensures
        count_true(a) <= count_true(b) <= b.len(),
        (exists|i: int| 0 <= i < a.len() && b[i] && !a[i]) ==> count_true(a) < count_true(b),
    decreases a.len(),
{
    if a.len() > 0 {
        lemma_count_grows(a.drop_last(), b.drop_last());
        if exists|i: int| 0 <= i < a.len() && b[i] && !a[i] {
            let i = choose|i: int| 0 <= i < a.len() && b[i] && !a[i];
            if i < a.len() - 1 {
                assert(b.drop_last()[i] && !a.drop_last()[i]);
            }
        }
    }
}

/// Whether `x` is the identifier of some step.
pub open spec fn is_step_id(steps: Seq<WorkflowStep>, x: Seq<char>) -> bool {
    ids_of(steps).contains(x)
}

/// Whether `x` is the identifier of a step whose flag is set.
pub open spec fn flagged(steps: Seq<WorkflowStep>, flags: Seq<bool>, x: Seq<char>) -> bool {
    exists|j: int| 0 <= j < steps.len() && #[trigger] steps[j].id@ == x && flags[j]
}

/// Whether some step has identifier `x` and a set flag.
pub fn find_flagged(steps: &Vec<WorkflowStep>, flags: &Vec<bool>, x: &String) -> (b: bool)
    requires
        flags@.len() == steps@.len(),
    ensures
        b == flagged(steps@, flags@, x@),
{
    let n = steps.len();
    let mut j: usize = 0;
    while j < n
        invariant
            j <= n,
            n == steps@.len(),
            flags@.len() == n,
            forall|t: int| 0 <= t < j ==> !(steps@[t].id@ == x@ && flags@[t]),
        decreases n - j,
    {
        if flags[j] && steps[j].id == *x {
            return true;
        }
        j = j + 1;
    }
    false
}

/// Whether some step has identifier `x`.
pub fn has_step_id(steps: &Vec<WorkflowStep>, x: &String) -> (b: bool)
    ensures
        b == is_step_id(steps@, x@),
{
    let n = steps.len();
    let mut j: usize = 0;
    while j < n
        invariant
            j <= n,
            n == steps@.len(),
            forall|t: int| 0 <= t < j ==> ids_of(steps@)[t] != x@,
        decreases n - j,
    {
        if steps[j].id == *x {
            assert(ids_of(steps@)[j as int] == x@);
            return true;
        }
        j = j + 1;
    }
    false
}

// ---------------------------------------------------------------------------
// Dependency resolution (the topological order of Kahn's algorithm)
// ---------------------------------------------------------------------------

/// `x` is resolved within `k` rounds: it is a step identifier and every dependency
/// of every step named `x` was resolved within `k - 1` rounds.
pub open spec fn resolved(steps: Seq<WorkflowStep>, x: Seq<char>, k: nat) -> bool
    decreases k,
{
    if k == 0 {
        false
    } else {
        resolved(steps, x, (k - 1) as nat) || (is_step_id(steps, x) && forall|j: int, m: int|
            0 <= j < steps.len() && steps[j].id@ == x && 0 <= m < step_deps(steps[j]).len()
                ==> resolved(steps, #[trigger] step_deps(steps[j])[m], (k - 1) as nat))
    }
}

/// `x` can be placed in a topological order of the dependency graph.
pub open spec fn resolvable(steps: Seq<WorkflowStep>, x: Seq<char>) -> bool {
    exists|k: nat| resolved(steps, x, k)
}

/// Whether every dependency of every step named `x` is flagged.
pub open spec fn deps_flagged(steps: Seq<WorkflowStep>, flags: Seq<bool>, x: Seq<char>) -> bool {
    forall|j: int, m: int|
        0 <= j < steps.len() && steps[j].id@ == x && 0 <= m < step_deps(steps[j]).len()
            ==> flagged(steps, flags, #[trigger] step_deps(steps[j])[m])
}

fn all_deps_flagged(steps: &Vec<WorkflowStep>, flags: &Vec<bool>, x: &String) -> (b: bool)
    requires
        flags@.len() == steps@.len(),
    ensures
        b == deps_flagged(steps@, flags@, x@),
{
    let n = steps.len();
    let mut j: usize = 0;
    while j < n
        invariant
            j <= n,
            n == steps@.len(),
            flags@.len() == n,
            forall|t: int, m: int|
                0 <= t < j && steps@[t].id@ == x@ && 0 <= m < step_deps(steps@[t]).len()
                    ==> flagged(steps@, flags@, #[trigger] step_deps(steps@[t])[m]),
        decreases n - j,
    {
        if steps[j].id == *x {
            let deps = &steps[j].dependencies;
            let d = deps.len();
            let mut m: usize = 0;
            while m < d
                invariant
                    m <= d,
                    j < n,
                    n == steps@.len(),
                    flags@.len() == n,
                    deps == &steps@[j as int].dependencies,
                    d == deps@.len(),
                    steps@[j as int].id@ == x@,
                    forall|t: int| 0 <= t < m ==> flagged(steps@, flags@, #[trigger] step_deps(steps@[j as int])[t]),
                decreases d - m,
            {
                if !find_flagged(steps, flags, &deps[m]) {
                    assert(step_deps(steps@[j as int])[m as int] == deps@[m as int]@);
                    assert(!flagged(steps@, flags@, step_deps(steps@[j as int])[m as int]));
                    return false;
                }
                assert(step_deps(steps@[j as int])[m as int] == deps@[m as int]@);
                m = m + 1;
            }
        }
        j = j + 1;
    }
    true
}

/// Monotonicity of levels.
proof fn lemma_resolved_mono(steps: Seq<WorkflowStep>, x: Seq<char>, k: nat, k2: nat)
    requires
        resolved(steps, x, k),
        k <= k2,
    ensures
        resolved(steps, x, k2),
    decreases k2 - k,
{
    if k < k2 {
        lemma_resolved_mono(steps, x, k, (k2 - 1) as nat);
    }
}

/// When no unflagged step has all its dependencies flagged, every resolvable
/// identifier is flagged.
proof fn lemma_resolved_flagged(steps: Seq<WorkflowStep>, flags: Seq<bool>, x: Seq<char>, k: nat)
    requires
        flags.len() == steps.len(),
        forall|i: int| 0 <= i < steps.len() && !flags[i] ==> !deps_flagged(steps, flags, #[trigger] steps[i].id@),
        resolved(steps, x, k),
    ensures
        flagged(steps, flags, x),
    decreases k,
{
    if resolved(steps, x, (k - 1) as nat) {
        lemma_resolved_flagged(steps, flags, x, (k - 1) as nat);
    } else {
        let i = choose|i: int| 0 <= i < ids_of(steps).len() && ids_of(steps)[i] == x;
        assert(steps[i].id@ == x);
        assert forall|j: int, m: int|
            0 <= j < steps.len() && steps[j].id@ == x && 0 <= m < step_deps(steps[j]).len()
                implies flagged(steps, flags, #[trigger] step_deps(steps[j])[m]) by {
            lemma_resolved_flagged(steps, flags, step_deps(steps[j])[m], (k - 1) as nat);
        }
        assert(deps_flagged(steps, flags, x));
        assert(flags[i]);
    }
}

/// Flags every step whose identifier is resolvable.
pub fn resolvable_flags(steps: &Vec<WorkflowStep>) -> (flags: Vec<bool>)
    ensures
        flags@.len() == steps@.len(),
        forall|x: Seq<char>| #[trigger] flagged(steps@, flags@, x) <==> resolvable(steps@, x),
{
    let n = steps.len();
    let mut flags: Vec<bool> = Vec::new();
    while flags.len() < n
        invariant
            flags@.len() <= n,
            n == steps@.len(),
            forall|i: int| 0 <= i < flags@.len() ==> !flags@[i],
        decreases n - flags@.len(),
    {
        flags.push(false);
    }
    let ghost mut level: nat = 0;
    loop
        invariant
            flags@.len() == n,
            n == steps@.len(),
            forall|i: int| 0 <= i < n && flags@[i] ==> resolved(steps@, #[trigger] steps@[i].id@, level),
        decreases n - count_true(flags@),
    {
        let mut next: Vec<bool> = Vec::new();
        let mut changed = false;
        let mut i: usize = 0;
        while i < n
            invariant
                i <= n,
                n == steps@.len(),
                flags@.len() == n,
                next@.len() == i,
                forall|t: int| 0 <= t < i ==> (#[trigger] next@[t] == (flags@[t] || deps_flagged(steps@, flags@, steps@[t].id@))),
                changed == exists|t: int| 0 <= t < i && next@[t] && !flags@[t],
                forall|t: int| 0 <= t < n && flags@[t] ==> resolved(steps@, #[trigger] steps@[t].id@, level),
                forall|t: int| 0 <= t < i && next@[t] ==> resolved(steps@, #[trigger] steps@[t].id@, level + 1),
            decreases n - i,
        {
            let b = flags[i] || all_deps_flagged(steps, &flags, &steps[i].id);
            if b && !flags[i] {
                changed = true;
            }
            proof {
                let x = steps@[i as int].id@;
                if flags@[i as int] {
                    lemma_resolved_mono(steps@, x, level, level + 1);
                } else if b {
                    assert(ids_of(steps@)[i as int] == x);
                    assert forall|j: int, m: int|
                        0 <= j < steps@.len() && steps@[j].id@ == x && 0 <= m < step_deps(steps@[j]).len()
                            implies resolved(steps@, #[trigger] step_deps(steps@[j])[m], level) by {
                        let d = step_deps(steps@[j])[m];
                        assert(flagged(steps@, flags@, d));
                        let w = choose|w: int| 0 <= w < steps@.len() && #[trigger] steps@[w].id@ == d && flags@[w];
                        assert(resolved(steps@, steps@[w].id@, level));
                    }
                    assert(resolved(steps@, x, level + 1));
                }
            }
            next.push(b);
            i = i + 1;
        }
        if !changed {
            proof {
                assert forall|x: Seq<char>| #[trigger] flagged(steps@, flags@, x) <==> resolvable(steps@, x) by {
                    if flagged(steps@, flags@, x) {
                        let w = choose|w: int| 0 <= w < steps@.len() && #[trigger] steps@[w].id@ == x && flags@[w];
                        assert(resolved(steps@, x, level));
                    }
                    if resolvable(steps@, x) {
                        let k = choose|k: nat| resolved(steps@, x, k);
                        assert forall|t: int| 0 <= t < steps@.len() && !flags@[t] implies !deps_flagged(steps@, flags@, #[trigger] steps@[t].id@) by {
                            assert(next@[t] == (flags@[t] || deps_flagged(steps@, flags@, steps@[t].id@)));
                        }
                        lemma_resolved_flagged(steps@, flags@, x, k);
                    }
                }
            }
            return flags;
        }
        proof {
            assert forall|t: int| 0 <= t < n && flags@[t] implies next@[t] by {
                assert(next@[t] == (flags@[t] || deps_flagged(steps@, flags@, steps@[t].id@)));
            }
            lemma_count_grows(flags@, next@);
            level = level + 1;
        }
        flags = next;
    }
}

/// Whether the step identifiers are pairwise different.
pub open spec fn ids_unique(steps: Seq<WorkflowStep>) -> bool {
    ids_of(steps).no_duplicates()
}

/// Whether some identifier occurs twice.
pub fn has_duplicate_ids(steps: &Vec<WorkflowStep>) -> (b: bool)
    ensures
        b == !ids_unique(steps@),
{
    let n = steps.len();
    let mut i: usize = 0;
    while i < n
        invariant
            i <= n,
            n == steps@.len(),
            forall|a: int, c: int| 0 <= a < c < n && a < i ==> ids_of(steps@)[a] != ids_of(steps@)[c],
        decreases n - i,
    {
        let mut j: usize = i + 1;
        while j < n
            invariant
                i < j <= n,
                n == steps@.len(),
                forall|a: int, c: int| 0 <= a < c < n && a < i ==> ids_of(steps@)[a] != ids_of(steps@)[c],
                forall|c: int| i < c < j ==> ids_of(steps@)[i as int] != ids_of(steps@)[c],
            decreases n - j,
        {
            if steps[i].id == steps[j].id {
                assert(ids_of(steps@)[i as int] == ids_of(steps@)[j as int]);
                return true;
            }
            j = j + 1;
        }
        i = i + 1;
    }
    false
}

/// Kahn's algorithm leaves some step unsorted: either two steps share an
/// identifier, or some step cannot be placed in a topological order.
pub open spec fn spec_has_deadlock(steps: Seq<WorkflowStep>) -> bool {
    !(ids_unique(steps) && forall|i: int| 0 <= i < steps.len() ==> resolvable(steps, #[trigger] steps[i].id@))
}

/// Deadlock detection (the number of steps that a topological sort can place is
/// smaller than the number of steps).
pub fn has_deadlock(steps: &Vec<WorkflowStep>) -> (b: bool)
    ensures
        b == spec_has_deadlock(steps@),
{
    if has_duplicate_ids(steps) {
        return true;
    }
    let flags = resolvable_flags(steps);
    let n = steps.len();
    let mut i: usize = 0;
    while i < n
        invariant
            i <= n,
            n == steps@.len(),
            flags@.len() == n,
            ids_unique(steps@),
            forall|x: Seq<char>| #[trigger] flagged(steps@, flags@, x) <==> resolvable(steps@, x),
            forall|t: int| 0 <= t < i ==> resolvable(steps@, #[trigger] steps@[t].id@),
        decreases n - i,
    {
        if !flags[i] {
            proof {
                let x = steps@[i as int].id@;
                if flagged(steps@, flags@, x) {
                    let w = choose|w: int| 0 <= w < steps@.len() && #[trigger] steps@[w].id@ == x && flags@[w];
                    assert(ids_of(steps@)[w] == ids_of(steps@)[i as int]);
                }
                assert(!resolvable(steps@, x));
            }
            return true;
        }
        assert(flagged(steps@, flags@, steps@[i as int].id@));
        i = i + 1;
    }
    false
}


// ---------------------------------------------------------------------------
// Reachability from the start step (breadth-first search along dependents)
// ---------------------------------------------------------------------------

/// `x` is reached from `start` within `k` hops, where a hop goes from a step
/// identifier `c` to the identifier of any step that depends on `c`.
pub open spec fn reached(steps: Seq<WorkflowStep>, start: Seq<char>, x: Seq<char>, k: nat) -> bool
    decreases k,
{
    x == start || (k > 0 && (reached(steps, start, x, (k - 1) as nat) || exists|j: int, m: int|
        0 <= j < steps.len() && steps[j].id@ == x && 0 <= m < step_deps(steps[j]).len()
            && is_step_id(steps, step_deps(steps[j])[m]) && reached(
            steps,
            start,
            #[trigger] step_deps(steps[j])[m],
            (k - 1) as nat,
        )))
}

/// `x` is reachable from `start`.
pub open spec fn reachable(steps: Seq<WorkflowStep>, start: Seq<char>, x: Seq<char>) -> bool {
    exists|k: nat| reached(steps, start, x, k)
}

/// `x` is the start or a flagged identifier.
pub open spec fn flagged_from(steps: Seq<WorkflowStep>, flags: Seq<bool>, start: Seq<char>, x: Seq<char>) -> bool {
    x == start || flagged(steps, flags, x)
}

/// Step `i` depends on a step identifier that is the start or flagged.
pub open spec fn entered(steps: Seq<WorkflowStep>, flags: Seq<bool>, start: Seq<char>, i: int) -> bool {
    exists|m: int|
        0 <= m < step_deps(steps[i]).len() && is_step_id(steps, step_deps(steps[i])[m])
            && #[trigger] flagged_from(steps, flags, start, step_deps(steps[i])[m])
}

fn is_entered(steps: &Vec<WorkflowStep>, flags: &Vec<bool>, start: &String, i: usize) -> (b: bool)
    requires
        flags@.len() == steps@.len(),
        i < steps@.len(),
    ensures
        b == entered(steps@, flags@, start@, i as int),
{
    let deps = &steps[i].dependencies;
    let d = deps.len();
    let mut m: usize = 0;
    while m < d
        invariant
            m <= d,
            i < steps@.len(),
            flags@.len() == steps@.len(),
            deps == &steps@[i as int].dependencies,
            d == deps@.len(),
            forall|t: int| 0 <= t < m ==> !(is_step_id(steps@, step_deps(steps@[i as int])[t])
                && #[trigger] flagged_from(steps@, flags@, start@, step_deps(steps@[i as int])[t])),
        decreases d - m,
    {
        assert(step_deps(steps@[i as int])[m as int] == deps@[m as int]@);
        if has_step_id(steps, &deps[m]) && (deps[m] == *start || find_flagged(steps, flags, &deps[m])) {
            assert(flagged_from(steps@, flags@, start@, step_deps(steps@[i as int])[m as int]));
            return true;
        }
        m = m + 1;
    }
    false
}

proof fn lemma_reached_flagged(steps: Seq<WorkflowStep>, flags: Seq<bool>, start: Seq<char>, x: Seq<char>, k: nat)
    requires
        flags.len() == steps.len(),
        forall|i: int| 0 <= i < steps.len() && !flags[i] ==> !#[trigger] entered(steps, flags, start, i),
        reached(steps, start, x, k),
    ensures
        flagged_from(steps, flags, start, x),
    decreases k,
{
    if x == start {
    } else if reached(steps, start, x, (k - 1) as nat) {
        lemma_reached_flagged(steps, flags, start, x, (k - 1) as nat);
    } else {
        let (j, m) = choose|j: int, m: int|
            0 <= j < steps.len() && steps[j].id@ == x && 0 <= m < step_deps(steps[j]).len()
                && is_step_id(steps, step_deps(steps[j])[m]) && reached(
                steps,
                start,
                #[trigger] step_deps(steps[j])[m],
                (k - 1) as nat,
            );
        lemma_reached_flagged(steps, flags, start, step_deps(steps[j])[m], (k - 1) as nat);
        assert(entered(steps, flags, start, j));
        assert(flags[j]);
    }
}

/// Flags every step whose identifier is reachable from `start`.
pub fn reachable_flags(steps: &Vec<WorkflowStep>, start: &String) -> (flags: Vec<bool>)
    ensures
        flags@.len() == steps@.len(),
        forall|x: Seq<char>| #[trigger] flagged_from(steps@, flags@, start@, x) <==> reachable(steps@, start@, x),
{
    let n = steps.len();
    let mut flags: Vec<bool> = Vec::new();
    while flags.len() < n
        invariant
            flags@.len() <= n,
            n == steps@.len(),
            forall|i: int| 0 <= i < flags@.len() ==> !flags@[i],
        decreases n - flags@.len(),
    {
        flags.push(false);
    }
    let ghost mut level: nat = 0;
    loop
        invariant
            flags@.len() == n,
            n == steps@.len(),
            forall|i: int| 0 <= i < n && flags@[i] ==> reached(steps@, start@, #[trigger] steps@[i].id@, level),
        decreases n - count_true(flags@),
    {
        let mut next: Vec<bool> = Vec::new();
        let mut changed = false;
        let mut i: usize = 0;
        while i < n
            invariant
                i <= n,
                n == steps@.len(),
                flags@.len() == n,
                next@.len() == i,
                forall|t: int| 0 <= t < i ==> (#[trigger] next@[t] == (flags@[t] || entered(steps@, flags@, start@, t))),
                changed == exists|t: int| 0 <= t < i && next@[t] && !flags@[t],
                forall|t: int| 0 <= t < n && flags@[t] ==> reached(steps@, start@, #[trigger] steps@[t].id@, level),
                forall|t: int| 0 <= t < i && next@[t] ==> reached(steps@, start@, #[trigger] steps@[t].id@, level + 1),
            decreases n - i,
        {
            let b = flags[i] || is_entered(steps, &flags, start, i);
            if b && !flags[i] {
                changed = true;
            }
            proof {
                let x = steps@[i as int].id@;
                if flags@[i as int] {
                    assert(reached(steps@, start@, x, level + 1));
                } else if b {
                    let m = choose|m: int|
                        0 <= m < step_deps(steps@[i as int]).len() && is_step_id(steps@, step_deps(steps@[i as int])[m])
                            && #[trigger] flagged_from(steps@, flags@, start@, step_deps(steps@[i as int])[m]);
                    let d = step_deps(steps@[i as int])[m];
                    if d != start@ {
                        let w = choose|w: int| 0 <= w < steps@.len() && #[trigger] steps@[w].id@ == d && flags@[w];
                        assert(reached(steps@, start@, steps@[w].id@, level));
                    }
                    assert(reached(steps@, start@, d, level));
                    assert(reached(steps@, start@, x, level + 1));
                }
            }
            next.push(b);
            i = i + 1;
        }
        if !changed {
            proof {
                assert forall|x: Seq<char>| #[trigger] flagged_from(steps@, flags@, start@, x) <==> reachable(steps@, start@, x) by {
                    if flagged_from(steps@, flags@, start@, x) {
                        if x == start@ {
                            assert(reached(steps@, start@, x, 0));
                        } else {
                            let w = choose|w: int| 0 <= w < steps@.len() && #[trigger] steps@[w].id@ == x && flags@[w];
                            assert(reached(steps@, start@, x, level));
                        }
                    }
                    if reachable(steps@, start@, x) {
                        let k = choose|k: nat| reached(steps@, start@, x, k);
                        assert forall|t: int| 0 <= t < steps@.len() && !flags@[t] implies !#[trigger] entered(steps@, flags@, start@, t) by {
                            assert(next@[t] == (flags@[t] || entered(steps@, flags@, start@, t)));
                        }
                        lemma_reached_flagged(steps@, flags@, start@, x, k);
                    }
                }
            }
            return flags;
        }
        proof {
            assert forall|t: int| 0 <= t < n && flags@[t] implies next@[t] by {
                assert(next@[t] == (flags@[t] || entered(steps@, flags@, start@, t)));
            }
            lemma_count_grows(flags@, next@);
            level = level + 1;
        }
        flags = next;
    }
}

// ---------------------------------------------------------------------------
// Paths to an end step (steps that are not orphans)
// ---------------------------------------------------------------------------

/// `x` leads to an end step within `k` hops: it is an end identifier, or it is a
/// step identifier that some step depends on whose identifier leads to an end.
pub open spec fn leads_within(steps: Seq<WorkflowStep>, ends: Seq<Seq<char>>, x: Seq<char>, k: nat) -> bool
    decreases k,
{
    ends.contains(x) || (k > 0 && (leads_within(steps, ends, x, (k - 1) as nat) || (is_step_id(steps, x)
        && exists|o: int, m: int|
        0 <= o < steps.len() && 0 <= m < step_deps(steps[o]).len() && #[trigger] step_deps(steps[o])[m] == x
            && leads_within(steps, ends, steps[o].id@, (k - 1) as nat))))
}

/// `x` has a path to an end step.
pub open spec fn leads_to_end(steps: Seq<WorkflowStep>, ends: Seq<Seq<char>>, x: Seq<char>) -> bool {
    exists|k: nat| leads_within(steps, ends, x, k)
}

/// `x` is an end identifier or a flagged identifier.
pub open spec fn flagged_end(steps: Seq<WorkflowStep>, flags: Seq<bool>, ends: Seq<Seq<char>>, x: Seq<char>) -> bool {
    ends.contains(x) || flagged(steps, flags, x)
}

/// Some step that depends on `x` is an end or flagged.
pub open spec fn has_leading_dependent(steps: Seq<WorkflowStep>, flags: Seq<bool>, ends: Seq<Seq<char>>, x: Seq<char>) -> bool {
    exists|o: int, m: int|
        0 <= o < steps.len() && 0 <= m < step_deps(steps[o]).len() && #[trigger] step_deps(steps[o])[m] == x
            && flagged_end(steps, flags, ends, steps[o].id@)
}

fn find_leading_dependent(steps: &Vec<WorkflowStep>, flags: &Vec<bool>, ends: &Vec<String>, x: &String) -> (b: bool)
    requires
        flags@.len() == steps@.len(),
    ensures
        b == has_leading_dependent(steps@, flags@, crate::text::str_views(ends@), x@),
{
    let ghost e = crate::text::str_views(ends@);
    let n = steps.len();
    let mut o: usize = 0;
    while o < n
        invariant
            o <= n,
            n == steps@.len(),
            flags@.len() == n,
            e == crate::text::str_views(ends@),
            forall|t: int, m: int|
                0 <= t < o && 0 <= m < step_deps(steps@[t]).len() && #[trigger] step_deps(steps@[t])[m] == x@
                    ==> !flagged_end(steps@, flags@, e, steps@[t].id@),
        decreases n - o,
    {
        if crate::text::contains_str(&steps[o].dependencies, x.as_str()) && (crate::text::contains_str(ends, steps[o].id.as_str()) || find_flagged(steps, flags, &steps[o].id)) {
            let ghost m = choose|m: int| 0 <= m < step_deps(steps@[o as int]).len() && step_deps(steps@[o as int])[m] == x@;
            assert(flagged_end(steps@, flags@, e, steps@[o as int].id@));
            return true;
        }
        proof {
            assert forall|m: int| 0 <= m < step_deps(steps@[o as int]).len() && #[trigger] step_deps(steps@[o as int])[m] == x@
                implies !flagged_end(steps@, flags@, e, steps@[o as int].id@) by {
                assert(step_deps(steps@[o as int]).contains(x@));
            }
        }
        o = o + 1;
    }
    false
}

proof fn lemma_leads_flagged(steps: Seq<WorkflowStep>, flags: Seq<bool>, ends: Seq<Seq<char>>, x: Seq<char>, k: nat)
    requires
        flags.len() == steps.len(),
        forall|i: int| 0 <= i < steps.len() && !flags[i] ==> !has_leading_dependent(steps, flags, ends, #[trigger] steps[i].id@),
        leads_within(steps, ends, x, k),
    ensures
        flagged_end(steps, flags, ends, x),
    decreases k,
{
    if ends.contains(x) {
    } else if leads_within(steps, ends, x, (k - 1) as nat) {
        lemma_leads_flagged(steps, flags, ends, x, (k - 1) as nat);
    } else {
        let (o, m) = choose|o: int, m: int|
            0 <= o < steps.len() && 0 <= m < step_deps(steps[o]).len() && #[trigger] step_deps(steps[o])[m] == x
                && leads_within(steps, ends, steps[o].id@, (k - 1) as nat);
        lemma_leads_flagged(steps, flags, ends, steps[o].id@, (k - 1) as nat);
        assert(has_leading_dependent(steps, flags, ends, x));
        let i = choose|i: int| 0 <= i < ids_of(steps).len() && ids_of(steps)[i] == x;
        assert(steps[i].id@ == x);
        assert(flags[i]);
    }
}

/// Flags every step whose identifier has a path to an end step.
pub fn leads_to_end_flags(steps: &Vec<WorkflowStep>, ends: &Vec<String>) -> (flags: Vec<bool>)
    ensures
        flags@.len() == steps@.len(),
        forall|x: Seq<char>| #[trigger] flagged_end(steps@, flags@, crate::text::str_views(ends@), x)
            <==> leads_to_end(steps@, crate::text::str_views(ends@), x),
{
    let ghost e = crate::text::str_views(ends@);
    let n = steps.len();
    let mut flags: Vec<bool> = Vec::new();
    while flags.len() < n
        invariant
            flags@.len() <= n,
            n == steps@.len(),
            forall|i: int| 0 <= i < flags@.len() ==> !flags@[i],
        decreases n - flags@.len(),
    {
        flags.push(false);
    }
    let ghost mut level: nat = 0;
    loop
        invariant
            flags@.len() == n,
            n == steps@.len(),
            e == crate::text::str_views(ends@),
            forall|i: int| 0 <= i < n && flags@[i] ==> leads_within(steps@, e, #[trigger] steps@[i].id@, level),
        decreases n - count_true(flags@),
    {
        let mut next: Vec<bool> = Vec::new();
        let mut changed = false;
        let mut i: usize = 0;
        while i < n
            invariant
                i <= n,
                n == steps@.len(),
                flags@.len() == n,
                e == crate::text::str_views(ends@),
                next@.len() == i,
                forall|t: int| 0 <= t < i ==> (#[trigger] next@[t] == (flags@[t] || has_leading_dependent(steps@, flags@, e, steps@[t].id@))),
                changed == exists|t: int| 0 <= t < i && next@[t] && !flags@[t],
                forall|t: int| 0 <= t < n && flags@[t] ==> leads_within(steps@, e, #[trigger] steps@[t].id@, level),
                forall|t: int| 0 <= t < i && next@[t] ==> leads_within(steps@, e, #[trigger] steps@[t].id@, level + 1),
            decreases n - i,
        {
            let b = flags[i] || find_leading_dependent(steps, &flags, ends, &steps[i].id);
            if b && !flags[i] {
                changed = true;
            }
            proof {
                let x = steps@[i as int].id@;
                if flags@[i as int] {
                    assert(leads_within(steps@, e, x, level + 1));
                } else if b {
                    let (o, m) = choose|o: int, m: int|
                        0 <= o < steps@.len() && 0 <= m < step_deps(steps@[o]).len() && #[trigger] step_deps(steps@[o])[m] == x
                            && flagged_end(steps@, flags@, e, steps@[o].id@);
                    let y = steps@[o].id@;
                    if !e.contains(y) {
                        let w = choose|w: int| 0 <= w < steps@.len() && #[trigger] steps@[w].id@ == y && flags@[w];
                        assert(leads_within(steps@, e, steps@[w].id@, level));
                    }
                    assert(leads_within(steps@, e, y, level));
                    assert(ids_of(steps@)[i as int] == x);
                    assert(leads_within(steps@, e, x, level + 1));
                }
            }
            next.push(b);
            i = i + 1;
        }
        if !changed {
            proof {
                assert forall|x: Seq<char>| #[trigger] flagged_end(steps@, flags@, e, x) <==> leads_to_end(steps@, e, x) by {
                    if flagged_end(steps@, flags@, e, x) {
                        if e.contains(x) {
                            assert(leads_within(steps@, e, x, 0));
                        } else {
                            let w = choose|w: int| 0 <= w < steps@.len() && #[trigger] steps@[w].id@ == x && flags@[w];
                            assert(leads_within(steps@, e, x, level));
                        }
                    }
                    if leads_to_end(steps@, e, x) {
                        let k = choose|k: nat| leads_within(steps@, e, x, k);
                        assert forall|t: int| 0 <= t < steps@.len() && !flags@[t] implies !has_leading_dependent(steps@, flags@, e, #[trigger] steps@[t].id@) by {
                            assert(next@[t] == (flags@[t] || has_leading_dependent(steps@, flags@, e, steps@[t].id@)));
                        }
                        lemma_leads_flagged(steps@, flags@, e, x, k);
                    }
                }
            }
            return flags;
        }
        proof {
            assert forall|t: int| 0 <= t < n && flags@[t] implies next@[t] by {
                assert(next@[t] == (flags@[t] || has_leading_dependent(steps@, flags@, e, steps@[t].id@)));
            }
            lemma_count_grows(flags@, next@);
            level = level + 1;
        }
        flags = next;
    }
}


// ---------------------------------------------------------------------------
// Dependency cycles (depth-first search through the first step of each name)
// ---------------------------------------------------------------------------

/// The dependencies followed from `x`: those of the first step named `x`, or none
/// when no step has that name.
pub open spec fn succ(steps: Seq<WorkflowStep>, x: Seq<char>) -> Seq<Seq<char>> {
    let f = first_step_index(steps, x);
    if 0 <= f < steps.len() {
        step_deps(steps[f])
    } else {
        Seq::empty()
    }
}

/// Every path of dependencies from `x` ends within `k` nodes.
pub open spec fn finite_within(steps: Seq<WorkflowStep>, x: Seq<char>, k: nat) -> bool
    decreases k,
{
    k > 0 && (finite_within(steps, x, (k - 1) as nat) || forall|m: int|
        0 <= m < succ(steps, x).len() ==> finite_within(steps, #[trigger] succ(steps, x)[m], (k - 1) as nat))
}

/// No dependency cycle can be reached from `x`.
pub open spec fn acyclic_from(steps: Seq<WorkflowStep>, x: Seq<char>) -> bool {
    exists|k: nat| finite_within(steps, x, k)
}

/// `x` is no step identifier, or it is a flagged one.
pub open spec fn flagged_acyclic(steps: Seq<WorkflowStep>, flags: Seq<bool>, x: Seq<char>) -> bool {
    !is_step_id(steps, x) || flagged(steps, flags, x)
}

/// Every dependency followed from `x` is flagged or no step identifier.
pub open spec fn succ_flagged(steps: Seq<WorkflowStep>, flags: Seq<bool>, x: Seq<char>) -> bool {
    forall|m: int| 0 <= m < succ(steps, x).len() ==> flagged_acyclic(steps, flags, #[trigger] succ(steps, x)[m])
}

/// Index of the first step named `x` (or `steps.len()`).
pub fn first_index(steps: &Vec<WorkflowStep>, x: &String) -> (f: usize)
    ensures
        f == first_step_index(steps@, x@),
{
    proof {
        lemma_first_step_index(steps@, x@);
    }
    let n = steps.len();
    let mut j: usize = 0;
    while j < n
        invariant
            j <= n,
            n == steps@.len(),
            forall|t: int| 0 <= t < j ==> steps@[t].id@ != x@,
            0 <= first_step_index(steps@, x@) <= n,
            first_step_index(steps@, x@) < n ==> steps@[first_step_index(steps@, x@)].id@ == x@,
            forall|t: int| 0 <= t < first_step_index(steps@, x@) ==> steps@[t].id@ != x@,
        decreases n - j,
    {
        if steps[j].id == *x {
            return j;
        }
        j = j + 1;
    }
    n
}

fn is_succ_flagged(steps: &Vec<WorkflowStep>, flags: &Vec<bool>, x: &String) -> (b: bool)
    requires
        flags@.len() == steps@.len(),
    ensures
        b == succ_flagged(steps@, flags@, x@),
{
    let f = first_index(steps, x);
    if f >= steps.len() {
        return true;
    }
    let deps = &steps[f].dependencies;
    let d = deps.len();
    let mut m: usize = 0;
    while m < d
        invariant
            m <= d,
            f < steps@.len(),
            f == first_step_index(steps@, x@),
            flags@.len() == steps@.len(),
            deps == &steps@[f as int].dependencies,
            d == deps@.len(),
            forall|t: int| 0 <= t < m ==> flagged_acyclic(steps@, flags@, #[trigger] succ(steps@, x@)[t]),
        decreases d - m,
    {
        assert(succ(steps@, x@)[m as int] == deps@[m as int]@);
        if has_step_id(steps, &deps[m]) && !find_flagged(steps, flags, &deps[m]) {
            return false;
        }
        m = m + 1;
    }
    true
}

proof fn lemma_finite_mono(steps: Seq<WorkflowStep>, x: Seq<char>, k: nat, k2: nat)
    requires
        finite_within(steps, x, k),
        k <= k2,
    ensures
        finite_within(steps, x, k2),
    decreases k2 - k,
{
    if k < k2 {
        lemma_finite_mono(steps, x, k, (k2 - 1) as nat);
    }
}

proof fn lemma_finite_flagged(steps: Seq<WorkflowStep>, flags: Seq<bool>, x: Seq<char>, k: nat)
    requires
        flags.len() == steps.len(),
        forall|i: int| 0 <= i < steps.len() && !flags[i] ==> !succ_flagged(steps, flags, #[trigger] steps[i].id@),
        finite_within(steps, x, k),
    ensures
        flagged_acyclic(steps, flags, x),
    decreases k,
{
    if finite_within(steps, x, (k - 1) as nat) {
        lemma_finite_flagged(steps, flags, x, (k - 1) as nat);
    } else if is_step_id(steps, x) {
        assert forall|m: int| 0 <= m < succ(steps, x).len() implies flagged_acyclic(steps, flags, #[trigger] succ(steps, x)[m]) by {
            lemma_finite_flagged(steps, flags, succ(steps, x)[m], (k - 1) as nat);
        }
        let i = choose|i: int| 0 <= i < ids_of(steps).len() && ids_of(steps)[i] == x;
        assert(steps[i].id@ == x);
        assert(flags[i]);
    }
}

/// Flags every step from which no dependency cycle can be reached.
pub fn acyclic_flags(steps: &Vec<WorkflowStep>) -> (flags: Vec<bool>)
    ensures
        flags@.len() == steps@.len(),
        forall|x: Seq<char>| #[trigger] flagged_acyclic(steps@, flags@, x) <==> acyclic_from(steps@, x),
{
    let n = steps.len();
    let mut flags: Vec<bool> = Vec::new();
    while flags.len() < n
        invariant
            flags@.len() <= n,
            n == steps@.len(),
            forall|i: int| 0 <= i < flags@.len() ==> !flags@[i],
        decreases n - flags@.len(),
    {
        flags.push(false);
    }
    let ghost mut level: nat = 1;
    loop
        invariant
            flags@.len() == n,
            n == steps@.len(),
            level >= 1,
            forall|i: int| 0 <= i < n && flags@[i] ==> finite_within(steps@, #[trigger] steps@[i].id@, level),
        decreases n - count_true(flags@),
    {
        let mut next: Vec<bool> = Vec::new();
        let mut changed = false;
        let mut i: usize = 0;
        while i < n
            invariant
                i <= n,
                n == steps@.len(),
                flags@.len() == n,
                level >= 1,
                next@.len() == i,
                forall|t: int| 0 <= t < i ==> (#[trigger] next@[t] == (flags@[t] || succ_flagged(steps@, flags@, steps@[t].id@))),
                changed == exists|t: int| 0 <= t < i && next@[t] && !flags@[t],
                forall|t: int| 0 <= t < n && flags@[t] ==> finite_within(steps@, #[trigger] steps@[t].id@, level),
                forall|t: int| 0 <= t < i && next@[t] ==> finite_within(steps@, #[trigger] steps@[t].id@, level + 1),
            decreases n - i,
        {
            let b = flags[i] || is_succ_flagged(steps, &flags, &steps[i].id);
            if b && !flags[i] {
                changed = true;
            }
            proof {
                let x = steps@[i as int].id@;
                if flags@[i as int] {
                    lemma_finite_mono(steps@, x, level, level + 1);
                } else if b {
                    assert forall|m: int| 0 <= m < succ(steps@, x).len() implies finite_within(steps@, #[trigger] succ(steps@, x)[m], level) by {
                        let d = succ(steps@, x)[m];
                        if is_step_id(steps@, d) {
                            let w = choose|w: int| 0 <= w < steps@.len() && #[trigger] steps@[w].id@ == d && flags@[w];
                            assert(finite_within(steps@, steps@[w].id@, level));
                        } else {
                            lemma_first_step_index(steps@, d);
                            assert(succ(steps@, d).len() == 0);
                            assert(finite_within(steps@, d, 1));
                            lemma_finite_mono(steps@, d, 1, level);
                        }
                    }
                    assert(finite_within(steps@, x, level + 1));
                }
            }
            next.push(b);
            i = i + 1;
        }
        if !changed {
            proof {
                assert forall|x: Seq<char>| #[trigger] flagged_acyclic(steps@, flags@, x) <==> acyclic_from(steps@, x) by {
                    if flagged_acyclic(steps@, flags@, x) {
                        if is_step_id(steps@, x) {
                            let w = choose|w: int| 0 <= w < steps@.len() && #[trigger] steps@[w].id@ == x && flags@[w];
                            assert(finite_within(steps@, x, level));
                        } else {
                            lemma_first_step_index(steps@, x);
                            assert(finite_within(steps@, x, 1));
                        }
                    }
                    if acyclic_from(steps@, x) {
                        let k = choose|k: nat| finite_within(steps@, x, k);
                        assert forall|t: int| 0 <= t < steps@.len() && !flags@[t] implies !succ_flagged(steps@, flags@, #[trigger] steps@[t].id@) by {
                            assert(next@[t] == (flags@[t] || succ_flagged(steps@, flags@, steps@[t].id@)));
                        }
                        lemma_finite_flagged(steps@, flags@, x, k);
                    }
                }
            }
            return flags;
        }
        proof {
            assert forall|t: int| 0 <= t < n && flags@[t] implies next@[t] by {
                assert(next@[t] == (flags@[t] || succ_flagged(steps@, flags@, steps@[t].id@)));
            }
            lemma_count_grows(flags@, next@);
            level = level + 1;
        }
        flags = next;
    }
}

/// Some step can reach a dependency cycle.
pub open spec fn spec_has_cycle(steps: Seq<WorkflowStep>) -> bool {
    exists|i: int| 0 <= i < steps.len() && !acyclic_from(steps, #[trigger] steps[i].id@)
}

/// Cycle detection over the dependencies of each step.
pub fn has_cycle(steps: &Vec<WorkflowStep>) -> (b: bool)
    ensures
        b == spec_has_cycle(steps@),
{
    let flags = acyclic_flags(steps);
    let n = steps.len();
    let mut i: usize = 0;
    while i < n
        invariant
            i <= n,
            n == steps@.len(),
            flags@.len() == n,
            forall|x: Seq<char>| #[trigger] flagged_acyclic(steps@, flags@, x) <==> acyclic_from(steps@, x),
            forall|t: int| 0 <= t < i ==> acyclic_from(steps@, #[trigger] steps@[t].id@),
        decreases n - i,
    {
        assert(ids_of(steps@)[i as int] == steps@[i as int].id@);
        if !find_flagged(steps, &flags, &steps[i].id) {
            assert(!flagged_acyclic(steps@, flags@, steps@[i as int].id@));
            return true;
        }
        assert(flagged_acyclic(steps@, flags@, steps@[i as int].id@));
        i = i + 1;
    }
    false
}


// ---------------------------------------------------------------------------
// Finding a cycle path
// ---------------------------------------------------------------------------

/// `c` is a dependency cycle: each node is followed by one of its dependencies
/// (through the first step of that name), and the last leads back to the first.
pub open spec fn is_cycle(steps: Seq<WorkflowStep>, c: Seq<Seq<char>>) -> bool {
    &&& c.len() > 0
    &&& forall|i: int| 0 <= i < c.len() - 1 ==> succ(steps, c[i]).contains(#[trigger] c[i + 1])
    &&& succ(steps, c.last()).contains(c[0])
}

/// Each node of `p` is followed by one of its dependencies.
pub open spec fn is_chain(steps: Seq<WorkflowStep>, p: Seq<Seq<char>>) -> bool {
    forall|i: int| 0 <= i < p.len() - 1 ==> succ(steps, p[i]).contains(#[trigger] p[i + 1])
}

/// The dependencies of all steps, in order.
pub open spec fn all_deps(steps: Seq<WorkflowStep>) -> Seq<Seq<char>>
    decreases steps.len(),
{
    if steps.len() == 0 {
        Seq::empty()
    } else {
        all_deps(steps.drop_last()) + step_deps(steps.last())
    }
}

/// Every name the search can visit: the step identifiers, then all dependencies.
pub open spec fn node_names(steps: Seq<WorkflowStep>) -> Seq<Seq<char>> {
    ids_of(steps) + all_deps(steps)
}

proof fn lemma_deps_in_all(steps: Seq<WorkflowStep>, j: int, m: int)
    requires
        0 <= j < steps.len(),
        0 <= m < step_deps(steps[j]).len(),
    ensures
        all_deps(steps).contains(step_deps(steps[j])[m]),
    decreases steps.len(),
{
    let prev = all_deps(steps.drop_last());
    let last = step_deps(steps.last());
    if j == steps.len() - 1 {
        assert((prev + last)[prev.len() + m] == last[m]);
    } else {
        lemma_deps_in_all(steps.drop_last(), j, m);
        let k = choose|k: int| 0 <= k < prev.len() && prev[k] == step_deps(steps[j])[m];
        assert((prev + last)[k] == prev[k]);
    }
}

proof fn lemma_succ_in_names(steps: Seq<WorkflowStep>, x: Seq<char>, m: int)
    requires
        0 <= m < succ(steps, x).len(),
    ensures
        node_names(steps).contains(succ(steps, x)[m]),
{
    lemma_first_step_index(steps, x);
    let f = first_step_index(steps, x);
    lemma_deps_in_all(steps, f, m);
    let k = choose|k: int| 0 <= k < all_deps(steps).len() && all_deps(steps)[k] == succ(steps, x)[m];
    assert(node_names(steps)[ids_of(steps).len() + k] == succ(steps, x)[m]);
}

/// The names in `names` that are not yet visited, as flags.
pub open spec fn unvisited(names: Seq<Seq<char>>, visited: Seq<Seq<char>>) -> Seq<bool> {
    names.map_values(|y: Seq<char>| !visited.contains(y))
}

proof fn lemma_visit_shrinks(names: Seq<Seq<char>>, v1: Seq<Seq<char>>, v2: Seq<Seq<char>>, x: Seq<char>)
    requires
        forall|y: Seq<char>| v1.contains(y) ==> v2.contains(y),
        names.contains(x),
        !v1.contains(x),
        v2.contains(x),
    ensures
        count_true(unvisited(names, v2)) < count_true(unvisited(names, v1)),
{
    let k = choose|k: int| 0 <= k < names.len() && names[k] == x;
    assert forall|i: int| 0 <= i < names.len() && unvisited(names, v2)[i] implies unvisited(names, v1)[i] by {}
    assert(unvisited(names, v1)[k] && !unvisited(names, v2)[k]);
    lemma_count_grows(unvisited(names, v2), unvisited(names, v1));
}

proof fn lemma_visit_mono(names: Seq<Seq<char>>, v1: Seq<Seq<char>>, v2: Seq<Seq<char>>)
    requires
        forall|y: Seq<char>| v1.contains(y) ==> v2.contains(y),
    ensures
        count_true(unvisited(names, v2)) <= count_true(unvisited(names, v1)),
{
    assert forall|i: int| 0 <= i < names.len() && unvisited(names, v2)[i] implies unvisited(names, v1)[i] by {}
    lemma_count_grows(unvisited(names, v2), unvisited(names, v1));
}

/// Every visited name that is off the current path is known to reach no cycle.
pub open spec fn finished_acyclic(steps: Seq<WorkflowStep>, visited: Seq<Seq<char>>, path: Seq<Seq<char>>) -> bool {
    forall|y: Seq<char>| visited.contains(y) && !path.contains(y) ==> #[trigger] acyclic_from(steps, y)
}

/// Some bound works for the first `n` successors of `x`.
proof fn lemma_common_bound(steps: Seq<WorkflowStep>, x: Seq<char>, n: int) -> (k: nat)
    requires
        0 <= n <= succ(steps, x).len(),
        forall|m: int| 0 <= m < succ(steps, x).len() ==> acyclic_from(steps, #[trigger] succ(steps, x)[m]),
    ensures
        forall|m: int| 0 <= m < n ==> finite_within(steps, #[trigger] succ(steps, x)[m], k),
    decreases n,
{
    if n == 0 {
        0
    } else {
        let k0 = lemma_common_bound(steps, x, n - 1);
        let y = succ(steps, x)[n - 1];
        assert(acyclic_from(steps, y));
        let k1 = choose|k1: nat| finite_within(steps, y, k1);
        let k = if k0 < k1 {
            k1
        } else {
            k0
        };
        assert forall|m: int| 0 <= m < n implies finite_within(steps, #[trigger] succ(steps, x)[m], k) by {
            if m < n - 1 {
                lemma_finite_mono(steps, succ(steps, x)[m], k0, k);
            } else {
                lemma_finite_mono(steps, y, k1, k);
            }
        }
        k
    }
}

/// A name whose successors all reach no cycle reaches none itself.
proof fn lemma_acyclic_from_succs(steps: Seq<WorkflowStep>, x: Seq<char>)
    requires
        forall|m: int| 0 <= m < succ(steps, x).len() ==> acyclic_from(steps, #[trigger] succ(steps, x)[m]),
    ensures
        acyclic_from(steps, x),
{
    let k = lemma_common_bound(steps, x, succ(steps, x).len() as int);
    assert(finite_within(steps, x, k + 1));
}

/// Index of the first occurrence of `x` in `s`, when there is one.
pub open spec fn first_pos(s: Seq<Seq<char>>, x: Seq<char>) -> int {
    choose|i: int| 0 <= i < s.len() && s[i] == x && forall|t: int| 0 <= t < i ==> s[t] != x
}

/// What the depth-first cycle search from `node` gives, with the current `path`
/// and `visited` names: whether it found a cycle, the path afterwards (the cycle
/// when one was found, else `path` as it was) and the visited names afterwards.
///
/// A node already visited closes a cycle when it lies on the path: the cycle is
/// the path from that node on.  Otherwise the node is marked visited, put on the
/// path, and its dependencies (those of the first step of its name) are searched
/// in order until one search finds a cycle.  `fuel` bounds the depth; the search
/// runs with more fuel than there are names left to visit, so it never runs out.
pub open spec fn dfs_cycle(
    steps: Seq<WorkflowStep>,
    fuel: nat,
    node: Seq<char>,
    path: Seq<Seq<char>>,
    visited: Seq<Seq<char>>,
) -> (bool, Seq<Seq<char>>, Seq<Seq<char>>)
    decreases fuel, 0int, 0int,
{
    if visited.contains(node) {
        if path.contains(node) {
            (true, path.subrange(first_pos(path, node), path.len() as int), visited)
        } else {
            (false, path, visited)
        }
    } else if fuel == 0 {
        (false, path, visited)
    } else {
        let r = dfs_deps(steps, (fuel - 1) as nat, succ(steps, node), 0, path.push(node), visited.push(node));
        if r.0 {
            r
        } else {
            (false, path, r.2)
        }
    }
}

/// The cycle search through the dependencies `ds` from index `m` on, each with
/// the path and visited names the previous one left, stopping at the first that
/// finds a cycle.
pub open spec fn dfs_deps(
    steps: Seq<WorkflowStep>,
    fuel: nat,
    ds: Seq<Seq<char>>,
    m: int,
    path: Seq<Seq<char>>,
    visited: Seq<Seq<char>>,
) -> (bool, Seq<Seq<char>>, Seq<Seq<char>>)
    decreases fuel, 1int, ds.len() - m,
{
    if m < 0 || m >= ds.len() {
        (false, path, visited)
    } else {
        let r = dfs_cycle(steps, fuel, ds[m], path, visited);
        if r.0 {
            r
        } else {
            dfs_deps(steps, fuel, ds, m + 1, r.1, r.2)
        }
    }
}

/// Enough fuel for a search started with nothing visited.
pub open spec fn search_fuel(steps: Seq<WorkflowStep>) -> nat {
    node_names(steps).len() + 1
}

/// The cycles that searches started at the first `k` steps find, in order: one
/// for each search that finds one.
pub open spec fn found_cycles(steps: Seq<WorkflowStep>, k: int) -> Seq<Seq<Seq<char>>>
    decreases k,
{
    if k <= 0 {
        Seq::empty()
    } else {
        let r = dfs_cycle(steps, search_fuel(steps), steps[k - 1].id@, Seq::empty(), Seq::empty());
        if r.0 {
            found_cycles(steps, k - 1).push(r.1)
        } else {
            found_cycles(steps, k - 1)
        }
    }
}

/// Position of `x` in `v`, if present.
fn position_of(v: &Vec<String>, x: &String) -> (r: Option<usize>)
    ensures
        r is None <==> !crate::text::str_views(v@).contains(x@),
        r matches Some(i) ==> i < v@.len() && v@[i as int]@ == x@ && forall|t: int|
            0 <= t < i ==> #[trigger] crate::text::str_views(v@)[t] != x@,
{
    let n = v.len();
    let mut i: usize = 0;
    while i < n
        invariant
            i <= n,
            n == v@.len(),
            forall|t: int| 0 <= t < i ==> #[trigger] crate::text::str_views(v@)[t] != x@,
        decreases n - i,
    {
        if v[i] == *x {
            assert(crate::text::str_views(v@)[i as int] == x@);
            return Some(i);
        }
        i = i + 1;
    }
    None
}

/// Depth-first search from `node` for a dependency leading back onto `path`.
/// On success `path` holds the cycle found; otherwise it is left as it was.
fn find_cycle_path(
    steps: &Vec<WorkflowStep>,
    node: &String,
    path: &mut Vec<String>,
    visited: &mut Vec<String>,
    Ghost(fuel): Ghost<nat>,
) -> (found: bool)
    requires
        node_names(steps@).contains(node@),
        fuel > count_true(unvisited(node_names(steps@), crate::text::str_views(old(visited)@))),
        is_chain(steps@, crate::text::str_views(old(path)@)),
        old(path)@.len() > 0 ==> succ(steps@, old(path)@.last()@).contains(node@),
        forall|y: Seq<char>| crate::text::str_views(old(path)@).contains(y) ==> crate::text::str_views(old(visited)@).contains(y),
        finished_acyclic(steps@, crate::text::str_views(old(visited)@), crate::text::str_views(old(path)@)),
    ensures
        forall|y: Seq<char>| crate::text::str_views(old(visited)@).contains(y) ==> crate::text::str_views(final(visited)@).contains(y),
        found ==> is_cycle(steps@, crate::text::str_views(final(path)@)),
        !found ==> crate::text::str_views(final(path)@) == crate::text::str_views(old(path)@),
        !found ==> acyclic_from(steps@, node@),
        !found ==> finished_acyclic(steps@, crate::text::str_views(final(visited)@), crate::text::str_views(final(path)@)),
        found == dfs_cycle(steps@, fuel, node@, crate::text::str_views(old(path)@), crate::text::str_views(old(visited)@)).0,
        crate::text::str_views(final(path)@) == dfs_cycle(
            steps@,
            fuel,
            node@,
            crate::text::str_views(old(path)@),
            crate::text::str_views(old(visited)@),
        ).1,
        crate::text::str_views(final(visited)@) == dfs_cycle(
            steps@,
            fuel,
            node@,
            crate::text::str_views(old(path)@),
            crate::text::str_views(old(visited)@),
        ).2,
    decreases count_true(unvisited(node_names(steps@), crate::text::str_views(old(visited)@))),
{
    let ghost names = node_names(steps@);
    let ghost p0 = crate::text::str_views(path@);
    if crate::text::contains_str(visited, node.as_str()) {
        match position_of(path, node) {
            Some(pos) => {
                let n = path.len();
                let mut cycle: Vec<String> = Vec::new();
                let mut k = pos;
                while k < n
                    invariant
                        pos <= k <= n,
                        n == path@.len(),
                        crate::text::str_views(cycle@) == p0.subrange(pos as int, k as int),
                        p0 == crate::text::str_views(path@),
                    decreases n - k,
                {
                    let ghost before = cycle@;
                    let s = crate::text::copy_string(&path[k]);
                    cycle.push(s);
                    proof {
                        assert(cycle@ == before.push(s));
                        assert(crate::text::str_views(cycle@) =~= crate::text::str_views(before).push(s@));
                        assert(p0[k as int] == path@[k as int]@);
                        assert(p0.subrange(pos as int, k + 1) =~= p0.subrange(pos as int, k as int).push(p0[k as int]));
                    }
                    k = k + 1;
                }
                proof {
                    let c = crate::text::str_views(cycle@);
                    assert(c =~= p0.subrange(pos as int, n as int));
                    assert forall|i: int| 0 <= i < c.len() - 1 implies succ(steps@, c[i]).contains(#[trigger] c[i + 1]) by {
                        assert(c[i] == p0[pos + i]);
                        assert(c[i + 1] == p0[pos + i + 1]);
                    }
                    assert(c[0] == node@);
                    assert(c.last() == p0.last());
                    assert(p0.contains(node@)) by {
                        assert(p0[pos as int] == node@);
                    }
                    let fp = first_pos(p0, node@);
                    assert(0 <= fp < p0.len() && p0[fp] == node@ && forall|t: int| 0 <= t < fp ==> p0[t] != node@) by {
                        assert(0 <= pos < p0.len() && p0[pos as int] == node@ && forall|t: int|
                            0 <= t < pos ==> p0[t] != node@);
                    }
                    if fp < pos {
                        assert(p0[fp] != node@);
                    }
                    if pos < fp {
                        assert(p0[pos as int] != node@);
                    }
                    assert(fp == pos);
                }
                *path = cycle;
                return true;
            },
            None => {
                proof {
                    assert(!p0.contains(node@));
                }
                return false;
            },
        }
    }
    let ghost v0 = crate::text::str_views(visited@);
    visited.push(crate::text::copy_string(node));
    let ghost v1 = crate::text::str_views(visited@);
    proof {
        assert(v1 =~= v0.push(node@));
        assert(v1.contains(node@)) by {
            assert(v1[v0.len() as int] == node@);
        }
        assert forall|y: Seq<char>| v0.contains(y) implies v1.contains(y) by {
            let k = choose|k: int| 0 <= k < v0.len() && v0[k] == y;
            assert(v1[k] == y);
        }
        lemma_visit_shrinks(names, v0, v1, node@);
    }
    path.push(crate::text::copy_string(node));
    proof {
        let p1 = crate::text::str_views(path@);
        assert(p1 =~= p0.push(node@));
        assert forall|y: Seq<char>| p1.contains(y) implies v1.contains(y) by {
            let k = choose|k: int| 0 <= k < p1.len() && p1[k] == y;
            if k < p0.len() {
                assert(p0[k] == y);
                assert(v0.contains(y));
            }
        }
        assert forall|i: int| 0 <= i < p1.len() - 1 implies succ(steps@, p1[i]).contains(#[trigger] p1[i + 1]) by {
            if i < p0.len() - 1 {
                assert(p1[i] == p0[i] && p1[i + 1] == p0[i + 1]);
            } else {
                assert(p1[i] == p0.last());
                assert(p1[i + 1] == node@);
            }
        }
        assert forall|y: Seq<char>| v1.contains(y) && !p1.contains(y) implies #[trigger] acyclic_from(steps@, y) by {
            assert(p1[p0.len() as int] == node@);
            let k = choose|k: int| 0 <= k < v1.len() && v1[k] == y;
            if k < v0.len() {
                assert(v0[k] == y);
            }
            if p0.contains(y) {
                let j = choose|j: int| 0 <= j < p0.len() && p0[j] == y;
                assert(p1[j] == y);
            }
        }
    }
    let ghost p1 = p0.push(node@);
    let ghost whole = dfs_deps(steps@, (fuel - 1) as nat, succ(steps@, node@), 0, p1, v1);
    proof {
        assert(!v0.contains(node@));
        assert(fuel > 0);
    }
    let f = first_index(steps, node);
    if f < steps.len() {
        let deps = &steps[f].dependencies;
        let d = deps.len();
        let mut m: usize = 0;
        while m < d
            invariant
                m <= d,
                f < steps@.len(),
                f == first_step_index(steps@, node@),
                deps == &steps@[f as int].dependencies,
                d == deps@.len(),
                names == node_names(steps@),
                crate::text::str_views(path@) == p0.push(node@),
                is_chain(steps@, crate::text::str_views(path@)),
                forall|y: Seq<char>| crate::text::str_views(path@).contains(y) ==> crate::text::str_views(visited@).contains(y),
                forall|y: Seq<char>| v0.contains(y) ==> crate::text::str_views(visited@).contains(y),
                forall|y: Seq<char>| v1.contains(y) ==> crate::text::str_views(visited@).contains(y),
                count_true(unvisited(names, v1)) < count_true(unvisited(names, v0)),
                v0 == crate::text::str_views(old(visited)@),
                p0 == crate::text::str_views(old(path)@),
                finished_acyclic(steps@, crate::text::str_views(visited@), crate::text::str_views(path@)),
                succ(steps@, node@) == step_deps(steps@[f as int]),
                forall|j: int| 0 <= j < m ==> acyclic_from(steps@, #[trigger] succ(steps@, node@)[j]),
                fuel > count_true(unvisited(names, v0)),
                fuel > 0,
                v1 == v0.push(node@),
                !v0.contains(node@),
                p1 == p0.push(node@),
                whole == dfs_deps(steps@, (fuel - 1) as nat, succ(steps@, node@), 0, p1, v1),
                whole == dfs_deps(
                    steps@,
                    (fuel - 1) as nat,
                    succ(steps@, node@),
                    m as int,
                    crate::text::str_views(path@),
                    crate::text::str_views(visited@),
                ),
            decreases d - m,
        {
            proof {
                assert(succ(steps@, node@)[m as int] == deps@[m as int]@);
                lemma_succ_in_names(steps@, node@, m as int);
                lemma_visit_mono(names, v1, crate::text::str_views(visited@));
                assert(crate::text::str_views(path@).last() == node@);
                assert(succ(steps@, node@).contains(deps@[m as int]@));
            }
            let ghost vbefore = crate::text::str_views(visited@);
            let ghost pbefore = crate::text::str_views(path@);
            proof {
                lemma_visit_mono(names, v1, vbefore);
            }
            if find_cycle_path(steps, &deps[m], path, visited, Ghost((fuel - 1) as nat)) {
                proof {
                    assert(succ(steps@, node@)[m as int] == deps@[m as int]@);
                    let r = dfs_cycle(steps@, (fuel - 1) as nat, deps@[m as int]@, pbefore, vbefore);
                    assert(r.0);
                    assert(whole == r);
                    assert(v1 == v0.push(node@));
                    assert(dfs_cycle(steps@, fuel, node@, p0, v0) == whole);
                }
                return true;
            }
            proof {
                assert forall|y: Seq<char>| v1.contains(y) implies crate::text::str_views(visited@).contains(y) by {
                    assert(vbefore.contains(y));
                }
                assert(succ(steps@, node@)[m as int] == deps@[m as int]@);
            }
            m = m + 1;
        }
        proof {
            lemma_acyclic_from_succs(steps@, node@);
        }
    } else {
        proof {
            lemma_first_step_index(steps@, node@);
            assert(succ(steps@, node@).len() == 0);
            lemma_acyclic_from_succs(steps@, node@);
        }
    }
    let ghost pl = path@;
    let ghost vf = crate::text::str_views(visited@);
    path.pop();
    proof {
        assert(crate::text::str_views(path@) =~= crate::text::str_views(pl).drop_last());
        assert(crate::text::str_views(path@) =~= p0);
        let p1 = p0.push(node@);
        assert(crate::text::str_views(pl) == p1);
        assert forall|y: Seq<char>| vf.contains(y) && !p0.contains(y) implies #[trigger] acyclic_from(steps@, y) by {
            if y != node@ {
                if p1.contains(y) {
                    let j = choose|j: int| 0 <= j < p1.len() && p1[j] == y;
                    assert(p0[j] == y);
                }
            }
        }
    }
    false
}

/// For each step in order, the dependency cycle found by a depth-first search
/// started at it, if the search finds one.
pub fn find_cycles(steps: &Vec<WorkflowStep>) -> (cycles: Vec<Vec<String>>)
    ensures
        cycles@.len() <= steps@.len(),
        spec_has_cycle(steps@) ==> cycles@.len() > 0,
        forall|i: int| 0 <= i < cycles@.len() ==> is_cycle(steps@, crate::text::str_views(#[trigger] cycles@[i]@)),
        cycles@.map_values(|c: Vec<String>| crate::text::str_views(c@)) == found_cycles(steps@, steps@.len() as int),
{
    let n = steps.len();
    let mut cycles: Vec<Vec<String>> = Vec::new();
    let mut i: usize = 0;
    while i < n
        invariant
            i <= n,
            n == steps@.len(),
            cycles@.len() <= i,
            forall|t: int| 0 <= t < cycles@.len() ==> is_cycle(steps@, crate::text::str_views(#[trigger] cycles@[t]@)),
            cycles@.len() == 0 ==> forall|t: int| 0 <= t < i ==> acyclic_from(steps@, #[trigger] steps@[t].id@),
            cycles@.map_values(|c: Vec<String>| crate::text::str_views(c@)) == found_cycles(steps@, i as int),
        decreases n - i,
    {
        let mut path: Vec<String> = Vec::new();
        let mut visited: Vec<String> = Vec::new();
        proof {
            assert(node_names(steps@)[i as int] == steps@[i as int].id@);
            assert(crate::text::str_views(path@) =~= Seq::<Seq<char>>::empty());
            assert(crate::text::str_views(visited@) =~= Seq::<Seq<char>>::empty());
            let u = unvisited(node_names(steps@), Seq::<Seq<char>>::empty());
            lemma_count_grows(u, u);
        }
        let ghost c0 = cycles@;
        if find_cycle_path(steps, &steps[i].id, &mut path, &mut visited, Ghost(search_fuel(steps@))) {
            let ghost pv = crate::text::str_views(path@);
            cycles.push(path);
            proof {
                assert(cycles@.map_values(|c: Vec<String>| crate::text::str_views(c@)) =~= c0.map_values(
                    |c: Vec<String>| crate::text::str_views(c@),
                ).push(pv));
            }
        }
        i = i + 1;
    }
    proof {
        if spec_has_cycle(steps@) && cycles@.len() == 0 {
            let t = choose|t: int| 0 <= t < steps@.len() && !acyclic_from(steps@, #[trigger] steps@[t].id@);
            assert(acyclic_from(steps@, steps@[t].id@));
        }
    }
    cycles
}

} // verus!
