//! Pairing semantic and keyword search hits by vector identifier, for hybrid
//! retrieval.
use vstd::prelude::*;
use crate::text::{copy_string, join3, str_eq, str_views};

verus! {

/// Index of the last occurrence of `id` in `ids`.
pub open spec fn last_index(ids: Seq<Seq<char>>, id: Seq<char>) -> Option<int>
    decreases ids.len(),
{
    if ids.len() == 0 {
        None
    } else if ids.last() == id {
        Some(ids.len() - 1)
    } else {
        last_index(ids.drop_last(), id)
    }
}

/// Index of the first occurrence of `id` in `ids`.
pub open spec fn first_index(ids: Seq<Seq<char>>, id: Seq<char>) -> Option<int>
    decreases ids.len(),
{
    if ids.len() == 0 {
        None
    } else {
        match first_index(ids.drop_last(), id) {
            Some(i) => Some(i),
            None => if ids.last() == id {
                Some(ids.len() - 1)
            } else {
                None
            },
        }
    }
}

/// The items of `s` without repetitions, in order of first occurrence.
pub open spec fn distinct_in_order(s: Seq<Seq<char>>) -> Seq<Seq<char>>
    decreases s.len(),
{
    if s.len() == 0 {
        Seq::empty()
    } else {
        let d = distinct_in_order(s.drop_last());
        if d.contains(s.last()) {
            d
        } else {
            d.push(s.last())
        }
    }
}

/// An index as a plain optional integer.
pub open spec fn opt_int(o: Option<usize>) -> Option<int> {
    match o {
        Some(i) => Some(i as int),
        None => None,
    }
}

/// One vector found by semantic search, keyword search or both: where it occurs
/// in each list of hits.
#[derive(Debug, Clone)]
pub struct HybridEntry {
    /// The vector's identifier.
    pub id: String,
    /// Its last hit among the semantic hits (which gives its semantic score and,
    /// when present, the result reported).
    pub semantic: Option<usize>,
    /// Its first hit among the keyword hits (the result reported when there is
    /// no semantic hit).
    pub keyword_first: Option<usize>,
    /// Its last hit among the keyword hits (which gives its keyword score).
    pub keyword_last: Option<usize>,
}

/// Whether `e` describes where `id` occurs in the two lists of hit identifiers.
pub open spec fn entry_for(e: HybridEntry, id: Seq<char>, sem: Seq<Seq<char>>, key: Seq<Seq<char>>) -> bool {
    &&& e.id@ == id
    &&& opt_int(e.semantic) == last_index(sem, id)
    &&& opt_int(e.keyword_first) == first_index(key, id)
    &&& opt_int(e.keyword_last) == last_index(key, id)
}

/// Index of the last occurrence of `id` in `ids`, computed.
fn find_last(ids: &[String], id: &str) -> (r: Option<usize>)
    ensures
        opt_int(r) == last_index(str_views(ids@), id@),
{
    let ghost s = str_views(ids@);
    let mut r: Option<usize> = None;
    let n = ids.len();
    let mut j: usize = 0;
    while j < n
        invariant
            j <= n,
            n == ids@.len(),
            s == str_views(ids@),
            opt_int(r) == last_index(s.take(j as int), id@),
        decreases n - j,
    {
        proof {
            assert(s.take(j + 1).drop_last() =~= s.take(j as int));
            assert(s.take(j + 1).last() == ids@[j as int]@);
        }
        if str_eq(ids[j].as_str(), id) {
            r = Some(j);
        }
        j = j + 1;
    }
    proof {
        assert(s.take(n as int) =~= s);
    }
    r
}

/// Index of the first occurrence of `id` in `ids`, computed.
fn find_first(ids: &[String], id: &str) -> (r: Option<usize>)
    ensures
        opt_int(r) == first_index(str_views(ids@), id@),
{
    let ghost s = str_views(ids@);
    let mut r: Option<usize> = None;
    let n = ids.len();
    let mut j: usize = 0;
    while j < n
        invariant
            j <= n,
            n == ids@.len(),
            s == str_views(ids@),
            opt_int(r) == first_index(s.take(j as int), id@),
        decreases n - j,
    {
        proof {
            assert(s.take(j + 1).drop_last() =~= s.take(j as int));
            assert(s.take(j + 1).last() == ids@[j as int]@);
        }
        if r.is_none() && str_eq(ids[j].as_str(), id) {
            r = Some(j);
        }
        j = j + 1;
    }
    proof {
        assert(s.take(n as int) =~= s);
    }
    r
}

/// Adds the entry of `id` to `out` unless an entry of it is there already.
fn add_if_new(out: &mut Vec<HybridEntry>, id: &String, semantic_ids: &[String], keyword_ids: &[String])
    requires
        forall|b: int| 0 <= b < old(out)@.len() ==> entry_for(
            #[trigger] old(out)@[b],
            str_views(old(out)@.map_values(|e: HybridEntry| e.id))[b],
            str_views(semantic_ids@),
            str_views(keyword_ids@),
        ),
    ensures
        str_views(old(out)@.map_values(|e: HybridEntry| e.id)).contains(id@) ==> final(out)@ == old(out)@,
        !str_views(old(out)@.map_values(|e: HybridEntry| e.id)).contains(id@) ==> final(out)@.len() == old(out)@.len() + 1
            && final(out)@.take(old(out)@.len() as int) == old(out)@ && entry_for(
            final(out)@.last(),
            id@,
            str_views(semantic_ids@),
            str_views(keyword_ids@),
        ),
{
    let ghost ids = str_views(out@.map_values(|e: HybridEntry| e.id));
    let mut seen = false;
    let mut a: usize = 0;
    while a < out.len()
        invariant
            a <= out@.len(),
            ids == str_views(out@.map_values(|e: HybridEntry| e.id)),
            ids.len() == out@.len(),
            seen == ids.take(a as int).contains(id@),
        decreases out@.len() - a,
    {
        let same = str_eq(out[a].id.as_str(), id.as_str());
        proof {
            assert(ids.take(a + 1) =~= ids.take(a as int).push(ids[a as int]));
            assert(out@.map_values(|e: HybridEntry| e.id)[a as int] == out@[a as int].id);
            assert(ids[a as int] == out@[a as int].id@);
            if same {
                assert(ids.take(a + 1)[a as int] == id@);
            }
            if ids.take(a + 1).contains(id@) && !ids.take(a as int).contains(id@) {
                let k = choose|k: int| 0 <= k < a + 1 && #[trigger] ids.take(a + 1)[k] == id@;
                assert(k == a);
            }
            if ids.take(a as int).contains(id@) {
                let k = choose|k: int| 0 <= k < a && #[trigger] ids.take(a as int)[k] == id@;
                assert(ids.take(a + 1)[k] == id@);
            }
        }
        if same {
            seen = true;
        }
        a = a + 1;
    }
    proof {
        assert(ids.take(ids.len() as int) =~= ids);
    }
    if !seen {
        let entry = HybridEntry {
            id: copy_string(id),
            semantic: find_last(semantic_ids, id.as_str()),
            keyword_first: find_first(keyword_ids, id.as_str()),
            keyword_last: find_last(keyword_ids, id.as_str()),
        };
        let ghost o0 = out@;
        out.push(entry);
        proof {
            assert(out@.take(o0.len() as int) =~= o0);
        }
    }
}

/// The vectors found by either search, each once, in order of first appearance
/// (semantic hits first), with where each occurs among the semantic hits
/// `semantic_ids` and the keyword hits `keyword_ids`.
pub fn pair_by_id(semantic_ids: &[String], keyword_ids: &[String]) -> (r: Vec<HybridEntry>)
    ensures
        r@.len() == distinct_in_order(str_views(semantic_ids@) + str_views(keyword_ids@)).len(),
        forall|i: int|
            0 <= i < r@.len() ==> entry_for(
                #[trigger] r@[i],
                distinct_in_order(str_views(semantic_ids@) + str_views(keyword_ids@))[i],
                str_views(semantic_ids@),
                str_views(keyword_ids@),
            ),
{
    let ghost sem = str_views(semantic_ids@);
    let ghost key = str_views(keyword_ids@);
    let ghost all = sem + key;
    let mut out: Vec<HybridEntry> = Vec::new();
    let ns = semantic_ids.len();
    let nk = keyword_ids.len();
    let mut i: usize = 0;
    proof {
        assert(all.take(0) =~= Seq::<Seq<char>>::empty());
        assert(str_views(out@.map_values(|e: HybridEntry| e.id)) =~= distinct_in_order(all.take(0)));
    }
    while i < ns
        invariant
            i <= ns,
            ns == semantic_ids@.len(),
            sem == str_views(semantic_ids@),
            key == str_views(keyword_ids@),
            all == sem + key,
            str_views(out@.map_values(|e: HybridEntry| e.id)) == distinct_in_order(all.take(i as int)),
            forall|a: int|
                0 <= a < out@.len() ==> entry_for(#[trigger] out@[a], distinct_in_order(all.take(i as int))[a], sem, key),
        decreases ns - i,
    {
        proof {
            lemma_step(all, i as int);
            assert(all[i as int] == semantic_ids@[i as int]@);
        }
        let ghost o0 = out@;
        add_if_new(&mut out, &semantic_ids[i], semantic_ids, keyword_ids);
        proof {
            lemma_after_add(all, i as int, o0, out@, sem, key);
        }
        i = i + 1;
    }
    let mut j: usize = 0;
    while j < nk
        invariant
            j <= nk,
            ns == semantic_ids@.len(),
            nk == keyword_ids@.len(),
            sem == str_views(semantic_ids@),
            key == str_views(keyword_ids@),
            all == sem + key,
            str_views(out@.map_values(|e: HybridEntry| e.id)) == distinct_in_order(all.take(ns + j)),
            forall|a: int|
                0 <= a < out@.len() ==> entry_for(#[trigger] out@[a], distinct_in_order(all.take(ns + j))[a], sem, key),
        decreases nk - j,
    {
        proof {
            lemma_step(all, ns + j);
            assert(all[ns + j] == keyword_ids@[j as int]@);
        }
        let ghost o0 = out@;
        add_if_new(&mut out, &keyword_ids[j], semantic_ids, keyword_ids);
        proof {
            lemma_after_add(all, ns + j, o0, out@, sem, key);
        }
        j = j + 1;
    }
    proof {
        assert(all.take(ns + nk) =~= all);
        assert(out@.len() == str_views(out@.map_values(|e: HybridEntry| e.id)).len());
    }
    out
}

/// The prefix one longer is the prefix with the next item.
proof fn lemma_step(all: Seq<Seq<char>>, i: int)
    requires
        0 <= i < all.len(),
    ensures
        all.take(i + 1).drop_last() == all.take(i),
        all.take(i + 1).last() == all[i],
{
    assert(all.take(i + 1).drop_last() =~= all.take(i));
}

/// After adding the entry of `all[i]`, the entries stand for the prefix one longer.
proof fn lemma_after_add(
    all: Seq<Seq<char>>,
    i: int,
    o0: Seq<HybridEntry>,
    o1: Seq<HybridEntry>,
    sem: Seq<Seq<char>>,
    key: Seq<Seq<char>>,
)
    requires
        0 <= i < all.len(),
        str_views(o0.map_values(|e: HybridEntry| e.id)) == distinct_in_order(all.take(i)),
        forall|a: int| 0 <= a < o0.len() ==> entry_for(#[trigger] o0[a], distinct_in_order(all.take(i))[a], sem, key),
        str_views(o0.map_values(|e: HybridEntry| e.id)).contains(all[i]) ==> o1 == o0,
        !str_views(o0.map_values(|e: HybridEntry| e.id)).contains(all[i]) ==> o1.len() == o0.len() + 1
            && o1.take(o0.len() as int) == o0 && entry_for(o1.last(), all[i], sem, key),
    ensures
        str_views(o1.map_values(|e: HybridEntry| e.id)) == distinct_in_order(all.take(i + 1)),
        forall|a: int| 0 <= a < o1.len() ==> entry_for(#[trigger] o1[a], distinct_in_order(all.take(i + 1))[a], sem, key),
{
    assert(all.take(i + 1).drop_last() =~= all.take(i));
    assert(all.take(i + 1).last() == all[i]);
    let d0 = distinct_in_order(all.take(i));
    let d1 = distinct_in_order(all.take(i + 1));
    if !d0.contains(all[i]) {
        assert(d1 == d0.push(all[i]));
        assert forall|a: int| 0 <= a < o1.len() implies entry_for(#[trigger] o1[a], d1[a], sem, key) by {
            if a < o0.len() {
                assert(o1[a] == o1.take(o0.len() as int)[a]);
            }
        }
        assert(str_views(o1.map_values(|e: HybridEntry| e.id)) =~= d1) by {
            assert forall|a: int| 0 <= a < o1.len() implies str_views(o1.map_values(|e: HybridEntry| e.id))[a] == d1[a] by {
                if a < o0.len() {
                    assert(o1[a] == o1.take(o0.len() as int)[a]);
                    assert(str_views(o0.map_values(|e: HybridEntry| e.id))[a] == d0[a]);
                } else {
                    assert(entry_for(o1.last(), all[i], sem, key));
                }
            }
        }
    } else {
        assert(d1 == d0);
    }
}

/// The query of a combined result set: both queries joined by ` + `.
pub fn combined_query(semantic_query: &str, keyword_query: &str) -> (r: String)
    ensures
        r@ == semantic_query@ + " + "@ + keyword_query@,
{
    join3(semantic_query, " + ", keyword_query)
}

} // verus!
