//! The integer parts of the TF-IDF model: token hashing into feature indices and
//! document frequencies.
use vstd::prelude::*;
use crate::knowledge::embedding::tokenizer::{keep_tokens, spec_tokens, SimpleTokenizer};
use crate::strmap::{StrMap, has_key, keys_unique, lemma_pairs_map_at, pairs_map};
use crate::text::{copy_string, str_views};
use vstd::string::StringSliceAdditionalSpecFns;
use vstd::utf8::encode_utf8;

verus! {

/// `a` reduced modulo the word size.
pub open spec fn wrap_usize(a: int) -> usize {
    (a % (usize::MAX as int + 1)) as usize
}

/// The djb2 hash of `bytes`: starting from 5381, each byte `c` turns `h` into
/// `33 h + c`, modulo the word size.
pub open spec fn djb2(bytes: Seq<u8>) -> usize
    decreases bytes.len(),
{
    if bytes.len() == 0 {
        5381
    } else {
        let h = djb2(bytes.drop_last());
        wrap_usize(((h << 5usize) as int) + h + bytes.last())
    }
}

/// The djb2 hash of the UTF-8 bytes of `token`.
pub fn token_hash(token: &str) -> (r: usize)
    ensures
        r == djb2(encode_utf8(token@)),
{
    let bytes = token.as_bytes();
    let n = bytes.len();
    let mut hash: usize = 5381;
    let mut i: usize = 0;
    while i < n
        invariant
            i <= n,
            n == bytes@.len(),
            bytes@ == encode_utf8(token@),
            hash == djb2(bytes@.subrange(0, i as int)),
        decreases n - i,
    {
        let c = bytes[i];
        let shifted = hash << 5usize;
        let h1 = shifted.wrapping_add(hash);
        let h2 = h1.wrapping_add(c as usize);
        proof {
            let p1 = bytes@.subrange(0, i + 1);
            assert(p1.drop_last() =~= bytes@.subrange(0, i as int));
            assert(p1.last() == c);
            let m = usize::MAX as int + 1;
            lemma_wrapping_add_mod(shifted as int, hash as int, m);
            lemma_wrapping_add_mod(h1 as int, c as int, m);
            assert(h1 as int == (shifted as int + hash as int) % m);
            assert(h2 as int == (h1 as int + c as int) % m);
            vstd::arithmetic::div_mod::lemma_add_mod_noop_right(c as int, shifted as int + hash as int, m);
            assert(h2 as int == (shifted as int + hash as int + c as int) % m);
        }
        hash = h2;
        i = i + 1;
    }
    proof {
        assert(bytes@.subrange(0, n as int) =~= bytes@);
    }
    hash
}

/// A sum of two residues, less the modulus where it reaches it, is the sum's residue.
proof fn lemma_wrapping_add_mod(x: int, y: int, m: int)
    requires
        0 <= x < m,
        0 <= y < m,
    ensures
        (if x + y >= m { x + y - m } else { x + y }) == (x + y) % m,
{
    if x + y >= m {
        vstd::arithmetic::div_mod::lemma_mod_add_multiples_vanish(x + y - m, m);
        vstd::arithmetic::div_mod::lemma_small_mod((x + y - m) as nat, m as nat);
    } else {
        vstd::arithmetic::div_mod::lemma_small_mod((x + y) as nat, m as nat);
    }
}

/// The feature a token is counted in: its hash modulo the dimension.
pub fn feature_index(token: &str, dimension: usize) -> (r: usize)
    requires
        dimension > 0,
    ensures
        r == djb2(encode_utf8(token@)) % dimension,
        r < dimension,
{
    token_hash(token) % dimension
}

/// Number of documents among `docs` whose filtered tokens include `t`.
pub open spec fn doc_count(docs: Seq<Seq<char>>, t: Seq<char>) -> nat
    decreases docs.len(),
{
    if docs.len() == 0 {
        0
    } else {
        doc_count(docs.drop_last(), t) + if keep_tokens(spec_tokens(docs.last())).contains(t) {
            1nat
        } else {
            0nat
        }
    }
}

/// Whether `t` is a filtered token of some document of `docs`.
pub open spec fn in_some_doc(docs: Seq<Seq<char>>, t: Seq<char>) -> bool {
    exists|i: int| 0 <= i < docs.len() && keep_tokens(spec_tokens(#[trigger] docs[i])).contains(t)
}

/// For each filtered token of the documents, the number of documents it occurs in.
pub fn document_frequencies(tokenizer: &SimpleTokenizer, documents: &[&str]) -> (r: StrMap<usize>)
    ensures
        forall|t: Seq<char>| #[trigger] r@.dom().contains(t) <==> in_some_doc(documents@.map_values(|d: &str| d@), t),
        forall|t: Seq<char>| #[trigger] r@.dom().contains(t) ==> r@[t] == doc_count(documents@.map_values(|d: &str| d@), t),
{
    let ghost docs = documents@.map_values(|d: &str| d@);
    let mut freqs: StrMap<usize> = StrMap::new();
    let n = documents.len();
    let mut i: usize = 0;
    while i < n
        invariant
            i <= n,
            n == documents@.len(),
            docs == documents@.map_values(|d: &str| d@),
            forall|t: Seq<char>| #[trigger] freqs@.dom().contains(t) <==> in_some_doc(docs.subrange(0, i as int), t),
            forall|t: Seq<char>| #[trigger] freqs@.dom().contains(t) ==> freqs@[t] == doc_count(docs.subrange(0, i as int), t),
            forall|t: Seq<char>| #[trigger] freqs@.dom().contains(t) ==> freqs@[t] <= i,
        decreases n - i,
    {
        let ghost pre = docs.subrange(0, i as int);
        let ghost pre1 = docs.subrange(0, i + 1);
        proof {
            assert(pre1.drop_last() =~= pre);
            assert(pre1.last() == documents@[i as int]@);
        }
        let filtered = tokenizer.tokenize_filtered(documents[i]);
        let ghost ft = str_views(filtered@);
        let distinct = distinct_strings(&filtered);
        let ghost f0 = freqs@;
        let m = distinct.len();
        let mut j: usize = 0;
        while j < m
            invariant
                j <= m,
                m == distinct@.len(),
                str_views(distinct@).no_duplicates(),
                str_views(distinct@).to_set() == ft.to_set(),
                ft == keep_tokens(spec_tokens(documents@[i as int]@)),
                i < n,
                forall|t: Seq<char>| #[trigger] f0.dom().contains(t) ==> f0[t] <= i,
                forall|t: Seq<char>| #[trigger] freqs@.dom().contains(t) <==> f0.dom().contains(t) || str_views(distinct@).subrange(0, j as int).contains(t),
                forall|t: Seq<char>| #[trigger] freqs@.dom().contains(t) ==> freqs@[t] == (if f0.dom().contains(t) { f0[t] as int } else { 0 }) + (if str_views(distinct@).subrange(0, j as int).contains(t) { 1int } else { 0 }),
            decreases m - j,
        {
            let t = &distinct[j];
            let c: usize = match freqs.get(t.as_str()) {
                Some(v) => *v,
                None => 0,
            };
            let ghost fj = freqs@;
            let ghost sj = str_views(distinct@).subrange(0, j as int);
            let ghost sj1 = str_views(distinct@).subrange(0, j + 1);
            proof {
                assert(sj1 =~= sj.push(t@));
                assert(str_views(distinct@)[j as int] == t@);
                assert(!sj.contains(t@)) by {
                    if sj.contains(t@) {
                        let k = choose|k: int| 0 <= k < sj.len() && sj[k] == t@;
                        assert(str_views(distinct@)[k] == str_views(distinct@)[j as int]);
                    }
                }
                if fj.dom().contains(t@) {
                    assert(c == (if f0.dom().contains(t@) { f0[t@] as int } else { 0 }));
                }
                assert(c <= i);
            }
            freqs.insert(copy_string(t), c + 1);
            proof {
                assert forall|x: Seq<char>| #[trigger] freqs@.dom().contains(x) <==> f0.dom().contains(x) || sj1.contains(x) by {
                    if sj1.contains(x) && x != t@ {
                        let k = choose|k: int| 0 <= k < sj1.len() && sj1[k] == x;
                        assert(sj[k] == x);
                    }
                    if sj.contains(x) {
                        let k = choose|k: int| 0 <= k < sj.len() && sj[k] == x;
                        assert(sj1[k] == x);
                    }
                    if x == t@ {
                        assert(sj1[j as int] == x);
                    }
                }
                assert forall|x: Seq<char>| #[trigger] freqs@.dom().contains(x) implies freqs@[x] == (if f0.dom().contains(x) { f0[x] as int } else { 0 }) + (if sj1.contains(x) { 1int } else { 0 }) by {
                    if x != t@ {
                        if sj1.contains(x) {
                            let k = choose|k: int| 0 <= k < sj1.len() && sj1[k] == x;
                            assert(sj[k] == x);
                        }
                        if sj.contains(x) {
                            let k = choose|k: int| 0 <= k < sj.len() && sj[k] == x;
                            assert(sj1[k] == x);
                        }
                    } else {
                        assert(sj1[j as int] == x);
                    }
                }
            }
            j = j + 1;
        }
        proof {
            let all = str_views(distinct@);
            assert(all.subrange(0, m as int) =~= all);
            assert forall|t: Seq<char>| all.contains(t) == ft.contains(t) by {
                assert(all.to_set().contains(t) == all.contains(t));
                assert(ft.to_set().contains(t) == ft.contains(t));
            }
            assert forall|t: Seq<char>| #[trigger] freqs@.dom().contains(t) <==> in_some_doc(pre1, t) by {
                if in_some_doc(pre1, t) {
                    let k = choose|k: int| 0 <= k < pre1.len() && keep_tokens(spec_tokens(#[trigger] pre1[k])).contains(t);
                    if k < i {
                        assert(pre[k] == pre1[k]);
                        assert(in_some_doc(pre, t));
                    }
                }
                if in_some_doc(pre, t) {
                    let k = choose|k: int| 0 <= k < pre.len() && keep_tokens(spec_tokens(#[trigger] pre[k])).contains(t);
                    assert(pre1[k] == pre[k]);
                }
                if ft.contains(t) {
                    assert(keep_tokens(spec_tokens(pre1[i as int])).contains(t));
                }
            }
            assert forall|t: Seq<char>| #[trigger] freqs@.dom().contains(t) implies freqs@[t] == doc_count(pre1, t) && freqs@[t] <= i + 1 by {
                if !f0.dom().contains(t) {
                    assert(!in_some_doc(pre, t));
                    lemma_doc_count_zero(pre, t);
                }
            }
        }
        i = i + 1;
    }
    proof {
        assert(docs.subrange(0, n as int) =~= docs);
    }
    freqs
}

proof fn lemma_doc_count_zero(docs: Seq<Seq<char>>, t: Seq<char>)
    requires
        !in_some_doc(docs, t),
    ensures
        doc_count(docs, t) == 0,
    decreases docs.len(),
{
    if docs.len() > 0 {
        assert(!in_some_doc(docs.drop_last(), t)) by {
            if in_some_doc(docs.drop_last(), t) {
                let k = choose|k: int| 0 <= k < docs.drop_last().len() && keep_tokens(spec_tokens(#[trigger] docs.drop_last()[k])).contains(t);
                assert(docs[k] == docs.drop_last()[k]);
            }
        }
        assert(!keep_tokens(spec_tokens(docs.last())).contains(t)) by {
            assert(docs[docs.len() - 1] == docs.last());
        }
        lemma_doc_count_zero(docs.drop_last(), t);
    }
}

/// Whether a document frequency lies in the band `[min_df, max_df_count]`.
pub open spec fn df_admitted(df: usize, min_df: usize, max_df_count: usize) -> bool {
    min_df <= df && df <= max_df_count
}

/// The keys of a list of `(term, frequency)` entries.
pub open spec fn entry_keys(v: Seq<(String, usize)>) -> Seq<Seq<char>> {
    v.map_values(|e: (String, usize)| e.0@)
}

/// Whether every entry of `v` is a term of `freqs` with its frequency, in the band.
pub open spec fn entries_admitted(
    v: Seq<(String, usize)>,
    freqs: Map<Seq<char>, usize>,
    min_df: usize,
    max_df_count: usize,
) -> bool {
    forall|i: int|
        0 <= i < v.len() ==> freqs.dom().contains(#[trigger] v[i].0@) && freqs[v[i].0@] == v[i].1
            && df_admitted(v[i].1, min_df, max_df_count)
}

/// The terms of `freqs` whose frequency lies in the band, each with its frequency.
fn admitted_entries(freqs: &StrMap<usize>, min_df: usize, max_df_count: usize) -> (r: Vec<(String, usize)>)
    ensures
        entries_admitted(r@, freqs@, min_df, max_df_count),
        entry_keys(r@).no_duplicates(),
        forall|k: Seq<char>|
            freqs@.dom().contains(k) && df_admitted(freqs@[k], min_df, max_df_count)
                ==> #[trigger] entry_keys(r@).contains(k),
{
    let n = freqs.len();
    let ghost pairs = freqs.pairs();
    proof {
        assert(freqs@ == pairs_map(pairs));
    }
    let mut r: Vec<(String, usize)> = Vec::new();
    let mut i: usize = 0;
    while i < n
        invariant
            i <= n,
            n == pairs.len(),
            pairs == freqs.pairs(),
            keys_unique(pairs),
            freqs@ == pairs_map(pairs),
            entries_admitted(r@, freqs@, min_df, max_df_count),
            entry_keys(r@).no_duplicates(),
            forall|a: int| 0 <= a < r.len() ==> has_key(pairs.subrange(0, i as int), #[trigger] r@[a].0@),
            forall|j: int|
                0 <= j < i && df_admitted(pairs[j].1, min_df, max_df_count) ==> #[trigger] entry_keys(r@).contains(pairs[j].0),
        decreases n - i,
    {
        let d = *freqs.value_at(i);
        if min_df <= d && d <= max_df_count {
            let k = copy_string(freqs.key_at(i));
            let ghost r0 = r@;
            proof {
                lemma_pairs_map_at(pairs, i as int);
            }
            r.push((k, d));
            proof {
                assert(entry_keys(r@) =~= entry_keys(r0).push(pairs[i as int].0));
                assert forall|a: int| 0 <= a < r0.len() implies entry_keys(r0)[a] != pairs[i as int].0 by {
                    assert(has_key(pairs.subrange(0, i as int), r0[a].0@));
                    let j = choose|j: int| 0 <= j < i && #[trigger] pairs.subrange(0, i as int)[j].0 == r0[a].0@;
                    assert(pairs[j].0 != pairs[i as int].0);
                }
                assert forall|a: int| 0 <= a < r.len() implies has_key(pairs.subrange(0, i + 1), #[trigger] r@[a].0@) by {
                    let p1 = pairs.subrange(0, i + 1);
                    if a < r0.len() {
                        assert(has_key(pairs.subrange(0, i as int), r0[a].0@));
                        let j = choose|j: int| 0 <= j < i && #[trigger] pairs.subrange(0, i as int)[j].0 == r0[a].0@;
                        assert(p1[j].0 == r@[a].0@);
                    } else {
                        assert(p1[i as int].0 == r@[a].0@);
                    }
                }
                assert forall|j: int|
                    0 <= j < i + 1 && df_admitted(pairs[j].1, min_df, max_df_count) implies #[trigger] entry_keys(r@).contains(pairs[j].0) by {
                    if j < i {
                        assert(entry_keys(r0).contains(pairs[j].0));
                        let a = choose|a: int| 0 <= a < entry_keys(r0).len() && entry_keys(r0)[a] == pairs[j].0;
                        assert(entry_keys(r@)[a] == pairs[j].0);
                    } else {
                        assert(entry_keys(r@)[r0.len() as int] == pairs[j].0);
                    }
                }
            }
        }
        i = i + 1;
    }
    proof {
        assert forall|k: Seq<char>|
            freqs@.dom().contains(k) && df_admitted(freqs@[k], min_df, max_df_count)
                implies #[trigger] entry_keys(r@).contains(k) by {
            let j = choose|j: int| 0 <= j < pairs.len() && #[trigger] pairs[j].0 == k;
            lemma_pairs_map_at(pairs, j);
        }
    }
    r
}

/// The vocabulary kept from the document frequencies `freqs`: the terms whose
/// frequency lies in `[min_df, max_df_count]`, most frequent first, at most
/// `max_features` of them.  Among terms of equal frequency the choice is free.
pub fn select_vocabulary(freqs: &StrMap<usize>, min_df: usize, max_df_count: usize, max_features: usize) -> (r: Vec<(String, usize)>)
    ensures
        r.len() <= max_features,
        entries_admitted(r@, freqs@, min_df, max_df_count),
        entry_keys(r@).no_duplicates(),
        forall|i: int, j: int| 0 <= i < j < r.len() ==> r@[i].1 >= r@[j].1,
        forall|k: Seq<char>|
            freqs@.dom().contains(k) && df_admitted(freqs@[k], min_df, max_df_count)
                && !(#[trigger] entry_keys(r@).contains(k)) ==> r.len() == max_features && forall|i: int|
                0 <= i < r.len() ==> freqs@[k] <= r@[i].1,
{
    let v = admitted_entries(freqs, min_df, max_df_count);
    let n = v.len();
    let mut used: Vec<bool> = Vec::new();
    let mut t: usize = 0;
    while t < n
        invariant
            t <= n,
            used@.len() == t,
            forall|x: int| 0 <= x < t ==> !used@[x],
        decreases n - t,
    {
        used.push(false);
        t = t + 1;
    }
    let mut out: Vec<(String, usize)> = Vec::new();
    let ghost mut sel: Seq<int> = Seq::empty();
    let mut done = false;
    while !done && out.len() < max_features
        invariant
            n == v@.len(),
            used@.len() == n,
            entries_admitted(v@, freqs@, min_df, max_df_count),
            entry_keys(v@).no_duplicates(),
            out.len() <= max_features,
            sel.len() == out.len(),
            forall|a: int| 0 <= a < sel.len() ==> 0 <= #[trigger] sel[a] < n && used@[sel[a]],
            forall|a: int|
                0 <= a < sel.len() ==> (#[trigger] out@[a]).0@ == v@[sel[a]].0@ && out@[a].1 == v@[sel[a]].1,
            forall|a: int, b: int| 0 <= a < b < sel.len() ==> #[trigger] sel[a] != #[trigger] sel[b],
            forall|x: int| 0 <= x < n && #[trigger] used@[x] ==> exists|a: int| 0 <= a < sel.len() && sel[a] == x,
            forall|a: int, b: int| 0 <= a < b < out.len() ==> out@[a].1 >= out@[b].1,
            forall|a: int, x: int| 0 <= a < out.len() && 0 <= x < n && !used@[x] ==> #[trigger] v@[x].1 <= #[trigger] out@[a].1,
            done ==> forall|x: int| 0 <= x < n ==> #[trigger] used@[x],
        decreases max_features - out.len(), if done { 0int } else { 1int },
    {
        let mut best: Option<usize> = None;
        let mut x: usize = 0;
        while x < n
            invariant
                x <= n,
                n == v@.len(),
                used@.len() == n,
                best matches Some(b) ==> b < x && !used@[b as int] && forall|y: int|
                    0 <= y < x && !used@[y] ==> v@[y].1 <= v@[b as int].1,
                best is None ==> forall|y: int| 0 <= y < x ==> #[trigger] used@[y],
            decreases n - x,
        {
            if !used[x] {
                match best {
                    Some(b) => {
                        if v[x].1 > v[b].1 {
                            best = Some(x);
                        }
                    },
                    None => {
                        best = Some(x);
                    },
                }
            }
            x = x + 1;
        }
        match best {
            None => {
                done = true;
            },
            Some(b) => {
                let ghost used0 = used@;
                let ghost out0 = out@;
                let ghost sel0 = sel;
                let k = copy_string(&v[b].0);
                out.push((k, v[b].1));
                used.set(b, true);
                proof {
                    sel = sel.push(b as int);
                    assert forall|y: int| 0 <= y < n && #[trigger] used@[y] implies exists|a: int| 0 <= a < sel.len() && sel[a] == y by {
                        if y != b {
                            assert(used0[y]);
                            let a = choose|a: int| 0 <= a < sel0.len() && sel0[a] == y;
                            assert(sel[a] == y);
                        } else {
                            assert(sel[sel0.len() as int] == y);
                        }
                    }
                    assert forall|a: int, c: int| 0 <= a < c < sel.len() implies #[trigger] sel[a] != #[trigger] sel[c] by {
                        if c == sel0.len() {
                            assert(used0[sel0[a]]);
                        }
                    }
                    assert forall|a: int| 0 <= a < sel.len() implies (#[trigger] out@[a]).0@ == v@[sel[a]].0@ && out@[a].1 == v@[sel[a]].1 by {
                        if a < sel0.len() {
                            assert(out@[a] == out0[a]);
                        }
                    }
                    assert forall|a: int, c: int| 0 <= a < c < out.len() implies out@[a].1 >= out@[c].1 by {
                        if c == out0.len() {
                            assert(out@[a] == out0[a]);
                            assert(!used0[b as int]);
                            assert(v@[b as int].1 <= out0[a].1);
                        } else {
                            assert(out@[a] == out0[a] && out@[c] == out0[c]);
                        }
                    }
                    assert forall|a: int, y: int| 0 <= a < out.len() && 0 <= y < n && !used@[y] implies #[trigger] v@[y].1 <= #[trigger] out@[a].1 by {
                        assert(!used0[y]);
                        if a < out0.len() {
                            assert(out@[a] == out0[a]);
                        }
                    }
                }
            },
        }
    }
    proof {
        assert forall|a: int| 0 <= a < out.len() implies freqs@.dom().contains(#[trigger] out@[a].0@) && freqs@[out@[a].0@] == out@[a].1
            && df_admitted(out@[a].1, min_df, max_df_count) by {
            assert(v@[sel[a]].0@ == out@[a].0@);
        }
        assert forall|a: int, c: int| 0 <= a < entry_keys(out@).len() && 0 <= c < entry_keys(out@).len() && a != c
            implies entry_keys(out@)[a] != entry_keys(out@)[c] by {
            assert(entry_keys(v@)[sel[a]] == out@[a].0@);
            assert(entry_keys(v@)[sel[c]] == out@[c].0@);
            if a < c {
                assert(sel[a] != sel[c]);
            } else {
                assert(sel[c] != sel[a]);
            }
        }
        assert forall|k: Seq<char>|
            freqs@.dom().contains(k) && df_admitted(freqs@[k], min_df, max_df_count)
                && !(#[trigger] entry_keys(out@).contains(k)) implies out.len() == max_features && forall|i: int|
                0 <= i < out.len() ==> freqs@[k] <= out@[i].1 by {
            assert(entry_keys(v@).contains(k));
            let y = choose|y: int| 0 <= y < entry_keys(v@).len() && entry_keys(v@)[y] == k;
            assert(v@[y].0@ == k);
            if used@[y] {
                let a = choose|a: int| 0 <= a < sel.len() && sel[a] == y;
                assert(entry_keys(out@)[a] == out@[a].0@);
                assert(entry_keys(out@).contains(k));
            }
            assert(!done);
            assert forall|i: int| 0 <= i < out.len() implies freqs@[k] <= out@[i].1 by {
                assert(v@[y].1 <= out@[i].1);
            }
        }
    }
    out
}

/// The vocabulary of a corpus: the document frequencies of `documents`, cut to
/// the band `[min_df, max_df_count]` and to the `max_features` most frequent
/// terms by [`select_vocabulary`].  An empty corpus is refused.
pub fn fit_vocabulary(
    tokenizer: &SimpleTokenizer,
    documents: &[&str],
    min_df: usize,
    max_df_count: usize,
    max_features: usize,
) -> (r: Result<Vec<(String, usize)>, String>)
    ensures
        r is Err <==> documents@.len() == 0,
        r matches Err(e) ==> e@ == "Cannot fit model with empty documents"@,
        r matches Ok(v) ==> {
            let docs = documents@.map_values(|d: &str| d@);
            &&& v.len() <= max_features
            &&& entry_keys(v@).no_duplicates()
            &&& forall|i: int, j: int| 0 <= i < j < v.len() ==> v@[i].1 >= v@[j].1
            &&& forall|i: int|
                0 <= i < v.len() ==> in_some_doc(docs, #[trigger] v@[i].0@) && v@[i].1 == doc_count(docs, v@[i].0@)
                    && df_admitted(v@[i].1, min_df, max_df_count)
            &&& forall|k: Seq<char>|
                in_some_doc(docs, k) && df_admitted(doc_count(docs, k) as usize, min_df, max_df_count)
                    && !(#[trigger] entry_keys(v@).contains(k)) ==> v.len() == max_features && forall|i: int|
                    0 <= i < v.len() ==> doc_count(docs, k) <= v@[i].1
        },
{
    if documents.len() == 0 {
        return Err("Cannot fit model with empty documents".to_string());
    }
    let freqs = document_frequencies(tokenizer, documents);
    let v = select_vocabulary(&freqs, min_df, max_df_count, max_features);
    proof {
        let docs = documents@.map_values(|d: &str| d@);
        assert forall|i: int|
            0 <= i < v.len() implies in_some_doc(docs, #[trigger] v@[i].0@) && v@[i].1 == doc_count(docs, v@[i].0@)
                && df_admitted(v@[i].1, min_df, max_df_count) by {
            assert(freqs@.dom().contains(v@[i].0@));
        }
        assert forall|k: Seq<char>|
            in_some_doc(docs, k) && df_admitted(doc_count(docs, k) as usize, min_df, max_df_count)
                && !(#[trigger] entry_keys(v@).contains(k)) implies v.len() == max_features && forall|i: int|
                0 <= i < v.len() ==> doc_count(docs, k) <= v@[i].1 by {
            assert(freqs@.dom().contains(k));
        }
    }
    Ok(v)
}

/// The distinct strings of `v`, in order of first occurrence.
fn distinct_strings(v: &Vec<String>) -> (r: Vec<String>)
    ensures
        str_views(r@).no_duplicates(),
        str_views(r@).to_set() == str_views(v@).to_set(),
{
    let mut r: Vec<String> = Vec::new();
    let n = v.len();
    let mut i: usize = 0;
    while i < n
        invariant
            i <= n,
            n == v@.len(),
            str_views(r@).no_duplicates(),
            str_views(r@).to_set() == str_views(v@).subrange(0, i as int).to_set(),
        decreases n - i,
    {
        crate::knowledge::embedding::vector::storage::add_distinct(&mut r, &v[i]);
        proof {
            let p0 = str_views(v@).subrange(0, i as int);
            assert(str_views(v@).subrange(0, i + 1) =~= p0.push(v@[i as int]@));
            crate::knowledge::embedding::vector::storage::lemma_to_set_push(p0, v@[i as int]@);
        }
        i = i + 1;
    }
    proof {
        assert(str_views(v@).subrange(0, n as int) =~= str_views(v@));
    }
    r
}

} // verus!
