//! A small map keyed by text, kept in insertion order.
//!
//! Keys are compared by their characters.  Each key occurs at most once;
//! inserting an existing key replaces its value in place.
use vstd::prelude::*;
use crate::text::{copy_string, str_eq};

verus! {

/// Entries `(key, value)` with pairwise different keys, in insertion order: the
/// keys and the values are kept side by side.
#[derive(Debug)]
pub struct StrMap<V> {
    keys: Vec<String>,
    vals: Vec<V>,
}

/// Whether the keys of `pairs` are pairwise different.
pub open spec fn keys_unique<V>(pairs: Seq<(Seq<char>, V)>) -> bool {
    forall|i: int, j: int|
        0 <= i < pairs.len() && 0 <= j < pairs.len() && i != j ==> #[trigger] pairs[i].0
            != #[trigger] pairs[j].0
}

/// Whether `k` is one of the keys of `pairs`.
pub open spec fn has_key<V>(pairs: Seq<(Seq<char>, V)>, k: Seq<char>) -> bool {
    exists|i: int| 0 <= i < pairs.len() && #[trigger] pairs[i].0 == k
}

/// The map that a sequence of pairs with distinct keys stands for.
pub open spec fn pairs_map<V>(pairs: Seq<(Seq<char>, V)>) -> Map<Seq<char>, V> {
    Map::new(
        |k: Seq<char>| has_key(pairs, k),
        |k: Seq<char>| pairs[choose|i: int| 0 <= i < pairs.len() && #[trigger] pairs[i].0 == k].1,
    )
}

/// Looking up a key present at index `i` of a key-unique sequence gives its value.
pub proof fn lemma_pairs_map_at<V>(pairs: Seq<(Seq<char>, V)>, i: int)
    requires
        keys_unique(pairs),
        0 <= i < pairs.len(),
    ensures
        pairs_map(pairs).dom().contains(pairs[i].0),
        pairs_map(pairs)[pairs[i].0] == pairs[i].1,
{
    let k = pairs[i].0;
    assert(has_key(pairs, k));
    let j = choose|j: int| 0 <= j < pairs.len() && #[trigger] pairs[j].0 == k;
    assert(pairs[j].0 == pairs[i].0);
}

/// A key-unique sequence of pairs stands for a map with as many keys as pairs.
pub proof fn lemma_pairs_map_len<V>(pairs: Seq<(Seq<char>, V)>)
    requires
        keys_unique(pairs),
    ensures
        pairs_map(pairs).dom().len() == pairs.len(),
{
    let keys = pairs.map_values(|p: (Seq<char>, V)| p.0);
    assert(keys.no_duplicates()) by {
        assert forall|i: int, j: int| 0 <= i < keys.len() && 0 <= j < keys.len() && i != j implies keys[i] != keys[j] by {
            assert(pairs[i].0 != pairs[j].0);
        }
    }
    keys.unique_seq_to_set();
    assert forall|k: Seq<char>| pairs_map(pairs).dom().contains(k) <==> keys.to_set().contains(k) by {
        if has_key(pairs, k) {
            let i = choose|i: int| 0 <= i < pairs.len() && #[trigger] pairs[i].0 == k;
            assert(keys[i] == k);
        }
        if keys.contains(k) {
            let i = choose|i: int| 0 <= i < keys.len() && keys[i] == k;
            assert(pairs[i].0 == k);
        }
    }
    assert(pairs_map(pairs).dom() =~= keys.to_set());
}

/// `keys` and `vals` list the entries of the finite map `m` side by side: each
/// key of `m` occurs once in `keys`, and its value stands at the same index of `vals`.
pub open spec fn seq_linked<V>(keys: Seq<Seq<char>>, vals: Seq<V>, m: Map<Seq<char>, V>) -> bool {
    &&& keys.len() == vals.len()
    &&& keys.no_duplicates()
    &&& m.dom().finite()
    &&& m.dom().len() == keys.len()
    &&& forall|i: int| 0 <= i < keys.len() ==> m.dom().contains(#[trigger] keys[i]) && m[keys[i]] == vals[i]
    &&& forall|k: Seq<char>| #[trigger] m.dom().contains(k) ==> keys.contains(k)
}

/// The keys of a sequence of pairs, in order.
pub open spec fn pair_keys<V>(pairs: Seq<(Seq<char>, V)>) -> Seq<Seq<char>> {
    pairs.map_values(|p: (Seq<char>, V)| p.0)
}

/// The values of a sequence of pairs, in order.
pub open spec fn pair_values<V>(pairs: Seq<(Seq<char>, V)>) -> Seq<V> {
    pairs.map_values(|p: (Seq<char>, V)| p.1)
}

/// The keys and values of a key-unique sequence of pairs list the entries of
/// the map it stands for.
pub proof fn lemma_pairs_linked<V>(pairs: Seq<(Seq<char>, V)>)
    requires
        keys_unique(pairs),
    ensures
        seq_linked(pair_keys(pairs), pair_values(pairs), pairs_map(pairs)),
{
    let keys = pair_keys(pairs);
    let m = pairs_map(pairs);
    lemma_pairs_map_len(pairs);
    assert(keys.no_duplicates()) by {
        assert forall|i: int, j: int| 0 <= i < keys.len() && 0 <= j < keys.len() && i != j implies keys[i] != keys[j] by {
            assert(pairs[i].0 != pairs[j].0);
        }
    }
    assert(m.dom() =~= keys.to_set()) by {
        assert forall|k: Seq<char>| m.dom().contains(k) <==> keys.to_set().contains(k) by {
            if has_key(pairs, k) {
                let i = choose|i: int| 0 <= i < pairs.len() && #[trigger] pairs[i].0 == k;
                assert(keys[i] == k);
            }
            if keys.contains(k) {
                let i = choose|i: int| 0 <= i < keys.len() && keys[i] == k;
                assert(pairs[i].0 == k);
            }
        }
    }
    vstd::seq_lib::seq_to_set_is_finite(keys);
    assert forall|i: int| 0 <= i < keys.len() implies m.dom().contains(#[trigger] keys[i]) && m[keys[i]] == pair_values(pairs)[i] by {
        lemma_pairs_map_at(pairs, i);
    }
    assert forall|k: Seq<char>| #[trigger] m.dom().contains(k) implies keys.contains(k) by {
        assert(keys.to_set().contains(k));
    }
}

/// Replacing the value of the entry at `i` of a key-unique sequence keeps the
/// keys unique and stores the value under that entry's key.
pub proof fn lemma_pairs_update<V>(pairs: Seq<(Seq<char>, V)>, i: int, v: V)
    requires
        keys_unique(pairs),
        0 <= i < pairs.len(),
    ensures
        keys_unique(pairs.update(i, (pairs[i].0, v))),
        pairs_map(pairs.update(i, (pairs[i].0, v))) == pairs_map(pairs).insert(pairs[i].0, v),
{
    let k = pairs[i].0;
    let np = pairs.update(i, (k, v));
    assert forall|a: int, b: int| 0 <= a < np.len() && 0 <= b < np.len() && a != b implies #[trigger] np[a].0
        != #[trigger] np[b].0 by {
        assert(pairs[a].0 != pairs[b].0);
    }
    assert forall|x: Seq<char>| #[trigger] pairs_map(np).dom().contains(x) <==> pairs_map(pairs).insert(k, v).dom().contains(x) by {
        if has_key(pairs, x) {
            let j = choose|j: int| 0 <= j < pairs.len() && #[trigger] pairs[j].0 == x;
            assert(np[j].0 == x);
        }
        if has_key(np, x) {
            let j = choose|j: int| 0 <= j < np.len() && #[trigger] np[j].0 == x;
            assert(pairs[j].0 == x);
        }
    }
    assert forall|x: Seq<char>| #[trigger] pairs_map(np).dom().contains(x) implies pairs_map(np)[x] == pairs_map(pairs).insert(k, v)[x] by {
        let j = choose|j: int| 0 <= j < np.len() && #[trigger] np[j].0 == x;
        lemma_pairs_map_at(np, j);
        if j != i {
            lemma_pairs_map_at(pairs, j);
        }
    }
    assert(pairs_map(np) =~= pairs_map(pairs).insert(k, v));
}

/// Appending an entry with a new key keeps the keys unique and adds the entry.
pub proof fn lemma_pairs_push<V>(pairs: Seq<(Seq<char>, V)>, k: Seq<char>, v: V)
    requires
        keys_unique(pairs),
        !has_key(pairs, k),
    ensures
        keys_unique(pairs.push((k, v))),
        pairs_map(pairs.push((k, v))) == pairs_map(pairs).insert(k, v),
{
    let np = pairs.push((k, v));
    assert forall|a: int, b: int| 0 <= a < np.len() && 0 <= b < np.len() && a != b implies #[trigger] np[a].0
        != #[trigger] np[b].0 by {
        if a < pairs.len() && b < pairs.len() {
            assert(pairs[a].0 != pairs[b].0);
        } else if a < pairs.len() {
            assert(pairs[a].0 != k);
        } else {
            assert(pairs[b].0 != k);
        }
    }
    assert forall|x: Seq<char>| #[trigger] pairs_map(np).dom().contains(x) <==> pairs_map(pairs).insert(k, v).dom().contains(x) by {
        if has_key(pairs, x) {
            let j = choose|j: int| 0 <= j < pairs.len() && #[trigger] pairs[j].0 == x;
            assert(np[j].0 == x);
        }
        if x == k {
            assert(np[pairs.len() as int].0 == x);
        }
        if has_key(np, x) {
            let j = choose|j: int| 0 <= j < np.len() && #[trigger] np[j].0 == x;
            if j < pairs.len() {
                assert(pairs[j].0 == x);
            }
        }
    }
    assert forall|x: Seq<char>| #[trigger] pairs_map(np).dom().contains(x) implies pairs_map(np)[x] == pairs_map(pairs).insert(k, v)[x] by {
        let j = choose|j: int| 0 <= j < np.len() && #[trigger] np[j].0 == x;
        lemma_pairs_map_at(np, j);
        if j < pairs.len() {
            lemma_pairs_map_at(pairs, j);
        }
    }
    assert(pairs_map(np) =~= pairs_map(pairs).insert(k, v));
}

/// Dropping the entry at `i` keeps the keys unique and removes its key.
pub proof fn lemma_pairs_remove<V>(pairs: Seq<(Seq<char>, V)>, i: int)
    requires
        keys_unique(pairs),
        0 <= i < pairs.len(),
    ensures
        keys_unique(pairs.remove(i)),
        pairs_map(pairs.remove(i)) == pairs_map(pairs).remove(pairs[i].0),
{
    let k = pairs[i].0;
    let np = pairs.remove(i);
    assert forall|a: int, b: int| 0 <= a < np.len() && 0 <= b < np.len() && a != b implies #[trigger] np[a].0
        != #[trigger] np[b].0 by {
        let a2 = if a < i { a } else { a + 1 };
        let b2 = if b < i { b } else { b + 1 };
        assert(np[a] == pairs[a2]);
        assert(np[b] == pairs[b2]);
        assert(pairs[a2].0 != pairs[b2].0);
    }
    assert forall|x: Seq<char>| #[trigger] pairs_map(np).dom().contains(x) <==> (pairs_map(pairs).dom().contains(x) && x != k) by {
        if has_key(np, x) {
            let j = choose|j: int| 0 <= j < np.len() && #[trigger] np[j].0 == x;
            if j < i {
                assert(pairs[j].0 == x);
                assert(pairs[j].0 != pairs[i].0);
            } else {
                assert(pairs[j + 1].0 == x);
                assert(pairs[j + 1].0 != pairs[i].0);
            }
        }
        if has_key(pairs, x) && x != k {
            let j = choose|j: int| 0 <= j < pairs.len() && #[trigger] pairs[j].0 == x;
            if j < i {
                assert(np[j].0 == x);
            } else {
                assert(np[j - 1].0 == x);
            }
        }
    }
    assert forall|x: Seq<char>| #[trigger] pairs_map(np).dom().contains(x) implies pairs_map(np)[x] == pairs_map(pairs).remove(k)[x] by {
        let j = choose|j: int| 0 <= j < np.len() && #[trigger] np[j].0 == x;
        lemma_pairs_map_at(np, j);
        if j < i {
            lemma_pairs_map_at(pairs, j);
        } else {
            lemma_pairs_map_at(pairs, j + 1);
        }
    }
    assert(pairs_map(np) =~= pairs_map(pairs).remove(k));
}

/// Keys and values side by side, keys taken by their characters.
pub open spec fn zip_pairs<V>(keys: Seq<String>, vals: Seq<V>) -> Seq<(Seq<char>, V)> {
    Seq::new(keys.len(), |i: int| (keys[i]@, vals[i]))
}

/// Whether the keys are pairwise different, by characters.
pub open spec fn keys_distinct(keys: Seq<String>) -> bool {
    forall|i: int, j: int| 0 <= i < keys.len() && 0 <= j < keys.len() && i != j ==> #[trigger] keys[i]@ != #[trigger] keys[j]@
}

/// Distinct keys make key-unique pairs, and back.
proof fn lemma_zip_unique<V>(keys: Seq<String>, vals: Seq<V>)
    ensures
        keys_distinct(keys) <==> keys_unique(zip_pairs(keys, vals)),
{
    let z = zip_pairs(keys, vals);
    if keys_distinct(keys) {
        assert forall|a: int, b: int| 0 <= a < z.len() && 0 <= b < z.len() && a != b implies #[trigger] z[a].0 != #[trigger] z[b].0 by {
            assert(keys[a]@ != keys[b]@);
        }
    }
    if keys_unique(z) {
        assert forall|a: int, b: int| 0 <= a < keys.len() && 0 <= b < keys.len() && a != b implies #[trigger] keys[a]@ != #[trigger] keys[b]@ by {
            assert(z[a].0 != z[b].0);
        }
    }
}

/// Replacing one value changes the map at that value's key only.
proof fn lemma_zip_update<V>(keys: Seq<String>, vals: Seq<V>, i: int, v: V)
    requires
        keys_distinct(keys),
        keys.len() == vals.len(),
        0 <= i < keys.len(),
    ensures
        pairs_map(zip_pairs(keys, vals.update(i, v))) == pairs_map(zip_pairs(keys, vals)).insert(keys[i]@, v),
{
    lemma_zip_unique(keys, vals);
    let z = zip_pairs(keys, vals);
    assert(zip_pairs(keys, vals.update(i, v)) =~= z.update(i, (z[i].0, v)));
    lemma_pairs_update(z, i, v);
}

impl<V> StrMap<V> {
    /// The entries with keys taken by their characters, in insertion order.
    pub closed spec fn pairs(&self) -> Seq<(Seq<char>, V)> {
        zip_pairs(self.keys@, self.vals@)
    }

    #[verifier::type_invariant]
    closed spec fn wf(&self) -> bool {
        &&& self.keys@.len() == self.vals@.len()
        &&& keys_distinct(self.keys@)
    }

    /// The keys of a well-formed map are unique.
    proof fn lemma_wf_unique(&self)
        requires
            self.wf(),
        ensures
            keys_unique(self.pairs()),
            self.pairs().len() == self.vals@.len(),
    {
        lemma_zip_unique(self.keys@, self.vals@);
    }

    /// An empty map.
    pub fn new() -> (m: Self)
        ensures
            m.pairs() == Seq::<(Seq<char>, V)>::empty(),
            m@ == Map::<Seq<char>, V>::empty(),
    {
        let m = StrMap { keys: Vec::new(), vals: Vec::new() };
        assert(m.pairs() =~= Seq::<(Seq<char>, V)>::empty());
        assert(m@ =~= Map::<Seq<char>, V>::empty());
        m
    }

    /// Number of entries.
    pub fn len(&self) -> (n: usize)
        ensures
            n == self.pairs().len(),
            n == self@.dom().len(),
            keys_unique(self.pairs()),
    {
        proof {
            use_type_invariant(self);
            self.lemma_wf_unique();
            lemma_pairs_map_len(self.pairs());
        }
        self.keys.len()
    }

    /// Whether the map has no entry.
    pub fn is_empty(&self) -> (b: bool)
        ensures
            b == (self.pairs().len() == 0),
    {
        self.keys.len() == 0
    }

    /// Index of the entry with key `k`, if any.
    pub fn position(&self, k: &str) -> (r: Option<usize>)
        ensures
            r is None <==> !has_key(self.pairs(), k@),
            r matches Some(i) ==> i < self.pairs().len() && self.pairs()[i as int].0 == k@,
    {
        let n = self.keys.len();
        let mut i: usize = 0;
        while i < n
            invariant
                i <= n,
                n == self.keys@.len(),
                forall|j: int| 0 <= j < i ==> self.pairs()[j].0 != k@,
            decreases n - i,
        {
            if str_eq(self.keys[i].as_str(), k) {
                assert(self.pairs()[i as int].0 == k@);
                return Some(i);
            }
            i = i + 1;
        }
        None
    }

    /// Key of the entry at index `i`.
    pub fn key_at(&self, i: usize) -> (k: &String)
        requires
            i < self.pairs().len(),
        ensures
            k@ == self.pairs()[i as int].0,
    {
        &self.keys[i]
    }

    /// Value of the entry at index `i`.
    pub fn value_at(&self, i: usize) -> (v: &V)
        requires
            i < self.pairs().len(),
        ensures
            *v == self.pairs()[i as int].1,
    {
        proof {
            use_type_invariant(self);
            self.lemma_wf_unique();
        }
        &self.vals[i]
    }

    /// Whether `k` is a key.
    pub fn contains_key(&self, k: &str) -> (b: bool)
        ensures
            b == self@.dom().contains(k@),
    {
        self.position(k).is_some()
    }

    /// The value stored under `k`.
    pub fn get(&self, k: &str) -> (r: Option<&V>)
        ensures
            r is Some <==> self@.dom().contains(k@),
            r matches Some(v) ==> *v == self@[k@],
            keys_unique(self.pairs()),
    {
        proof {
            use_type_invariant(self);
            self.lemma_wf_unique();
        }
        match self.position(k) {
            Some(i) => {
                proof {
                    lemma_pairs_map_at(self.pairs(), i as int);
                }
                Some(&self.vals[i])
            },
            None => None,
        }
    }

    /// The value stored under `k`, to be changed in place; the keys stay as they are.
    pub fn get_mut(&mut self, k: &str) -> (r: Option<&mut V>)
        ensures
            r is Some <==> old(self)@.dom().contains(k@),
            r matches Some(v) ==> *v == old(self)@[k@] && final(self)@ == old(self)@.insert(k@, *final(v))
                && final(self).pairs().len() == old(self).pairs().len(),
            r matches Some(v) ==> exists|i: int|
                0 <= i < old(self).pairs().len() && old(self).pairs()[i].0 == k@ && final(self).pairs()
                    == old(self).pairs().update(i, (k@, *final(v))),
            r matches Some(v) ==> pair_keys(final(self).pairs()) == pair_keys(old(self).pairs()) && pair_values(
                final(self).pairs(),
            ) == pair_values(old(self).pairs()).update(pair_keys(old(self).pairs()).index_of(k@), *final(v)),
            r is None ==> final(self)@ == old(self)@ && final(self).pairs() == old(self).pairs(),
            keys_unique(old(self).pairs()),
            keys_unique(final(self).pairs()),
            seq_linked(pair_keys(final(self).pairs()), pair_values(final(self).pairs()), final(self)@),
    {
        proof {
            use_type_invariant(&*self);
            self.lemma_wf_unique();
            lemma_pairs_linked(self.pairs());
        }
        let ghost old_pairs = self.pairs();
        match self.position(k) {
            Some(i) => {
                proof {
                    lemma_pairs_map_at(old_pairs, i as int);
                    lemma_pairs_update(old_pairs, i as int, old_pairs[i as int].1);
                }
                let ghost keys = self.keys@;
                let ghost vals = self.vals@;
                let r = &mut self.vals[i];
                proof {
                    lemma_zip_update(keys, vals, i as int, *final(r));
                    assert(zip_pairs(keys, vals.update(i as int, *final(r))) =~= old_pairs.update(
                        i as int,
                        (k@, *final(r)),
                    ));
                    lemma_pairs_update(old_pairs, i as int, *final(r));
                    let np = zip_pairs(keys, vals.update(i as int, *final(r)));
                    lemma_pairs_linked(np);
                    let ok = pair_keys(old_pairs);
                    assert(ok[i as int] == k@);
                    assert(ok.contains(k@));
                    assert(ok[ok.index_of(k@)] == k@);
                    assert(ok.index_of(k@) == i as int);
                    assert(pair_keys(np) =~= ok);
                    assert(pair_values(np) =~= pair_values(old_pairs).update(i as int, *final(r)));
                }
                Some(r)
            },
            None => None,
        }
    }

    /// Stores `v` under `k`, replacing (in place) any earlier value of `k`.
    pub fn insert(&mut self, k: String, v: V)
        ensures
            final(self)@ == old(self)@.insert(k@, v),
            has_key(old(self).pairs(), k@) ==> final(self).pairs() == old(self).pairs().update(
                choose|i: int| 0 <= i < old(self).pairs().len() && #[trigger] old(self).pairs()[i].0 == k@,
                (k@, v),
            ),
            !has_key(old(self).pairs(), k@) ==> final(self).pairs() == old(self).pairs().push(
                (k@, v),
            ),
            keys_unique(old(self).pairs()),
            keys_unique(final(self).pairs()),
    {
        proof {
            use_type_invariant(&*self);
            self.lemma_wf_unique();
        }
        let ghost old_pairs = self.pairs();
        let ghost vv = v;
        match self.position(k.as_str()) {
            Some(i) => {
                let ghost c = choose|j: int| 0 <= j < old_pairs.len() && #[trigger] old_pairs[j].0 == k@;
                assert(c == i);
                proof {
                    lemma_pairs_update(old_pairs, i as int, v);
                }
                let mut tmp = StrMap::new();
                std::mem::swap(self, &mut tmp);
                let StrMap { keys, mut vals } = tmp;
                vals.set(i, v);
                proof {
                    assert(zip_pairs(keys@, vals@) =~= old_pairs.update(i as int, (k@, vv)));
                    lemma_zip_unique(keys@, vals@);
                }
                *self = StrMap { keys, vals };
            },
            None => {
                proof {
                    lemma_pairs_push(old_pairs, k@, v);
                }
                let ghost kv = k@;
                let mut tmp = StrMap::new();
                std::mem::swap(self, &mut tmp);
                let StrMap { mut keys, mut vals } = tmp;
                keys.push(k);
                vals.push(v);
                proof {
                    assert(zip_pairs(keys@, vals@) =~= old_pairs.push((kv, vv)));
                    lemma_zip_unique(keys@, vals@);
                }
                *self = StrMap { keys, vals };
            },
        }
    }

    /// Removes the entry of `k`, returning its value; the other entries keep their order.
    pub fn remove(&mut self, k: &str) -> (r: Option<V>)
        ensures
            final(self)@ == old(self)@.remove(k@),
            r is Some <==> old(self)@.dom().contains(k@),
            r matches Some(v) ==> v == old(self)@[k@],
            has_key(old(self).pairs(), k@) ==> final(self).pairs() == old(self).pairs().remove(
                choose|i: int| 0 <= i < old(self).pairs().len() && #[trigger] old(self).pairs()[i].0 == k@,
            ),
            !has_key(old(self).pairs(), k@) ==> final(self).pairs() == old(self).pairs(),
            keys_unique(old(self).pairs()),
            keys_unique(final(self).pairs()),
    {
        proof {
            use_type_invariant(&*self);
            self.lemma_wf_unique();
        }
        let ghost old_pairs = self.pairs();
        match self.position(k) {
            Some(i) => {
                let ghost c = choose|j: int| 0 <= j < old_pairs.len() && #[trigger] old_pairs[j].0 == k@;
                assert(c == i);
                proof {
                    lemma_pairs_map_at(old_pairs, i as int);
                    lemma_pairs_remove(old_pairs, i as int);
                }
                let mut tmp = StrMap::new();
                std::mem::swap(self, &mut tmp);
                let StrMap { mut keys, mut vals } = tmp;
                keys.remove(i);
                let v = vals.remove(i);
                proof {
                    assert(zip_pairs(keys@, vals@) =~= old_pairs.remove(i as int));
                    lemma_zip_unique(keys@, vals@);
                }
                *self = StrMap { keys, vals };
                Some(v)
            },
            None => {
                proof {
                    assert(pairs_map(old_pairs).remove(k@) =~= pairs_map(old_pairs));
                }
                None
            },
        }
    }

    /// Removes every entry.
    pub fn clear(&mut self)
        ensures
            final(self).pairs() == Seq::<(Seq<char>, V)>::empty(),
            final(self)@ == Map::<Seq<char>, V>::empty(),
    {
        *self = StrMap::new();
    }
}

impl<V: Clone> Clone for StrMap<V> {
    /// A map with the same keys, in the same order, and clones of the values.
    fn clone(&self) -> (r: Self)
        ensures
            r.pairs().len() == self.pairs().len(),
            forall|i: int| 0 <= i < self.pairs().len() ==> #[trigger] r.pairs()[i].0 == self.pairs()[i].0,
            r@.dom() == self@.dom(),
    {
        proof {
            use_type_invariant(self);
            self.lemma_wf_unique();
        }
        let n = self.keys.len();
        let mut keys: Vec<String> = Vec::new();
        let mut vals: Vec<V> = Vec::new();
        let mut i: usize = 0;
        while i < n
            invariant
                i <= n,
                n == self.pairs().len(),
                n == self.keys@.len(),
                n == self.vals@.len(),
                keys_unique(self.pairs()),
                keys@.len() == i,
                vals@.len() == i,
                forall|j: int| 0 <= j < i ==> #[trigger] keys@[j]@ == self.pairs()[j].0,
            decreases n - i,
        {
            let k = copy_string(&self.keys[i]);
            let v = self.vals[i].clone();
            let ghost k0 = keys@;
            keys.push(k);
            vals.push(v);
            proof {
                assert forall|j: int| 0 <= j < i + 1 implies #[trigger] keys@[j]@ == self.pairs()[j].0 by {
                    if j < i {
                        assert(keys@[j] == k0[j]);
                    }
                }
            }
            i = i + 1;
        }
        proof {
            let np = zip_pairs(keys@, vals@);
            assert forall|a: int, b: int| 0 <= a < np.len() && 0 <= b < np.len() && a != b implies #[trigger] np[a].0
                != #[trigger] np[b].0 by {
                assert(np[a].0 == self.pairs()[a].0 && np[b].0 == self.pairs()[b].0);
            }
            lemma_zip_unique(keys@, vals@);
        }
        let r = StrMap { keys, vals };
        proof {
            assert forall|x: Seq<char>| has_key(r.pairs(), x) <==> has_key(self.pairs(), x) by {
                if has_key(r.pairs(), x) {
                    let j = choose|j: int| 0 <= j < r.pairs().len() && #[trigger] r.pairs()[j].0 == x;
                    assert(self.pairs()[j].0 == x);
                }
                if has_key(self.pairs(), x) {
                    let j = choose|j: int| 0 <= j < self.pairs().len() && #[trigger] self.pairs()[j].0 == x;
                    assert(r.pairs()[j].0 == x);
                }
            }
            assert(r@.dom() =~= self@.dom());
        }
        r
    }
}

impl<V> View for StrMap<V> {
    type V = Map<Seq<char>, V>;

    open spec fn view(&self) -> Map<Seq<char>, V> {
        pairs_map(self.pairs())
    }
}

} // verus!
