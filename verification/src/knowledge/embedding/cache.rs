//! A cache of embeddings keyed by the BLAKE3 hash of their content.
use vstd::prelude::*;
use crate::knowledge::embedding::metrics::wrap_add;
use crate::knowledge::hash::{blake3_digest, blake3_digest_of, digest_bytes_of_hex, digest_from_hex, hex_lower, is_digest_hex, lemma_digest_hex_round_trip, to_hex};
use crate::strmap::{keys_unique, lemma_pairs_map_at, pairs_map, StrMap};
use crate::text::copy_string;
use crate::time::unix_now_secs;
use vstd::utf8::encode_utf8;
use vstd::string::StringSliceAdditionalSpecFns;

verus! {

/// A copy of the components of a vector.
pub fn copy_components<T: Copy>(v: &Vec<T>) -> (r: Vec<T>)
    ensures
        r@ == v@,
{
    let mut r: Vec<T> = Vec::new();
    let n = v.len();
    let mut i: usize = 0;
    while i < n
        invariant
            i <= n,
            n == v@.len(),
            r@ == v@.subrange(0, i as int),
        decreases n - i,
    {
        r.push(v[i]);
        proof {
            assert(r@ =~= v@.subrange(0, i + 1));
        }
        i = i + 1;
    }
    proof {
        assert(v@.subrange(0, n as int) =~= v@);
    }
    r
}

/// A cached embedding.
#[derive(Debug)]
pub struct CachedEmbedding<T> {
    /// Hash of the content, in hexadecimal.
    pub content_hash_hex: String,
    /// The embedding's components.
    pub vector: Vec<T>,
    /// When the entry was made, in seconds since the Unix epoch.
    pub timestamp: u64,
}

impl<T> CachedEmbedding<T> {
    /// An entry for content of hash `content_hash_hex`, stamped with the current time.
    pub fn new(content_hash_hex: String, vector: Vec<T>) -> (r: Self)
        ensures
            r.content_hash_hex == content_hash_hex,
            r.vector == vector,
    {
        CachedEmbedding { content_hash_hex, vector, timestamp: unix_now_secs() }
    }
}

/// Counts of a cache.
#[derive(Debug, Clone, Copy, PartialEq, Eq)]
pub struct CacheCounts {
    /// Entries held.
    pub total_entries: usize,
    /// Lookups that found an entry.
    pub hit_count: u64,
    /// Lookups that found none.
    pub miss_count: u64,
}

/// The hexadecimal BLAKE3 hash of the UTF-8 bytes of a text: a cache key.
pub open spec fn content_key(content: Seq<char>) -> Seq<char> {
    hex_lower(blake3_digest_of(encode_utf8(content)))
}

/// Embeddings keyed by content hash, with hit and miss counters (which wrap around
/// at 2^64); a disabled cache stores and finds nothing.
pub struct EmbeddingCache<T> {
    cache: StrMap<CachedEmbedding<T>>,
    enabled: bool,
    hit_count: u64,
    miss_count: u64,
}

impl<T: Copy> EmbeddingCache<T> {
    /// The cached vectors by key.
    pub closed spec fn entries(&self) -> Map<Seq<char>, Seq<T>> {
        self.cache@.map_values(|c: CachedEmbedding<T>| c.vector@)
    }

    /// When each cached entry was made, by key.
    pub closed spec fn stamps(&self) -> Map<Seq<char>, u64> {
        self.cache@.map_values(|c: CachedEmbedding<T>| c.timestamp)
    }

    /// Whether caching is on.
    pub closed spec fn spec_enabled(&self) -> bool {
        self.enabled
    }

    /// Lookups that found an entry.
    pub closed spec fn hits(&self) -> u64 {
        self.hit_count
    }

    /// Lookups that found none.
    pub closed spec fn misses(&self) -> u64 {
        self.miss_count
    }

    /// An empty, enabled cache.
    pub fn new() -> (r: Self)
        ensures
            r.entries() == Map::<Seq<char>, Seq<T>>::empty(),
            r.stamps() == Map::<Seq<char>, u64>::empty(),
            r.spec_enabled(),
            r.hits() == 0,
            r.misses() == 0,
    {
        let r = EmbeddingCache { cache: StrMap::new(), enabled: true, hit_count: 0, miss_count: 0 };
        proof {
            assert(r.entries() =~= Map::<Seq<char>, Seq<T>>::empty());
            assert(r.stamps() =~= Map::<Seq<char>, u64>::empty());
        }
        r
    }

    /// An empty cache that stores and finds nothing.
    pub fn disabled() -> (r: Self)
        ensures
            r.entries() == Map::<Seq<char>, Seq<T>>::empty(),
            r.stamps() == Map::<Seq<char>, u64>::empty(),
            !r.spec_enabled(),
            r.hits() == 0,
            r.misses() == 0,
    {
        let r = EmbeddingCache { cache: StrMap::new(), enabled: false, hit_count: 0, miss_count: 0 };
        proof {
            assert(r.entries() =~= Map::<Seq<char>, Seq<T>>::empty());
            assert(r.stamps() =~= Map::<Seq<char>, u64>::empty());
        }
        r
    }

    /// Turns caching on or off.
    pub fn set_enabled(&mut self, enabled: bool)
        ensures
            final(self).spec_enabled() == enabled,
            final(self).entries() == old(self).entries(),
            final(self).stamps() == old(self).stamps(),
            final(self).hits() == old(self).hits(),
            final(self).misses() == old(self).misses(),
    {
        self.enabled = enabled;
    }

    /// Whether caching is on.
    pub fn is_enabled(&self) -> (r: bool)
        ensures
            r == self.spec_enabled(),
    {
        self.enabled
    }

    /// The cache key of `content`: its BLAKE3 hash in hexadecimal.
    pub fn hash_content(content: &str) -> (r: String)
        ensures
            r@ == content_key(content@),
            is_digest_key(r@),
    {
        let digest = blake3_digest(content.as_bytes());
        let r = to_hex(digest.as_slice());
        proof {
            assert(digest@.len() == 32 && r@ == hex_lower(digest@));
        }
        r
    }

    /// The vector cached under `content_hash`; a hit or a miss is counted when
    /// the cache is on.
    pub fn get(&mut self, content_hash: &str) -> (r: Option<Vec<T>>)
        ensures
            final(self).entries() == old(self).entries(),
            final(self).stamps() == old(self).stamps(),
            final(self).spec_enabled() == old(self).spec_enabled(),
            !old(self).spec_enabled() ==> r is None && final(self).hits() == old(self).hits() && final(self).misses()
                == old(self).misses(),
            old(self).spec_enabled() && old(self).entries().dom().contains(content_hash@) ==> (r matches Some(v) && v@
                == old(self).entries()[content_hash@]) && final(self).hits() == wrap_add(old(self).hits(), 1)
                && final(self).misses() == old(self).misses(),
            old(self).spec_enabled() && !old(self).entries().dom().contains(content_hash@) ==> r is None
                && final(self).hits() == old(self).hits() && final(self).misses() == wrap_add(old(self).misses(), 1),
    {
        if !self.enabled {
            return None;
        }
        let found = match self.cache.get(content_hash) {
            Some(c) => Some(copy_components(&c.vector)),
            None => None,
        };
        match found {
            Some(v) => {
                self.hit_count = self.hit_count.wrapping_add(1);
                Some(v)
            },
            None => {
                self.miss_count = self.miss_count.wrapping_add(1);
                None
            },
        }
    }

    /// Stores `vector` under `content_hash` when the cache is on.
    pub fn insert(&mut self, content_hash: String, vector: Vec<T>)
        ensures
            old(self).spec_enabled() ==> final(self).entries() == old(self).entries().insert(content_hash@, vector@),
            !old(self).spec_enabled() ==> final(self).entries() == old(self).entries(),
            old(self).spec_enabled() ==> final(self).stamps().dom() == old(self).stamps().dom().insert(content_hash@)
                && forall|k: Seq<char>| k != content_hash@ && #[trigger] old(self).stamps().dom().contains(k)
                    ==> final(self).stamps()[k] == old(self).stamps()[k],
            !old(self).spec_enabled() ==> final(self).stamps() == old(self).stamps(),
            final(self).spec_enabled() == old(self).spec_enabled(),
            final(self).hits() == old(self).hits(),
            final(self).misses() == old(self).misses(),
    {
        if !self.enabled {
            return;
        }
        let ghost before = self.cache@;
        let key = copy_string(&content_hash);
        let ghost vv = vector@;
        let entry = CachedEmbedding::new(content_hash, vector);
        let ghost tt = entry.timestamp;
        self.cache.insert(key, entry);
        proof {
            assert(self.entries() =~= before.map_values(|c: CachedEmbedding<T>| c.vector@).insert(key@, vv));
            assert(self.stamps() =~= before.map_values(|c: CachedEmbedding<T>| c.timestamp).insert(key@, tt));
        }
    }

    /// The vector cached for `content`, or the one `compute_fn` makes (which is
    /// then cached); with the cache off, always the one `compute_fn` makes.
    pub fn get_or_insert<F: FnOnce() -> Vec<T>>(&mut self, content: &str, compute_fn: F) -> (r: Vec<T>)
        requires
            compute_fn.requires(()),
        ensures
            final(self).spec_enabled() == old(self).spec_enabled(),
            !old(self).spec_enabled() ==> compute_fn.ensures((), r) && final(self).entries() == old(self).entries(),
            old(self).spec_enabled() && old(self).entries().dom().contains(content_key(content@)) ==> r@ == old(
                self,
            ).entries()[content_key(content@)] && final(self).entries() == old(self).entries(),
            old(self).spec_enabled() && !old(self).entries().dom().contains(content_key(content@)) ==> compute_fn.ensures(
                (),
                r,
            ) && final(self).entries() == old(self).entries().insert(content_key(content@), r@),
            old(self).spec_enabled() ==> final(self).entries() == after_get_or_insert(old(self).entries(), content@, r@),
            !old(self).spec_enabled() || old(self).entries().dom().contains(content_key(content@)) ==> final(self).stamps()
                == old(self).stamps(),
    {
        if !self.enabled {
            return compute_fn();
        }
        let hash = Self::hash_content(content);
        match self.get(hash.as_str()) {
            Some(embedding) => embedding,
            None => {
                let embedding = compute_fn();
                let copy = copy_components(&embedding);
                self.insert(hash, copy);
                embedding
            },
        }
    }

    /// Removes and returns the entry under `content_hash`.
    pub fn remove(&mut self, content_hash: &str) -> (r: Option<CachedEmbedding<T>>)
        ensures
            final(self).entries() == old(self).entries().remove(content_hash@),
            r is Some <==> old(self).entries().dom().contains(content_hash@),
            r matches Some(c) ==> c.vector@ == old(self).entries()[content_hash@] && c.timestamp == old(
                self,
            ).stamps()[content_hash@],
            final(self).stamps() == old(self).stamps().remove(content_hash@),
            final(self).spec_enabled() == old(self).spec_enabled(),
            final(self).hits() == old(self).hits(),
            final(self).misses() == old(self).misses(),
    {
        let ghost before = self.cache@;
        let r = self.cache.remove(content_hash);
        proof {
            assert(self.entries() =~= before.map_values(|c: CachedEmbedding<T>| c.vector@).remove(content_hash@));
            assert(self.stamps() =~= before.map_values(|c: CachedEmbedding<T>| c.timestamp).remove(content_hash@));
        }
        r
    }

    /// Removes every entry and resets the counters.
    pub fn clear(&mut self)
        ensures
            final(self).entries() == Map::<Seq<char>, Seq<T>>::empty(),
            final(self).stamps() == Map::<Seq<char>, u64>::empty(),
            final(self).hits() == 0,
            final(self).misses() == 0,
            final(self).spec_enabled() == old(self).spec_enabled(),
    {
        self.cache.clear();
        self.hit_count = 0;
        self.miss_count = 0;
        proof {
            assert(self.entries() =~= Map::<Seq<char>, Seq<T>>::empty());
            assert(self.stamps() =~= Map::<Seq<char>, u64>::empty());
        }
    }

    /// The number of entries and the hit and miss counts.
    pub fn statistics(&self) -> (r: CacheCounts)
        ensures
            r.total_entries == self.entries().dom().len(),
            r.hit_count == self.hits(),
            r.miss_count == self.misses(),
    {
        CacheCounts { total_entries: self.len(), hit_count: self.hit_count, miss_count: self.miss_count }
    }

    /// Number of entries.
    pub fn len(&self) -> (r: usize)
        ensures
            r == self.entries().dom().len(),
    {
        let r = self.cache.len();
        proof {
            assert(self.entries().dom() =~= self.cache@.dom());
        }
        r
    }

    /// Whether the cache holds no entry.
    pub fn is_empty(&self) -> (r: bool)
        ensures
            r == (self.entries().dom().len() == 0),
    {
        self.len() == 0
    }
}

/// The key under which a persisted entry with key text `key` is loaded: the
/// lower-case form of the digest it spells.
pub open spec fn loaded_key(key: Seq<char>) -> Seq<char> {
    hex_lower(digest_bytes_of_hex(encode_utf8(key)))
}

/// `m` with the persisted entries `es` (key and vector, or key and time stamp)
/// loaded in order: an entry whose key spells a digest is stored under
/// [`loaded_key`]; any other entry is skipped.
pub open spec fn load_into<V>(m: Map<Seq<char>, V>, es: Seq<(Seq<char>, V)>) -> Map<Seq<char>, V>
    decreases es.len(),
{
    if es.len() == 0 {
        m
    } else {
        let m0 = load_into(m, es.drop_last());
        let e = es.last();
        if is_digest_hex(encode_utf8(e.0)) {
            m0.insert(loaded_key(e.0), e.1)
        } else {
            m0
        }
    }
}

/// Persisted entries with keys and vectors taken as plain values.
pub open spec fn persisted_views<T>(es: Seq<(String, CachedEmbedding<T>)>) -> Seq<(Seq<char>, Seq<T>)> {
    es.map_values(|e: (String, CachedEmbedding<T>)| (e.0@, e.1.vector@))
}

/// Persisted entries with keys taken as plain values, each with its time stamp.
pub open spec fn persisted_stamps<T>(es: Seq<(String, CachedEmbedding<T>)>) -> Seq<(Seq<char>, u64)> {
    es.map_values(|e: (String, CachedEmbedding<T>)| (e.0@, e.1.timestamp))
}

impl<T: Copy> EmbeddingCache<T> {
    /// Loads persisted `(key, entry)` pairs (whether or not the cache is on) and
    /// returns the number of entries held afterwards.  Keys that do not spell a
    /// digest are skipped.
    pub fn load_entries(&mut self, entries: &[(String, CachedEmbedding<T>)]) -> (r: usize)
        ensures
            final(self).entries() == load_into(old(self).entries(), persisted_views(entries@)),
            final(self).stamps() == load_into(old(self).stamps(), persisted_stamps(entries@)),
            r == final(self).entries().dom().len(),
            final(self).spec_enabled() == old(self).spec_enabled(),
            final(self).hits() == old(self).hits(),
            final(self).misses() == old(self).misses(),
    {
        let ghost es = persisted_views(entries@);
        let ghost ts = persisted_stamps(entries@);
        let ghost m0 = self.entries();
        let ghost t0 = self.stamps();
        let n = entries.len();
        let mut i: usize = 0;
        while i < n
            invariant
                i <= n,
                n == entries@.len(),
                es == persisted_views(entries@),
                self.entries() == load_into(m0, es.subrange(0, i as int)),
                ts == persisted_stamps(entries@),
                self.stamps() == load_into(t0, ts.subrange(0, i as int)),
                self.spec_enabled() == old(self).spec_enabled(),
                self.hits() == old(self).hits(),
                self.misses() == old(self).misses(),
            decreases n - i,
        {
            let ghost p1 = es.subrange(0, i + 1);
            proof {
                assert(p1.drop_last() =~= es.subrange(0, i as int));
                assert(p1.last() == (entries@[i as int].0@, entries@[i as int].1.vector@));
                assert(ts.subrange(0, i + 1).drop_last() =~= ts.subrange(0, i as int));
                assert(ts.subrange(0, i + 1).last() == (entries@[i as int].0@, entries@[i as int].1.timestamp));
            }
            match digest_from_hex(entries[i].0.as_str()) {
                Some(bytes) => {
                    let key = to_hex(bytes.as_slice());
                    let e = &entries[i].1;
                    let entry = CachedEmbedding {
                        content_hash_hex: copy_string(&e.content_hash_hex),
                        vector: copy_components(&e.vector),
                        timestamp: e.timestamp,
                    };
                    let ghost before = self.cache@;
                    let ghost vv = entry.vector@;
                    let ghost tt = entry.timestamp;
                    self.cache.insert(key, entry);
                    proof {
                        assert(self.entries() =~= before.map_values(|c: CachedEmbedding<T>| c.vector@).insert(
                            loaded_key(entries@[i as int].0@),
                            vv,
                        ));
                        assert(self.stamps() =~= before.map_values(|c: CachedEmbedding<T>| c.timestamp).insert(
                            loaded_key(entries@[i as int].0@),
                            tt,
                        ));
                    }
                },
                None => {},
            }
            i = i + 1;
        }
        proof {
            assert(es.subrange(0, n as int) =~= es);
            assert(ts.subrange(0, n as int) =~= ts);
        }
        self.len()
    }
}

impl<T: Copy> EmbeddingCache<T> {
    /// Every entry with its key, as they are persisted: each key once, each
    /// with the vector cached under it.
    pub fn persisted_entries(&self) -> (r: Vec<(String, CachedEmbedding<T>)>)
        ensures
            persisted_form(self.entries(), persisted_views(r@)),
            persisted_form(self.stamps(), persisted_stamps(r@)),
    {
        let n = self.cache.len();
        let ghost pairs = self.cache.pairs();
        proof {
            assert(self.cache@ == pairs_map(pairs));
            assert(self.entries().dom() =~= self.cache@.dom());
        }
        let mut r: Vec<(String, CachedEmbedding<T>)> = Vec::new();
        let mut i: usize = 0;
        while i < n
            invariant
                i <= n,
                n == pairs.len(),
                pairs == self.cache.pairs(),
                keys_unique(pairs),
                self.cache@ == pairs_map(pairs),
                r@.len() == i,
                forall|a: int| 0 <= a < i ==> (#[trigger] r@[a]).0@ == pairs[a].0 && r@[a].1.vector@ == pairs[a].1.vector@
                    && r@[a].1.timestamp == pairs[a].1.timestamp,
            decreases n - i,
        {
            let k = copy_string(self.cache.key_at(i));
            let c = self.cache.value_at(i);
            let entry = CachedEmbedding {
                content_hash_hex: copy_string(&c.content_hash_hex),
                vector: copy_components(&c.vector),
                timestamp: c.timestamp,
            };
            r.push((k, entry));
            i = i + 1;
        }
        proof {
            assert forall|a: int| 0 <= a < r@.len() implies self.entries().dom().contains(#[trigger] r@[a].0@)
                && self.entries()[r@[a].0@] == r@[a].1.vector@ by {
                lemma_pairs_map_at(pairs, a);
            }
            assert forall|k: Seq<char>| #[trigger] self.entries().dom().contains(k) implies exists|a: int| 0 <= a < r@.len() && r@[a].0@ == k by {
                assert(self.cache@.dom().contains(k));
                let a = choose|a: int| 0 <= a < pairs.len() && #[trigger] pairs[a].0 == k;
                assert(r@[a].0@ == k);
            }
            assert forall|a: int, b: int| 0 <= a < b < r@.len() implies r@[a].0@ != r@[b].0@ by {
                assert(r@[a].0@ == pairs[a].0);
                assert(r@[b].0@ == pairs[b].0);
            }
            let es = persisted_views(r@);
            assert forall|a: int| 0 <= a < es.len() implies self.entries().dom().contains(#[trigger] es[a].0)
                && self.entries()[es[a].0] == es[a].1 by {
                assert(es[a] == (r@[a].0@, r@[a].1.vector@));
            }
            assert forall|k: Seq<char>| #[trigger] self.entries().dom().contains(k) implies exists|a: int| 0 <= a < es.len() && es[a].0 == k by {
                let a = choose|a: int| 0 <= a < r@.len() && r@[a].0@ == k;
                assert(es[a].0 == k);
            }
            assert forall|a: int, b: int| 0 <= a < b < es.len() implies es[a].0 != es[b].0 by {
                assert(es[a].0 == r@[a].0@ && es[b].0 == r@[b].0@);
            }
            let st = self.stamps();
            assert(st.dom() =~= self.entries().dom());
            let ts = persisted_stamps(r@);
            assert forall|a: int| 0 <= a < ts.len() implies st.dom().contains(#[trigger] ts[a].0) && st[ts[a].0] == ts[a].1 by {
                assert(ts[a] == (r@[a].0@, r@[a].1.timestamp));
                lemma_pairs_map_at(pairs, a);
            }
            assert forall|k: Seq<char>| #[trigger] st.dom().contains(k) implies exists|a: int| 0 <= a < ts.len() && ts[a].0 == k by {
                assert(self.entries().dom().contains(k));
                let a = choose|a: int| 0 <= a < es.len() && es[a].0 == k;
                assert(ts[a].0 == k);
            }
            assert forall|a: int, b: int| 0 <= a < b < ts.len() implies ts[a].0 != ts[b].0 by {
                assert(ts[a].0 == r@[a].0@ && ts[b].0 == r@[b].0@);
            }
        }
        r
    }
}

/// Whether `es` lists the entries of `m` as they are persisted: each key of `m`
/// once, with its value (a vector, or a time stamp).
pub open spec fn persisted_form<V>(m: Map<Seq<char>, V>, es: Seq<(Seq<char>, V)>) -> bool {
    &&& es.len() == m.dom().len()
    &&& forall|i: int| 0 <= i < es.len() ==> m.dom().contains(#[trigger] es[i].0) && m[es[i].0] == es[i].1
    &&& forall|k: Seq<char>| #[trigger] m.dom().contains(k) ==> exists|i: int| 0 <= i < es.len() && es[i].0 == k
    &&& forall|i: int, j: int| 0 <= i < j < es.len() ==> es[i].0 != es[j].0
}

/// Whether `k` is the lower-case hexadecimal text of a 32-byte digest, as every
/// key that [`EmbeddingCache::hash_content`] makes is.
pub open spec fn is_digest_key(k: Seq<char>) -> bool {
    exists|b: Seq<u8>| b.len() == 32 && k == hex_lower(b)
}

/// A digest key spells a digest, and is loaded under itself.
proof fn lemma_digest_key_loads(k: Seq<char>)
    requires
        is_digest_key(k),
    ensures
        is_digest_hex(encode_utf8(k)),
        loaded_key(k) == k,
{
    let b = choose|b: Seq<u8>| b.len() == 32 && k == hex_lower(b);
    lemma_digest_hex_round_trip(b);
}

/// Loading entries with distinct digest keys into an empty cache stores each
/// under its own key, and nothing else.
proof fn lemma_load_distinct<V>(es: Seq<(Seq<char>, V)>)
    requires
        forall|i: int| 0 <= i < es.len() ==> is_digest_key(#[trigger] es[i].0),
        forall|i: int, j: int| 0 <= i < j < es.len() ==> es[i].0 != es[j].0,
    ensures
        forall|i: int|
            0 <= i < es.len() ==> load_into(Map::<Seq<char>, V>::empty(), es).dom().contains(#[trigger] es[i].0)
                && load_into(Map::<Seq<char>, V>::empty(), es)[es[i].0] == es[i].1,
        forall|k: Seq<char>|
            #[trigger] load_into(Map::<Seq<char>, V>::empty(), es).dom().contains(k) ==> exists|i: int|
                0 <= i < es.len() && es[i].0 == k,
    decreases es.len(),
{
    if es.len() > 0 {
        let init = es.drop_last();
        let last = es.last();
        assert forall|i: int| 0 <= i < init.len() implies is_digest_key(#[trigger] init[i].0) by {
            assert(init[i] == es[i]);
        }
        assert forall|i: int, j: int| 0 <= i < j < init.len() implies init[i].0 != init[j].0 by {
            assert(init[i] == es[i] && init[j] == es[j]);
        }
        lemma_load_distinct(init);
        assert(is_digest_key(es[es.len() - 1].0));
        lemma_digest_key_loads(last.0);
        let m0 = load_into(Map::<Seq<char>, V>::empty(), init);
        let m = load_into(Map::<Seq<char>, V>::empty(), es);
        assert(m == m0.insert(last.0, last.1));
        assert forall|i: int| 0 <= i < es.len() implies m.dom().contains(#[trigger] es[i].0) && m[es[i].0] == es[i].1 by {
            if i < init.len() {
                assert(init[i] == es[i]);
                assert(es[i].0 != es[es.len() - 1].0);
            }
        }
        assert forall|k: Seq<char>| #[trigger] m.dom().contains(k) implies exists|i: int| 0 <= i < es.len() && es[i].0 == k by {
            if k == last.0 {
                assert(es[es.len() - 1].0 == k);
            } else {
                assert(m0.dom().contains(k));
                let i = choose|i: int| 0 <= i < init.len() && init[i].0 == k;
                assert(es[i] == init[i]);
            }
        }
    }
}

/// Persisting a cache whose keys are all digest keys and loading what was
/// persisted into an empty cache gives back exactly the cached entries (their
/// vectors, and likewise their time stamps).
pub proof fn lemma_persist_load_round_trip<V>(m: Map<Seq<char>, V>, es: Seq<(Seq<char>, V)>)
    requires
        forall|k: Seq<char>| #[trigger] m.dom().contains(k) ==> is_digest_key(k),
        persisted_form(m, es),
    ensures
        load_into(Map::<Seq<char>, V>::empty(), es) == m,
{
    assert forall|i: int| 0 <= i < es.len() implies is_digest_key(#[trigger] es[i].0) by {
        assert(m.dom().contains(es[i].0));
    }
    lemma_load_distinct(es);
    let l = load_into(Map::<Seq<char>, V>::empty(), es);
    assert forall|k: Seq<char>| #[trigger] l.dom().contains(k) <==> m.dom().contains(k) by {
        if l.dom().contains(k) {
            let i = choose|i: int| 0 <= i < es.len() && es[i].0 == k;
            assert(m.dom().contains(es[i].0));
        }
        if m.dom().contains(k) {
            let i = choose|i: int| 0 <= i < es.len() && es[i].0 == k;
            assert(l.dom().contains(es[i].0));
        }
    }
    assert forall|k: Seq<char>| #[trigger] l.dom().contains(k) implies l[k] == m[k] by {
        let i = choose|i: int| 0 <= i < es.len() && es[i].0 == k;
        assert(l[es[i].0] == es[i].1);
        assert(m[es[i].0] == es[i].1);
    }
    assert(l =~= m);
}

/// The entries of an enabled cache after [`EmbeddingCache::get_or_insert`] on
/// `content` answered `r`: unchanged on a hit, with `r` added on a miss.
pub open spec fn after_get_or_insert<T>(before: Map<Seq<char>, Seq<T>>, content: Seq<char>, r: Seq<T>) -> Map<Seq<char>, Seq<T>> {
    if before.dom().contains(content_key(content)) {
        before
    } else {
        before.insert(content_key(content), r)
    }
}

/// With the cache on, content is embedded at most once: once `get_or_insert`
/// has answered `r` for `content`, the entry for that content is `r`, so a
/// later call for the same content answers `r` from the cache; other entries
/// are untouched.
pub proof fn lemma_get_or_insert_twice<T>(before: Map<Seq<char>, Seq<T>>, content: Seq<char>, r: Seq<T>, other: Seq<char>)
    requires
        before.dom().contains(content_key(content)) ==> r == before[content_key(content)],
    ensures
        after_get_or_insert(before, content, r).dom().contains(content_key(content)),
        after_get_or_insert(before, content, r)[content_key(content)] == r,
        after_get_or_insert(after_get_or_insert(before, content, r), content, r) == after_get_or_insert(before, content, r),
        other != content_key(content) ==> after_get_or_insert(before, content, r).dom().contains(other)
            == before.dom().contains(other),
        other != content_key(content) && before.dom().contains(other) ==> after_get_or_insert(before, content, r)[other]
            == before[other],
{
}

} // verus!
