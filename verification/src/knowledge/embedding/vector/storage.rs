//! In-memory storage of vectors with their metadata.
use vstd::prelude::*;
use crate::knowledge::embedding::vector::metadata::{same_record, MetadataStore, VectorMetadata};
use crate::strmap::{StrMap, keys_unique, lemma_pairs_linked, pair_keys, pair_values, seq_linked};
use crate::text::{contains_str, copy_string, str_eq, str_views};

verus! {

/// A stored vector: its identifier, components and metadata.
#[derive(Debug)]
pub struct StoredVector<T> {
    pub id: String,
    pub vector: Vec<T>,
    pub metadata: VectorMetadata,
}

/// Statistics of a vector store.
#[derive(Debug, Clone, Copy)]
pub struct VectorStorageStatistics {
    pub total_vectors: usize,
    pub vector_dimension: usize,
    pub unique_modules: usize,
    pub unique_documents: usize,
}

/// The stored vectors of `vals` whose flag is set, in order.
pub open spec fn select_stored<T>(vals: Seq<StoredVector<T>>, flags: Seq<bool>) -> Seq<StoredVector<T>>
    decreases vals.len(),
{
    if vals.len() == 0 {
        Seq::empty()
    } else if flags[vals.len() - 1] {
        select_stored(vals.drop_last(), flags).push(vals.last())
    } else {
        select_stored(vals.drop_last(), flags)
    }
}

/// The stored vectors behind a list of references.
pub open spec fn stored_of<T>(v: Seq<&StoredVector<T>>) -> Seq<StoredVector<T>> {
    v.map_values(|s: &StoredVector<T>| *s)
}

/// Vectors with metadata, keyed by vector identifier, in insertion order, beside a
/// metadata store keyed by the metadata's own identifiers.
pub struct VectorStorage<T> {
    vectors: StrMap<StoredVector<T>>,
    metadata_store: MetadataStore,
}

impl<T: Copy> VectorStorage<T> {
    /// The stored vectors by identifier.
    pub closed spec fn stored(&self) -> Map<Seq<char>, StoredVector<T>> {
        self.vectors@
    }

    /// The stored vectors, in insertion order.
    pub closed spec fn stored_values(&self) -> Seq<StoredVector<T>> {
        pair_values(self.vectors.pairs())
    }

    /// The identifiers, in insertion order.
    pub closed spec fn stored_ids(&self) -> Seq<Seq<char>> {
        pair_keys(self.vectors.pairs())
    }

    /// Identifiers, stored vectors and the map by identifier agree.
    proof fn lemma_linked(&self)
        requires
            keys_unique(self.vectors.pairs()),
        ensures
            seq_linked(self.stored_ids(), self.stored_values(), self.stored()),
    {
        lemma_pairs_linked(self.vectors.pairs());
    }

    /// The metadata store.
    pub closed spec fn spec_metadata(&self) -> MetadataStore {
        self.metadata_store
    }

    /// An empty storage.
    pub fn new() -> (r: Self)
        ensures
            r.stored() == Map::<Seq<char>, StoredVector<T>>::empty(),
            r.stored_values().len() == 0,
            r.stored_ids().len() == 0,
            seq_linked(r.stored_ids(), r.stored_values(), r.stored()),
            r.spec_metadata().spec_map() == Map::<Seq<char>, VectorMetadata>::empty(),
    {
        let r = VectorStorage { vectors: StrMap::new(), metadata_store: MetadataStore::new() };
        proof {
            assert(r.stored_values() =~= Seq::<StoredVector<T>>::empty());
            assert(r.stored_ids() =~= Seq::<Seq<char>>::empty());
            r.lemma_linked();
        }
        r
    }

    /// Stores `vector` with `metadata` under `id` (replacing what was there), and
    /// records a copy of the metadata in the metadata store.
    pub fn insert(&mut self, id: String, vector: Vec<T>, metadata: VectorMetadata)
        ensures
            final(self).stored().dom() == old(self).stored().dom().insert(id@),
            final(self).stored()[id@].id == id,
            final(self).stored()[id@].vector == vector,
            final(self).stored()[id@].metadata == metadata,
            forall|k: Seq<char>| k != id@ && #[trigger] old(self).stored().dom().contains(k) ==> final(self).stored()[k]
                == old(self).stored()[k],
            exists|m: VectorMetadata|
                same_record(m, metadata) && final(self).spec_metadata().spec_map() == old(self).spec_metadata().spec_map().insert(
                    metadata.id@,
                    m,
                ),
            seq_linked(final(self).stored_ids(), final(self).stored_values(), final(self).stored()),
            !old(self).stored().dom().contains(id@) ==> final(self).stored_ids() == old(self).stored_ids().push(id@)
                && final(self).stored_values() == old(self).stored_values().push(
                (StoredVector { id, vector, metadata }),
            ),
            old(self).stored().dom().contains(id@) ==> final(self).stored_ids() == old(self).stored_ids()
                && final(self).stored_values() == old(self).stored_values().update(
                old(self).stored_ids().index_of(id@),
                (StoredVector { id, vector, metadata }),
            ),
    {
        let copy = metadata.duplicate();
        let key = copy_string(&id);
        let ghost s = StoredVector { id, vector, metadata };
        let ghost k = id@;
        let ghost old_pairs = self.vectors.pairs();
        self.vectors.insert(key, StoredVector { id, vector, metadata });
        self.metadata_store.insert(copy);
        proof {
            self.lemma_linked();
            lemma_pairs_linked(old_pairs);
            let ok = pair_keys(old_pairs);
            if crate::strmap::has_key(old_pairs, k) {
                let c = choose|i: int| 0 <= i < old_pairs.len() && #[trigger] old_pairs[i].0 == k;
                assert(ok[c] == k);
                assert(ok.contains(k));
                let j = ok.index_of(k);
                assert(ok[j] == k);
                assert(j == c);
                assert(self.stored_ids() =~= ok);
                assert(self.stored_values() =~= pair_values(old_pairs).update(c, s));
            } else {
                assert(self.stored_ids() =~= ok.push(k));
                assert(self.stored_values() =~= pair_values(old_pairs).push(s));
            }
        }
    }

    /// The components of vector `id`.
    pub fn get(&self, id: &str) -> (r: Option<&Vec<T>>)
        ensures
            r is Some <==> self.stored().dom().contains(id@),
            r matches Some(v) ==> *v == self.stored()[id@].vector,
            seq_linked(self.stored_ids(), self.stored_values(), self.stored()),
    {
        let g = self.vectors.get(id);
        proof {
            self.lemma_linked();
        }
        match g {
            Some(sv) => Some(&sv.vector),
            None => None,
        }
    }

    /// The stored vector `id`.
    pub fn get_stored(&self, id: &str) -> (r: Option<&StoredVector<T>>)
        ensures
            r is Some <==> self.stored().dom().contains(id@),
            r matches Some(v) ==> *v == self.stored()[id@],
            seq_linked(self.stored_ids(), self.stored_values(), self.stored()),
    {
        let g = self.vectors.get(id);
        proof {
            self.lemma_linked();
        }
        g
    }

    /// Removes vector `id` (and the metadata recorded under `id`), returning it.
    pub fn remove(&mut self, id: &str) -> (r: Option<StoredVector<T>>)
        ensures
            final(self).stored() == old(self).stored().remove(id@),
            final(self).spec_metadata().spec_map() == old(self).spec_metadata().spec_map().remove(id@),
            r is Some <==> old(self).stored().dom().contains(id@),
            r matches Some(v) ==> v == old(self).stored()[id@],
            seq_linked(final(self).stored_ids(), final(self).stored_values(), final(self).stored()),
            old(self).stored().dom().contains(id@) ==> final(self).stored_ids() == old(self).stored_ids().remove(
                old(self).stored_ids().index_of(id@),
            ) && final(self).stored_values() == old(self).stored_values().remove(
                old(self).stored_ids().index_of(id@),
            ),
            !old(self).stored().dom().contains(id@) ==> final(self).stored_ids() == old(self).stored_ids()
                && final(self).stored_values() == old(self).stored_values(),
    {
        let ghost old_pairs = self.vectors.pairs();
        self.metadata_store.remove(id);
        let r = self.vectors.remove(id);
        proof {
            self.lemma_linked();
            lemma_pairs_linked(old_pairs);
            let ok = pair_keys(old_pairs);
            if crate::strmap::has_key(old_pairs, id@) {
                let c = choose|i: int| 0 <= i < old_pairs.len() && #[trigger] old_pairs[i].0 == id@;
                assert(ok[c] == id@);
                assert(ok.contains(id@));
                let j = ok.index_of(id@);
                assert(ok[j] == id@);
                assert(j == c);
                assert(self.stored_ids() =~= ok.remove(c));
                assert(self.stored_values() =~= pair_values(old_pairs).remove(c));
            }
        }
        r
    }

    /// Whether vector `id` is stored.
    pub fn contains(&self, id: &str) -> (r: bool)
        ensures
            r == self.stored().dom().contains(id@),
    {
        self.vectors.contains_key(id)
    }

    /// Number of stored vectors.
    pub fn len(&self) -> (r: usize)
        ensures
            r == self.stored().dom().len(),
            r == self.stored_values().len(),
            seq_linked(self.stored_ids(), self.stored_values(), self.stored()),
    {
        let r = self.vectors.len();
        proof {
            self.lemma_linked();
        }
        r
    }

    /// Whether nothing is stored.
    pub fn is_empty(&self) -> (r: bool)
        ensures
            r == (self.stored_values().len() == 0),
    {
        self.vectors.is_empty()
    }

    /// The identifiers, in insertion order.
    pub fn ids(&self) -> (r: Vec<String>)
        ensures
            str_views(r@) == self.stored_ids(),
    {
        let n = self.vectors.len();
        let mut r: Vec<String> = Vec::new();
        let mut i: usize = 0;
        while i < n
            invariant
                i <= n,
                n == self.vectors.pairs().len(),
                str_views(r@) == self.stored_ids().subrange(0, i as int),
            decreases n - i,
        {
            let ghost r0 = r@;
            let k = copy_string(self.vectors.key_at(i));
            r.push(k);
            proof {
                assert(str_views(r@) =~= str_views(r0).push(k@));
                assert(str_views(r@) =~= self.stored_ids().subrange(0, i + 1));
            }
            i = i + 1;
        }
        proof {
            assert(self.stored_ids().subrange(0, n as int) =~= self.stored_ids());
        }
        r
    }

    /// The stored vectors whose flag is set, in insertion order.
    fn select(&self, flags: &Vec<bool>) -> (r: Vec<&StoredVector<T>>)
        requires
            flags@.len() == self.stored_values().len(),
        ensures
            stored_of(r@) == select_stored(self.stored_values(), flags@),
    {
        let ghost vals = self.stored_values();
        let n = self.vectors.len();
        let mut r: Vec<&StoredVector<T>> = Vec::new();
        let mut i: usize = 0;
        while i < n
            invariant
                i <= n,
                n == vals.len(),
                vals == self.stored_values(),
                flags@.len() == n,
                stored_of(r@) == select_stored(vals.subrange(0, i as int), flags@),
            decreases n - i,
        {
            proof {
                assert(vals.subrange(0, i + 1).drop_last() =~= vals.subrange(0, i as int));
            }
            let ghost r0 = r@;
            if flags[i] {
                let m = self.vectors.value_at(i);
                r.push(m);
                proof {
                    assert(stored_of(r@) =~= stored_of(r0).push(*m));
                }
            }
            i = i + 1;
        }
        proof {
            assert(vals.subrange(0, n as int) =~= vals);
        }
        r
    }

    /// Every stored vector, in insertion order.
    pub fn all_stored(&self) -> (r: Vec<&StoredVector<T>>)
        ensures
            stored_of(r@) == self.stored_values(),
    {
        let n = self.vectors.len();
        let mut flags: Vec<bool> = Vec::new();
        let mut i: usize = 0;
        while i < n
            invariant
                i <= n,
                n == self.stored_values().len(),
                flags@.len() == i,
                forall|j: int| 0 <= j < i ==> flags@[j],
            decreases n - i,
        {
            flags.push(true);
            i = i + 1;
        }
        let r = self.select(&flags);
        proof {
            lemma_select_stored_all(self.stored_values(), flags@);
        }
        r
    }

    /// Stores each entry in turn, as [`Self::insert`] does.
    pub fn batch_insert(&mut self, entries: Vec<(String, Vec<T>, VectorMetadata)>)
        ensures
            final(self).stored().dom() == old(self).stored().dom().union(entries@.map_values(
                |e: (String, Vec<T>, VectorMetadata)| e.0@,
            ).to_set()),
            seq_linked(final(self).stored_ids(), final(self).stored_values(), final(self).stored()),
    {
        let _ = self.len();
        let mut rest = entries;
        let ghost all = rest@;
        let ghost start = self.stored().dom();
        let n = rest.len();
        let mut i: usize = 0;
        proof {
            assert(rest@ =~= all.subrange(0, n as int));
            assert(all.subrange(0, 0).map_values(|e: (String, Vec<T>, VectorMetadata)| e.0@).to_set() =~= Set::<
                Seq<char>,
            >::empty());
        }
        while i < n
            invariant
                i <= n,
                n == all.len(),
                rest@ == all.subrange(i as int, n as int),
                self.stored().dom() == start.union(all.subrange(0, i as int).map_values(
                    |e: (String, Vec<T>, VectorMetadata)| e.0@,
                ).to_set()),
                seq_linked(self.stored_ids(), self.stored_values(), self.stored()),
            decreases n - i,
        {
            let e = rest.remove(0);
            proof {
                assert(e == all[i as int]);
                assert(rest@ =~= all.subrange(i + 1, n as int));
            }
            let (id, vector, metadata) = e;
            let ghost idv = id@;
            self.insert(id, vector, metadata);
            proof {
                let ks0 = all.subrange(0, i as int).map_values(|e: (String, Vec<T>, VectorMetadata)| e.0@);
                let ks1 = all.subrange(0, i + 1).map_values(|e: (String, Vec<T>, VectorMetadata)| e.0@);
                assert(ks1 =~= ks0.push(idv));
                lemma_to_set_push(ks0, idv);
                assert(self.stored().dom() =~= start.union(ks1.to_set()));
            }
            i = i + 1;
        }
        proof {
            assert(all.subrange(0, n as int) =~= all);
        }
    }

    /// The stored vectors of document `document_id`, in insertion order.
    pub fn by_document(&self, document_id: &str) -> (r: Vec<&StoredVector<T>>)
        ensures
            stored_of(r@) == select_stored(
                self.stored_values(),
                self.stored_values().map_values(|s: StoredVector<T>| s.metadata.document_id@ == document_id@),
            ),
    {
        let ghost vals = self.stored_values();
        let n = self.vectors.len();
        let mut flags: Vec<bool> = Vec::new();
        let mut i: usize = 0;
        while i < n
            invariant
                i <= n,
                n == vals.len(),
                vals == self.stored_values(),
                flags@ == vals.subrange(0, i as int).map_values(|s: StoredVector<T>| s.metadata.document_id@ == document_id@),
            decreases n - i,
        {
            let b = str_eq(self.vectors.value_at(i).metadata.document_id.as_str(), document_id);
            flags.push(b);
            proof {
                assert(flags@ =~= vals.subrange(0, i + 1).map_values(
                    |s: StoredVector<T>| s.metadata.document_id@ == document_id@,
                ));
            }
            i = i + 1;
        }
        proof {
            assert(vals.subrange(0, n as int) =~= vals);
        }
        self.select(&flags)
    }

    /// The stored vectors tagged `tag`, in insertion order.
    pub fn by_tag(&self, tag: &str) -> (r: Vec<&StoredVector<T>>)
        ensures
            stored_of(r@) == select_stored(
                self.stored_values(),
                self.stored_values().map_values(|s: StoredVector<T>| str_views(s.metadata.tags@).contains(tag@)),
            ),
    {
        let ghost vals = self.stored_values();
        let n = self.vectors.len();
        let mut flags: Vec<bool> = Vec::new();
        let mut i: usize = 0;
        while i < n
            invariant
                i <= n,
                n == vals.len(),
                vals == self.stored_values(),
                flags@ == vals.subrange(0, i as int).map_values(|s: StoredVector<T>| str_views(s.metadata.tags@).contains(tag@)),
            decreases n - i,
        {
            let b = contains_str(&self.vectors.value_at(i).metadata.tags, tag);
            flags.push(b);
            proof {
                assert(flags@ =~= vals.subrange(0, i + 1).map_values(
                    |s: StoredVector<T>| str_views(s.metadata.tags@).contains(tag@),
                ));
            }
            i = i + 1;
        }
        proof {
            assert(vals.subrange(0, n as int) =~= vals);
        }
        self.select(&flags)
    }

    /// The stored vectors of module `module`, in insertion order.
    pub fn by_module(&self, module: &str) -> (r: Vec<&StoredVector<T>>)
        ensures
            stored_of(r@) == select_stored(
                self.stored_values(),
                self.stored_values().map_values(|s: StoredVector<T>| s.metadata.module@ == module@),
            ),
    {
        let ghost vals = self.stored_values();
        let n = self.vectors.len();
        let mut flags: Vec<bool> = Vec::new();
        let mut i: usize = 0;
        while i < n
            invariant
                i <= n,
                n == vals.len(),
                vals == self.stored_values(),
                flags@ == vals.subrange(0, i as int).map_values(|s: StoredVector<T>| s.metadata.module@ == module@),
            decreases n - i,
        {
            let b = str_eq(self.vectors.value_at(i).metadata.module.as_str(), module);
            flags.push(b);
            proof {
                assert(flags@ =~= vals.subrange(0, i + 1).map_values(|s: StoredVector<T>| s.metadata.module@ == module@));
            }
            i = i + 1;
        }
        proof {
            assert(vals.subrange(0, n as int) =~= vals);
        }
        self.select(&flags)
    }

    /// The stored vectors for which `predicate` holds, in insertion order.
    pub fn find<F: Fn(&StoredVector<T>) -> bool>(&self, predicate: F) -> (r: Vec<&StoredVector<T>>)
        requires
            forall|s: &StoredVector<T>| predicate.requires((s,)),
        ensures
            exists|flags: Seq<bool>|
                flags.len() == self.stored_values().len() && (forall|i: int|
                    0 <= i < flags.len() ==> predicate.ensures((&self.stored_values()[i],), #[trigger] flags[i]))
                    && stored_of(r@) == select_stored(self.stored_values(), flags),
    {
        let ghost vals = self.stored_values();
        let n = self.vectors.len();
        let mut flags: Vec<bool> = Vec::new();
        let mut i: usize = 0;
        while i < n
            invariant
                i <= n,
                n == vals.len(),
                vals == self.stored_values(),
                forall|s: &StoredVector<T>| predicate.requires((s,)),
                flags@.len() == i,
                forall|j: int| 0 <= j < i ==> predicate.ensures((&vals[j],), #[trigger] flags@[j]),
            decreases n - i,
        {
            let m = self.vectors.value_at(i);
            let b = predicate(m);
            flags.push(b);
            proof {
                assert(*m == vals[i as int]);
            }
            i = i + 1;
        }
        self.select(&flags)
    }

    /// The metadata store.
    pub fn metadata_store(&self) -> (r: &MetadataStore)
        ensures
            *r == self.spec_metadata(),
    {
        &self.metadata_store
    }

    /// The metadata store, for changing.
    pub fn metadata_store_mut(&mut self) -> (r: &mut MetadataStore)
        ensures
            *r == old(self).spec_metadata(),
            final(self).spec_metadata() == *final(r),
            final(self).stored() == old(self).stored(),
            final(self).stored_values() == old(self).stored_values(),
            final(self).stored_ids() == old(self).stored_ids(),
    {
        &mut self.metadata_store
    }

    /// Removes every vector and every metadata record.
    pub fn clear(&mut self)
        ensures
            final(self).stored() == Map::<Seq<char>, StoredVector<T>>::empty(),
            final(self).stored_values().len() == 0,
            final(self).stored_ids().len() == 0,
            seq_linked(final(self).stored_ids(), final(self).stored_values(), final(self).stored()),
            final(self).spec_metadata().spec_map() == Map::<Seq<char>, VectorMetadata>::empty(),
    {
        self.vectors.clear();
        self.metadata_store.clear();
        proof {
            assert(self.stored_values() =~= Seq::<StoredVector<T>>::empty());
            assert(self.stored_ids() =~= Seq::<Seq<char>>::empty());
            self.lemma_linked();
        }
    }

    /// Replaces the metadata of vector `id` (recording a copy in the metadata
    /// store); `false`, with nothing changed, when no vector `id` is stored.
    pub fn update_metadata(&mut self, id: &str, metadata: VectorMetadata) -> (r: bool)
        ensures
            r == old(self).stored().dom().contains(id@),
            !r ==> final(self).stored() == old(self).stored() && final(self).spec_metadata() == old(self).spec_metadata(),
            r ==> final(self).stored().dom() == old(self).stored().dom() && final(self).stored()[id@].vector@ == old(
                self,
            ).stored()[id@].vector@ && same_record(final(self).stored()[id@].metadata, metadata)
                && final(self).spec_metadata().spec_map() == old(self).spec_metadata().spec_map().insert(metadata.id@, metadata),
            r ==> forall|k: Seq<char>| k != id@ && #[trigger] old(self).stored().dom().contains(k) ==> final(self).stored()[k]
                == old(self).stored()[k],
            r ==> final(self).stored_ids() == old(self).stored_ids() && final(self).stored_values() == old(
                self,
            ).stored_values().update(old(self).stored_ids().index_of(id@), final(self).stored()[id@]),
            seq_linked(final(self).stored_ids(), final(self).stored_values(), final(self).stored()),
    {
        let ghost old_pairs = self.vectors.pairs();
        let updated = match self.vectors.get(id) {
            Some(stored) => Some(
                StoredVector {
                    id: copy_string(&stored.id),
                    vector: crate::knowledge::embedding::cache::copy_components(&stored.vector),
                    metadata: metadata.duplicate(),
                },
            ),
            None => None,
        };
        match updated {
            Some(sv) => {
                let ghost s = sv;
                self.vectors.insert(crate::text::owned(id), sv);
                self.metadata_store.insert(metadata);
                proof {
                    self.lemma_linked();
                    lemma_pairs_linked(old_pairs);
                    let ok = pair_keys(old_pairs);
                    let c = choose|i: int| 0 <= i < old_pairs.len() && #[trigger] old_pairs[i].0 == id@;
                    assert(ok[c] == id@);
                    assert(ok.contains(id@));
                    let j = ok.index_of(id@);
                    assert(ok[j] == id@);
                    assert(j == c);
                    assert(self.stored_ids() =~= ok);
                    assert(self.stored_values() =~= pair_values(old_pairs).update(c, s));
                }
                true
            },
            None => {
                proof {
                    lemma_pairs_linked(old_pairs);
                }
                false
            },
        }
    }

    /// The number of vectors, the dimension of the first one (0 when there is
    /// none), and the numbers of distinct modules and documents.
    pub fn statistics(&self) -> (r: VectorStorageStatistics)
        ensures
            r.total_vectors == self.stored_values().len(),
            r.vector_dimension == (if self.stored_values().len() > 0 {
                self.stored_values()[0].vector@.len()
            } else {
                0
            }),
            r.unique_modules == self.stored_values().map_values(|s: StoredVector<T>| s.metadata.module@).to_set().len(),
            r.unique_documents == self.stored_values().map_values(|s: StoredVector<T>| s.metadata.document_id@).to_set().len(),
    {
        let ghost vals = self.stored_values();
        let n = self.vectors.len();
        let dimension = if n > 0 {
            self.vectors.value_at(0).vector.len()
        } else {
            0
        };
        let mut modules: Vec<String> = Vec::new();
        let mut documents: Vec<String> = Vec::new();
        let mut i: usize = 0;
        while i < n
            invariant
                i <= n,
                n == vals.len(),
                vals == self.stored_values(),
                str_views(modules@).no_duplicates(),
                str_views(documents@).no_duplicates(),
                str_views(modules@).to_set() == vals.subrange(0, i as int).map_values(|s: StoredVector<T>| s.metadata.module@).to_set(),
                str_views(documents@).to_set() == vals.subrange(0, i as int).map_values(
                    |s: StoredVector<T>| s.metadata.document_id@,
                ).to_set(),
            decreases n - i,
        {
            let sv = self.vectors.value_at(i);
            proof {
                assert(*sv == vals[i as int]);
            }
            add_distinct(&mut modules, &sv.metadata.module);
            add_distinct(&mut documents, &sv.metadata.document_id);
            proof {
                let p0 = vals.subrange(0, i as int);
                let p1 = vals.subrange(0, i + 1);
                assert(p1 =~= p0.push(vals[i as int]));
                assert(p1.map_values(|s: StoredVector<T>| s.metadata.module@) =~= p0.map_values(
                    |s: StoredVector<T>| s.metadata.module@,
                ).push(sv.metadata.module@));
                assert(p1.map_values(|s: StoredVector<T>| s.metadata.document_id@) =~= p0.map_values(
                    |s: StoredVector<T>| s.metadata.document_id@,
                ).push(sv.metadata.document_id@));
                lemma_to_set_push(p0.map_values(|s: StoredVector<T>| s.metadata.module@), sv.metadata.module@);
                lemma_to_set_push(p0.map_values(|s: StoredVector<T>| s.metadata.document_id@), sv.metadata.document_id@);
            }
            i = i + 1;
        }
        proof {
            assert(vals.subrange(0, n as int) =~= vals);
            str_views(modules@).unique_seq_to_set();
            str_views(documents@).unique_seq_to_set();
        }
        VectorStorageStatistics {
            total_vectors: n,
            vector_dimension: dimension,
            unique_modules: modules.len(),
            unique_documents: documents.len(),
        }
    }
}

/// Adds `s` to `v` unless it is already there.
pub(crate) fn add_distinct(v: &mut Vec<String>, s: &String)
    requires
        str_views(old(v)@).no_duplicates(),
    ensures
        str_views(final(v)@).no_duplicates(),
        str_views(final(v)@).to_set() == str_views(old(v)@).to_set().insert(s@),
{
    let ghost v0 = str_views(v@);
    if contains_str(v, s.as_str()) {
        proof {
            assert(v0.to_set().insert(s@) =~= v0.to_set());
        }
    } else {
        v.push(copy_string(s));
        proof {
            let v1 = str_views(v@);
            assert(v1 =~= v0.push(s@));
            assert forall|a: int, b: int| 0 <= a < v1.len() && 0 <= b < v1.len() && a != b implies v1[a] != v1[b] by {
                if a < v0.len() && b < v0.len() {
                    assert(v0[a] != v0[b]);
                } else if a < v0.len() {
                    assert(v0[a] != s@);
                } else {
                    assert(v0[b] != s@);
                }
            }
            lemma_to_set_push(v0, s@);
        }
    }
}

/// Pushing an item adds it to the set of items.
pub(crate) proof fn lemma_to_set_push(s: Seq<Seq<char>>, x: Seq<char>)
    ensures
        s.push(x).to_set() == s.to_set().insert(x),
{
    assert forall|y: Seq<char>| s.push(x).to_set().contains(y) <==> s.to_set().insert(x).contains(y) by {
        if s.push(x).contains(y) {
            let k = choose|k: int| 0 <= k < s.push(x).len() && s.push(x)[k] == y;
            if k < s.len() {
                assert(s[k] == y);
            }
        }
        if s.contains(y) {
            let k = choose|k: int| 0 <= k < s.len() && s[k] == y;
            assert(s.push(x)[k] == y);
        }
        if y == x {
            assert(s.push(x)[s.len() as int] == y);
        }
    }
    assert(s.push(x).to_set() =~= s.to_set().insert(x));
}

proof fn lemma_select_stored_all<T>(vals: Seq<StoredVector<T>>, flags: Seq<bool>)
    requires
        flags.len() == vals.len(),
        forall|j: int| 0 <= j < flags.len() ==> flags[j],
    ensures
        select_stored(vals, flags) == vals,
    decreases vals.len(),
{
    if vals.len() > 0 {
        lemma_select_stored_all(vals.drop_last(), flags.drop_last());
        lemma_select_stored_prefix(vals.drop_last(), flags, flags.drop_last());
        assert(vals.drop_last().push(vals.last()) =~= vals);
    }
}

proof fn lemma_select_stored_prefix<T>(vals: Seq<StoredVector<T>>, f1: Seq<bool>, f2: Seq<bool>)
    requires
        vals.len() <= f1.len(),
        vals.len() <= f2.len(),
        forall|j: int| 0 <= j < vals.len() ==> f1[j] == f2[j],
    ensures
        select_stored(vals, f1) == select_stored(vals, f2),
    decreases vals.len(),
{
    if vals.len() > 0 {
        lemma_select_stored_prefix(vals.drop_last(), f1, f2);
    }
}

impl<T: Copy> Default for VectorStorage<T> {
    /// An empty storage.
    fn default() -> (r: Self)
        ensures
            r.stored() == Map::<Seq<char>, StoredVector<T>>::empty(),
    {
        VectorStorage::new()
    }
}

} // verus!
