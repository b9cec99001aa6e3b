//! Metadata of indexed vectors and a store of it keyed by vector identifier.
use vstd::prelude::*;
use crate::strmap::{StrMap, keys_unique, lemma_pairs_linked, pair_keys, pair_values, seq_linked};
use crate::text::{contains_str, copy_string, join_strings, owned, push_decimal, spec_decimal, spec_join, str_eq, str_views};
use crate::time::unix_now_secs;

verus! {

/// What is known about an indexed vector: where its text comes from and how it
/// was made.
#[derive(Debug, Clone)]
pub struct VectorMetadata {
    /// Identifier of the vector.
    pub id: String,
    /// Document the vector comes from.
    pub document_id: String,
    /// Chunk of the document.
    pub chunk_id: usize,
    /// Text of the chunk.
    pub content: String,
    /// Language of the text.
    pub language: String,
    /// Source of the document.
    pub source: String,
    /// Module or category of the text.
    pub module: String,
    /// File path or location.
    pub path: String,
    /// Classification tags.
    pub tags: Vec<String>,
    /// Hash of the content.
    pub content_hash: String,
    /// When the vector was indexed, in seconds since the Unix epoch.
    pub timestamp: u64,
    /// Version of the embedding model.
    pub embedding_version: String,
    /// Author of the document.
    pub author: String,
    /// Title of the document or section.
    pub title: String,
    /// Further fields.
    pub extra: StrMap<String>,
}

impl VectorMetadata {
    /// A record with the given fields, stamped with the current time and no
    /// further fields.
    pub fn new(
        id: String,
        document_id: String,
        chunk_id: usize,
        content: String,
        language: String,
        source: String,
        module: String,
        path: String,
        tags: Vec<String>,
        content_hash: String,
        embedding_version: String,
        author: String,
        title: String,
    ) -> (r: Self)
        ensures
            r.id == id,
            r.document_id == document_id,
            r.chunk_id == chunk_id,
            r.content == content,
            r.language == language,
            r.source == source,
            r.module == module,
            r.path == path,
            r.tags == tags,
            r.content_hash == content_hash,
            r.embedding_version == embedding_version,
            r.author == author,
            r.title == title,
            r.extra@ == Map::<Seq<char>, String>::empty(),
    {
        VectorMetadata {
            id,
            document_id,
            chunk_id,
            content,
            language,
            source,
            module,
            path,
            tags,
            content_hash,
            timestamp: unix_now_secs(),
            embedding_version,
            author,
            title,
            extra: StrMap::new(),
        }
    }

    /// A record with only identifier, document and content given; the rest takes
    /// defaults (`en`, `unknown`, chunk 0, version `1.0`, no tags, empty hash and title).
    pub fn minimal(id: String, document_id: String, content: String) -> (r: Self)
        ensures
            r.id == id,
            r.document_id == document_id,
            r.chunk_id == 0,
            r.content == content,
            r.language@ == "en"@,
            r.source@ == "unknown"@,
            r.module@ == "unknown"@,
            r.path@ == "unknown"@,
            r.tags@.len() == 0,
            r.content_hash@ == ""@,
            r.embedding_version@ == "1.0"@,
            r.author@ == "unknown"@,
            r.title@ == ""@,
            r.extra@ == Map::<Seq<char>, String>::empty(),
    {
        Self::new(
            id,
            document_id,
            0,
            content,
            owned("en"),
            owned("unknown"),
            owned("unknown"),
            owned("unknown"),
            Vec::new(),
            owned(""),
            owned("1.0"),
            owned("unknown"),
            owned(""),
        )
    }

    /// The fields that a search result reports of the vector it found: document,
    /// chunk (in decimal), language, source, module and the tags joined by commas.
    pub fn result_fields(&self) -> (r: StrMap<String>)
        ensures
            r@.dom() =~= set!["document_id"@, "chunk_id"@, "language"@, "source"@, "module"@, "tags"@],
            r@["document_id"@]@ == self.document_id@,
            r@["chunk_id"@]@ == spec_decimal(self.chunk_id as nat),
            r@["language"@]@ == self.language@,
            r@["source"@]@ == self.source@,
            r@["module"@]@ == self.module@,
            r@["tags"@]@ == spec_join(str_views(self.tags@), ","@),
    {
        proof {
            reveal_strlit("document_id");
            reveal_strlit("chunk_id");
            reveal_strlit("language");
            reveal_strlit("source");
            reveal_strlit("module");
            reveal_strlit("tags");
            assert("document_id"@[0] == 'd' && "chunk_id"@[0] == 'c' && "language"@[0] == 'l');
            assert("source"@[0] == 's' && "module"@[0] == 'm' && "tags"@[0] == 't');
        }
        let mut chunk = String::new();
        push_decimal(&mut chunk, self.chunk_id as u64);
        let mut r: StrMap<String> = StrMap::new();
        r.insert(owned("document_id"), copy_string(&self.document_id));
        r.insert(owned("chunk_id"), chunk);
        r.insert(owned("language"), copy_string(&self.language));
        r.insert(owned("source"), copy_string(&self.source));
        r.insert(owned("module"), copy_string(&self.module));
        r.insert(owned("tags"), join_strings(&self.tags, ","));
        r
    }

    /// The record with the further field `key` set to `value`.
    pub fn with_extra(self, key: String, value: String) -> (r: Self)
        ensures
            r.extra@ == self.extra@.insert(key@, value),
            r == (VectorMetadata { extra: r.extra, ..self }),
    {
        let mut m = self;
        m.extra.insert(key, value);
        m
    }

    /// The record with `tags` appended to its tags.
    pub fn with_tags(self, tags: Vec<String>) -> (r: Self)
        ensures
            r.tags@ == self.tags@ + tags@,
            r == (VectorMetadata { tags: r.tags, ..self }),
    {
        let mut m = self;
        let mut more = tags;
        m.tags.append(&mut more);
        m
    }

    /// The further field `key`, if set.
    pub fn get_extra(&self, key: &str) -> (r: Option<&str>)
        ensures
            r is Some <==> self.extra@.dom().contains(key@),
            r matches Some(v) ==> v@ == self.extra@[key@]@,
    {
        match self.extra.get(key) {
            Some(v) => Some(v.as_str()),
            None => None,
        }
    }

    /// Whether the record satisfies `predicate`.
    pub fn matches_filter<F: Fn(&VectorMetadata) -> bool>(&self, predicate: F) -> (r: bool)
        requires
            predicate.requires((self,)),
        ensures
            predicate.ensures((self,), r),
    {
        predicate(self)
    }
}

/// Every further field that `m` names has the value given there in `md`.
pub open spec fn extra_matches(md: VectorMetadata, m: Map<Seq<char>, Seq<char>>) -> bool {
    forall|k: Seq<char>| #[trigger] m.dom().contains(k) ==> md.extra@.dom().contains(k) && md.extra@[k]@ == m[k]
}

/// The texts of a string map.
pub open spec fn text_map(m: StrMap<String>) -> Map<Seq<char>, Seq<char>> {
    m@.map_values(|s: String| s@)
}

/// `a` and `b` hold the same texts and numbers.
pub open spec fn same_record(a: VectorMetadata, b: VectorMetadata) -> bool {
    &&& a.id@ == b.id@
    &&& a.document_id@ == b.document_id@
    &&& a.chunk_id == b.chunk_id
    &&& a.content@ == b.content@
    &&& a.language@ == b.language@
    &&& a.source@ == b.source@
    &&& a.module@ == b.module@
    &&& a.path@ == b.path@
    &&& str_views(a.tags@) == str_views(b.tags@)
    &&& a.content_hash@ == b.content_hash@
    &&& a.timestamp == b.timestamp
    &&& a.embedding_version@ == b.embedding_version@
    &&& a.author@ == b.author@
    &&& a.title@ == b.title@
    &&& text_map(a.extra) == text_map(b.extra)
}

/// A copy of a string map.
fn copy_text_map(m: &StrMap<String>) -> (r: StrMap<String>)
    ensures
        text_map(r) == text_map(*m),
{
    let n = m.len();
    let mut r: StrMap<String> = StrMap::new();
    let mut i: usize = 0;
    while i < n
        invariant
            i <= n,
            n == m.pairs().len(),
            crate::strmap::keys_unique(m.pairs()),
            forall|x: Seq<char>| #[trigger] r@.dom().contains(x) <==> exists|j: int| 0 <= j < i && m.pairs()[j].0 == x,
            forall|j: int| 0 <= j < i ==> #[trigger] r@.dom().contains(m.pairs()[j].0) && r@[m.pairs()[j].0]@ == m.pairs()[j].1@,
        decreases n - i,
    {
        let k = m.key_at(i);
        let v = m.value_at(i);
        let ghost r0 = r@;
        r.insert(copy_string(k), copy_string(v));
        proof {
            assert forall|x: Seq<char>| #[trigger] r@.dom().contains(x) <==> exists|j: int| 0 <= j < i + 1 && m.pairs()[j].0 == x by {
                if x == k@ {
                    assert(m.pairs()[i as int].0 == x);
                }
                if r0.dom().contains(x) {
                    let j = choose|j: int| 0 <= j < i && m.pairs()[j].0 == x;
                    assert(0 <= j < i + 1 && m.pairs()[j].0 == x);
                }
            }
            assert forall|j: int| 0 <= j < i + 1 implies #[trigger] r@.dom().contains(m.pairs()[j].0) && r@[m.pairs()[j].0]@ == m.pairs()[j].1@ by {
                if j < i {
                    assert(m.pairs()[j].0 != m.pairs()[i as int].0);
                }
            }
        }
        i = i + 1;
    }
    proof {
        assert forall|x: Seq<char>| #[trigger] text_map(r).dom().contains(x) <==> text_map(*m).dom().contains(x) by {
            if r@.dom().contains(x) {
                let j = choose|j: int| 0 <= j < n && m.pairs()[j].0 == x;
                crate::strmap::lemma_pairs_map_at(m.pairs(), j);
            }
            if m@.dom().contains(x) {
                let j = choose|j: int| 0 <= j < m.pairs().len() && #[trigger] m.pairs()[j].0 == x;
                assert(r@.dom().contains(m.pairs()[j].0));
            }
        }
        assert forall|x: Seq<char>| #[trigger] text_map(r).dom().contains(x) implies text_map(r)[x] == text_map(*m)[x] by {
            let j = choose|j: int| 0 <= j < n && m.pairs()[j].0 == x;
            crate::strmap::lemma_pairs_map_at(m.pairs(), j);
        }
        assert(text_map(r) =~= text_map(*m));
    }
    r
}

/// A copy of a list of strings.
pub(crate) fn copy_strings(v: &Vec<String>) -> (r: Vec<String>)
    ensures
        str_views(r@) == str_views(v@),
{
    let mut r: Vec<String> = Vec::new();
    let n = v.len();
    let mut i: usize = 0;
    while i < n
        invariant
            i <= n,
            n == v@.len(),
            str_views(r@) == str_views(v@).subrange(0, i as int),
        decreases n - i,
    {
        let ghost r0 = r@;
        let c = copy_string(&v[i]);
        r.push(c);
        proof {
            assert(r@ == r0.push(c));
            assert(str_views(r@) =~= str_views(r0).push(c@));
            assert(str_views(v@)[i as int] == v@[i as int]@);
            assert(str_views(r@) =~= str_views(v@).subrange(0, i + 1));
        }
        i = i + 1;
    }
    proof {
        assert(str_views(v@).subrange(0, n as int) =~= str_views(v@));
    }
    r
}

impl VectorMetadata {
    /// A copy of the record.
    pub fn duplicate(&self) -> (r: Self)
        ensures
            same_record(r, *self),
    {
        VectorMetadata {
            id: copy_string(&self.id),
            document_id: copy_string(&self.document_id),
            chunk_id: self.chunk_id,
            content: copy_string(&self.content),
            language: copy_string(&self.language),
            source: copy_string(&self.source),
            module: copy_string(&self.module),
            path: copy_string(&self.path),
            tags: copy_strings(&self.tags),
            content_hash: copy_string(&self.content_hash),
            timestamp: self.timestamp,
            embedding_version: copy_string(&self.embedding_version),
            author: copy_string(&self.author),
            title: copy_string(&self.title),
            extra: copy_text_map(&self.extra),
        }
    }
}

/// `md` passes the filters of a search: it is in module `namespace` and written
/// in `language` when these are given, and every further field that
/// `metadata_filter` names has the value given there.
pub open spec fn passes_filters(
    md: VectorMetadata,
    namespace: Option<Seq<char>>,
    language: Option<Seq<char>>,
    metadata_filter: Option<Map<Seq<char>, Seq<char>>>,
) -> bool {
    let ns_ok = match namespace {
        Some(ns) => md.module@ == ns,
        None => true,
    };
    let lang_ok = match language {
        Some(l) => md.language@ == l,
        None => true,
    };
    let extra_ok = match metadata_filter {
        Some(m) => extra_matches(md, m),
        None => true,
    };
    ns_ok && lang_ok && extra_ok
}

impl VectorMetadata {
    /// Whether the record passes the filters of a search (see [`passes_filters`]).
    pub fn matches_search_filters(
        &self,
        namespace: Option<&str>,
        language: Option<&str>,
        metadata_filter: Option<&StrMap<String>>,
    ) -> (r: bool)
        ensures
            r == passes_filters(
                *self,
                match namespace {
                    Some(n) => Some(n@),
                    None => None,
                },
                match language {
                    Some(l) => Some(l@),
                    None => None,
                },
                match metadata_filter {
                    Some(m) => Some(m@.map_values(|s: String| s@)),
                    None => None,
                },
            ),
    {
        if let Some(ns) = namespace {
            if !str_eq(self.module.as_str(), ns) {
                return false;
            }
        }
        if let Some(lang) = language {
            if !str_eq(self.language.as_str(), lang) {
                return false;
            }
        }
        if let Some(m) = metadata_filter {
            let n = m.len();
            let ghost mm = m@.map_values(|s: String| s@);
            let mut i: usize = 0;
            while i < n
                invariant
                    i <= n,
                    n == m.pairs().len(),
                    crate::strmap::keys_unique(m.pairs()),
                    mm == m@.map_values(|s: String| s@),
                    metadata_filter == Some(m),
                    namespace matches Some(ns) ==> self.module@ == ns@,
                    language matches Some(l) ==> self.language@ == l@,
                    forall|j: int| 0 <= j < i ==> self.extra@.dom().contains(#[trigger] m.pairs()[j].0) && self.extra@[m.pairs()[j].0]@
                        == m.pairs()[j].1@,
                decreases n - i,
            {
                let k = m.key_at(i);
                let v = m.value_at(i);
                match self.extra.get(k.as_str()) {
                    Some(val) => {
                        if !str_eq(val.as_str(), v.as_str()) {
                            proof {
                                crate::strmap::lemma_pairs_map_at(m.pairs(), i as int);
                                assert(mm.dom().contains(k@));
                                assert(mm[k@] == v@);
                                assert(self.extra@[k@]@ != mm[k@]);
                                assert(!extra_matches(*self, mm));
                            }
                            return false;
                        }
                    },
                    None => {
                        proof {
                            crate::strmap::lemma_pairs_map_at(m.pairs(), i as int);
                            assert(mm.dom().contains(k@));
                            assert(!self.extra@.dom().contains(k@));
                            assert(!extra_matches(*self, mm));
                        }
                        return false;
                    },
                }
                i = i + 1;
            }
            proof {
                assert forall|k: Seq<char>| #[trigger] mm.dom().contains(k) implies self.extra@.dom().contains(k) && self.extra@[k]@ == mm[k] by {
                    let j = choose|j: int| 0 <= j < m.pairs().len() && #[trigger] m.pairs()[j].0 == k;
                    crate::strmap::lemma_pairs_map_at(m.pairs(), j);
                }
            }
        }
        true
    }
}

/// The records of `vals` whose flag is set, in order.
pub open spec fn select_by(vals: Seq<VectorMetadata>, flags: Seq<bool>) -> Seq<VectorMetadata>
    decreases vals.len(),
{
    if vals.len() == 0 {
        Seq::empty()
    } else if flags[vals.len() - 1] {
        select_by(vals.drop_last(), flags).push(vals.last())
    } else {
        select_by(vals.drop_last(), flags)
    }
}

/// The records behind a list of references.
pub open spec fn records(v: Seq<&VectorMetadata>) -> Seq<VectorMetadata> {
    v.map_values(|m: &VectorMetadata| *m)
}

/// Vector metadata keyed by vector identifier, in insertion order.
pub struct MetadataStore {
    store: StrMap<VectorMetadata>,
}

impl MetadataStore {
    /// The records keyed by vector identifier.
    pub closed spec fn spec_map(&self) -> Map<Seq<char>, VectorMetadata> {
        self.store@
    }

    /// The records, in insertion order.
    pub closed spec fn values(&self) -> Seq<VectorMetadata> {
        pair_values(self.store.pairs())
    }

    /// The identifiers under which the records are filed, in insertion order.
    pub closed spec fn keys(&self) -> Seq<Seq<char>> {
        pair_keys(self.store.pairs())
    }

    /// Identifiers, records and the map by identifier agree.
    proof fn lemma_linked(&self)
        requires
            keys_unique(self.store.pairs()),
        ensures
            seq_linked(self.keys(), self.values(), self.spec_map()),
    {
        lemma_pairs_linked(self.store.pairs());
    }

    /// An empty store.
    pub fn new() -> (r: Self)
        ensures
            r.spec_map() == Map::<Seq<char>, VectorMetadata>::empty(),
            r.keys().len() == 0,
            r.values().len() == 0,
            seq_linked(r.keys(), r.values(), r.spec_map()),
    {
        let r = MetadataStore { store: StrMap::new() };
        proof {
            assert(r.values() =~= Seq::<VectorMetadata>::empty());
            assert(r.keys() =~= Seq::<Seq<char>>::empty());
            r.lemma_linked();
        }
        r
    }

    /// Stores `metadata` under its identifier, replacing any record stored there:
    /// a new identifier is appended, a known one keeps its place.
    pub fn insert(&mut self, metadata: VectorMetadata)
        ensures
            final(self).spec_map() == old(self).spec_map().insert(metadata.id@, metadata),
            seq_linked(final(self).keys(), final(self).values(), final(self).spec_map()),
            !old(self).spec_map().dom().contains(metadata.id@) ==> final(self).keys() == old(self).keys().push(
                metadata.id@,
            ) && final(self).values() == old(self).values().push(metadata),
            old(self).spec_map().dom().contains(metadata.id@) ==> final(self).keys() == old(self).keys()
                && final(self).values() == old(self).values().update(
                old(self).keys().index_of(metadata.id@),
                metadata,
            ),
    {
        let ghost old_pairs = self.store.pairs();
        let ghost k = metadata.id@;
        let ghost md = metadata;
        let key = copy_string(&metadata.id);
        self.store.insert(key, metadata);
        proof {
            self.lemma_linked();
            lemma_pairs_linked(old_pairs);
            let ok = pair_keys(old_pairs);
            if crate::strmap::has_key(old_pairs, k) {
                let c = choose|i: int| 0 <= i < old_pairs.len() && #[trigger] old_pairs[i].0 == k;
                assert(ok[c] == k);
                assert(ok.contains(k));
                let j = ok.index_of(k);
                assert(ok[j] == k);
                assert(j == c);
                assert(self.keys() =~= ok);
                assert(self.values() =~= pair_values(old_pairs).update(c, md));
            } else {
                assert(self.keys() =~= ok.push(k));
                assert(self.values() =~= pair_values(old_pairs).push(md));
            }
        }
    }

    /// The record of vector `id`.
    pub fn get(&self, id: &str) -> (r: Option<&VectorMetadata>)
        ensures
            r is Some <==> self.spec_map().dom().contains(id@),
            r matches Some(m) ==> *m == self.spec_map()[id@],
            seq_linked(self.keys(), self.values(), self.spec_map()),
    {
        let r = self.store.get(id);
        proof {
            self.lemma_linked();
        }
        r
    }

    /// The record of vector `id`, to be changed in place (it stays filed under `id`,
    /// in its place).
    pub fn get_mut(&mut self, id: &str) -> (r: Option<&mut VectorMetadata>)
        ensures
            r is Some <==> old(self).spec_map().dom().contains(id@),
            r matches Some(m) ==> *m == old(self).spec_map()[id@] && final(self).spec_map() == old(
                self,
            ).spec_map().insert(id@, *final(m)) && final(self).keys() == old(self).keys()
                && final(self).values() == old(self).values().update(old(self).keys().index_of(id@), *final(m)),
            r is None ==> final(self).spec_map() == old(self).spec_map() && final(self).keys() == old(self).keys()
                && final(self).values() == old(self).values(),
            seq_linked(final(self).keys(), final(self).values(), final(self).spec_map()),
    {
        self.store.get_mut(id)
    }

    /// Removes and returns the record of vector `id`; the others keep their order.
    pub fn remove(&mut self, id: &str) -> (r: Option<VectorMetadata>)
        ensures
            final(self).spec_map() == old(self).spec_map().remove(id@),
            r is Some <==> old(self).spec_map().dom().contains(id@),
            r matches Some(m) ==> m == old(self).spec_map()[id@],
            seq_linked(final(self).keys(), final(self).values(), final(self).spec_map()),
            old(self).spec_map().dom().contains(id@) ==> final(self).keys() == old(self).keys().remove(
                old(self).keys().index_of(id@),
            ) && final(self).values() == old(self).values().remove(old(self).keys().index_of(id@)),
            !old(self).spec_map().dom().contains(id@) ==> final(self).keys() == old(self).keys()
                && final(self).values() == old(self).values(),
    {
        let ghost old_pairs = self.store.pairs();
        let r = self.store.remove(id);
        proof {
            self.lemma_linked();
            lemma_pairs_linked(old_pairs);
            let ok = pair_keys(old_pairs);
            if crate::strmap::has_key(old_pairs, id@) {
                let c = choose|i: int| 0 <= i < old_pairs.len() && #[trigger] old_pairs[i].0 == id@;
                assert(ok[c] == id@);
                assert(ok.contains(id@));
                let j = ok.index_of(id@);
                assert(ok[j] == id@);
                assert(j == c);
                assert(self.keys() =~= ok.remove(c));
                assert(self.values() =~= pair_values(old_pairs).remove(c));
            }
        }
        r
    }

    /// Every record, in insertion order.
    pub fn all(&self) -> (r: Vec<&VectorMetadata>)
        ensures
            records(r@) == self.values(),
    {
        let n = self.store.len();
        let mut flags: Vec<bool> = Vec::new();
        let mut i: usize = 0;
        while i < n
            invariant
                i <= n,
                n == self.values().len(),
                flags@.len() == i,
                forall|j: int| 0 <= j < i ==> flags@[j],
            decreases n - i,
        {
            flags.push(true);
            i = i + 1;
        }
        let r = self.select(&flags);
        proof {
            lemma_select_all(self.values(), flags@);
        }
        r
    }

    /// The records whose flag is set, in insertion order.
    fn select(&self, flags: &Vec<bool>) -> (r: Vec<&VectorMetadata>)
        requires
            flags@.len() == self.values().len(),
        ensures
            records(r@) == select_by(self.values(), flags@),
    {
        let ghost vals = self.values();
        let n = self.store.len();
        let mut r: Vec<&VectorMetadata> = Vec::new();
        let mut i: usize = 0;
        while i < n
            invariant
                i <= n,
                n == vals.len(),
                vals == self.values(),
                flags@.len() == n,
                records(r@) == select_by(vals.subrange(0, i as int), flags@),
            decreases n - i,
        {
            proof {
                assert(vals.subrange(0, i + 1).drop_last() =~= vals.subrange(0, i as int));
            }
            let ghost r0 = r@;
            if flags[i] {
                let m = self.store.value_at(i);
                r.push(m);
                proof {
                    assert(records(r@) =~= records(r0).push(*m));
                }
            }
            i = i + 1;
        }
        proof {
            assert(vals.subrange(0, n as int) =~= vals);
        }
        r
    }

    /// Number of records.
    pub fn len(&self) -> (r: usize)
        ensures
            r == self.values().len(),
            r == self.spec_map().dom().len(),
            seq_linked(self.keys(), self.values(), self.spec_map()),
    {
        let r = self.store.len();
        proof {
            crate::strmap::lemma_pairs_map_len(self.store.pairs());
            self.lemma_linked();
        }
        r
    }

    /// Whether the store holds no record.
    pub fn is_empty(&self) -> (r: bool)
        ensures
            r == (self.values().len() == 0),
    {
        self.store.is_empty()
    }

    /// The records of document `document_id`, in insertion order.
    pub fn by_document(&self, document_id: &str) -> (r: Vec<&VectorMetadata>)
        ensures
            records(r@) == select_by(self.values(), self.values().map_values(|m: VectorMetadata| m.document_id@ == document_id@)),
    {
        let ghost vals = self.values();
        let n = self.store.len();
        let mut flags: Vec<bool> = Vec::new();
        let mut i: usize = 0;
        while i < n
            invariant
                i <= n,
                n == vals.len(),
                vals == self.values(),
                flags@ == vals.subrange(0, i as int).map_values(|m: VectorMetadata| m.document_id@ == document_id@),
            decreases n - i,
        {
            let b = str_eq(self.store.value_at(i).document_id.as_str(), document_id);
            flags.push(b);
            proof {
                assert(flags@ =~= vals.subrange(0, i + 1).map_values(|m: VectorMetadata| m.document_id@ == document_id@));
            }
            i = i + 1;
        }
        proof {
            assert(vals.subrange(0, n as int) =~= vals);
        }
        self.select(&flags)
    }

    /// The records tagged `tag`, in insertion order.
    pub fn by_tag(&self, tag: &str) -> (r: Vec<&VectorMetadata>)
        ensures
            records(r@) == select_by(self.values(), self.values().map_values(|m: VectorMetadata| str_views(m.tags@).contains(tag@))),
    {
        let ghost vals = self.values();
        let n = self.store.len();
        let mut flags: Vec<bool> = Vec::new();
        let mut i: usize = 0;
        while i < n
            invariant
                i <= n,
                n == vals.len(),
                vals == self.values(),
                flags@ == vals.subrange(0, i as int).map_values(|m: VectorMetadata| str_views(m.tags@).contains(tag@)),
            decreases n - i,
        {
            let b = contains_str(&self.store.value_at(i).tags, tag);
            flags.push(b);
            proof {
                assert(flags@ =~= vals.subrange(0, i + 1).map_values(|m: VectorMetadata| str_views(m.tags@).contains(tag@)));
            }
            i = i + 1;
        }
        proof {
            assert(vals.subrange(0, n as int) =~= vals);
        }
        self.select(&flags)
    }

    /// The records of module `module`, in insertion order.
    pub fn by_module(&self, module: &str) -> (r: Vec<&VectorMetadata>)
        ensures
            records(r@) == select_by(self.values(), self.values().map_values(|m: VectorMetadata| m.module@ == module@)),
    {
        let ghost vals = self.values();
        let n = self.store.len();
        let mut flags: Vec<bool> = Vec::new();
        let mut i: usize = 0;
        while i < n
            invariant
                i <= n,
                n == vals.len(),
                vals == self.values(),
                flags@ == vals.subrange(0, i as int).map_values(|m: VectorMetadata| m.module@ == module@),
            decreases n - i,
        {
            let b = str_eq(self.store.value_at(i).module.as_str(), module);
            flags.push(b);
            proof {
                assert(flags@ =~= vals.subrange(0, i + 1).map_values(|m: VectorMetadata| m.module@ == module@));
            }
            i = i + 1;
        }
        proof {
            assert(vals.subrange(0, n as int) =~= vals);
        }
        self.select(&flags)
    }

    /// The records for which `predicate` holds, in insertion order.
    pub fn find<F: Fn(&VectorMetadata) -> bool>(&self, predicate: F) -> (r: Vec<&VectorMetadata>)
        requires
            forall|m: &VectorMetadata| predicate.requires((m,)),
        ensures
            exists|flags: Seq<bool>|
                flags.len() == self.values().len() && (forall|i: int|
                    0 <= i < flags.len() ==> predicate.ensures((&self.values()[i],), #[trigger] flags[i]))
                    && records(r@) == select_by(self.values(), flags),
    {
        let ghost vals = self.values();
        let n = self.store.len();
        let mut flags: Vec<bool> = Vec::new();
        let mut i: usize = 0;
        while i < n
            invariant
                i <= n,
                n == vals.len(),
                vals == self.values(),
                forall|m: &VectorMetadata| predicate.requires((m,)),
                flags@.len() == i,
                forall|j: int| 0 <= j < i ==> predicate.ensures((&vals[j],), #[trigger] flags@[j]),
            decreases n - i,
        {
            let m = self.store.value_at(i);
            let b = predicate(m);
            flags.push(b);
            proof {
                assert(*m == vals[i as int]);
            }
            i = i + 1;
        }
        let r = self.select(&flags);
        proof {
            assert(flags@.len() == vals.len());
        }
        r
    }

    /// Removes every record.
    pub fn clear(&mut self)
        ensures
            final(self).spec_map() == Map::<Seq<char>, VectorMetadata>::empty(),
            final(self).keys().len() == 0,
            final(self).values().len() == 0,
            seq_linked(final(self).keys(), final(self).values(), final(self).spec_map()),
    {
        self.store.clear();
        proof {
            assert(self.values() =~= Seq::<VectorMetadata>::empty());
            assert(self.keys() =~= Seq::<Seq<char>>::empty());
            self.lemma_linked();
        }
    }
}

proof fn lemma_select_all(vals: Seq<VectorMetadata>, flags: Seq<bool>)
    requires
        flags.len() == vals.len(),
        forall|j: int| 0 <= j < flags.len() ==> flags[j],
    ensures
        select_by(vals, flags) == vals,
    decreases vals.len(),
{
    if vals.len() > 0 {
        lemma_select_all(vals.drop_last(), flags.drop_last());
        lemma_select_prefix(vals.drop_last(), flags, flags.drop_last());
        assert(vals.drop_last().push(vals.last()) =~= vals);
    }
}

proof fn lemma_select_prefix(vals: Seq<VectorMetadata>, f1: Seq<bool>, f2: Seq<bool>)
    requires
        vals.len() <= f1.len(),
        vals.len() <= f2.len(),
        forall|j: int| 0 <= j < vals.len() ==> f1[j] == f2[j],
    ensures
        select_by(vals, f1) == select_by(vals, f2),
    decreases vals.len(),
{
    if vals.len() > 0 {
        lemma_select_prefix(vals.drop_last(), f1, f2);
    }
}

impl Default for MetadataStore {
    /// An empty store.
    fn default() -> (r: Self)
        ensures
            r.spec_map() == Map::<Seq<char>, VectorMetadata>::empty(),
            r.keys().len() == 0,
            r.values().len() == 0,
            seq_linked(r.keys(), r.values(), r.spec_map()),
    {
        MetadataStore::new()
    }
}

/// Reading a record back after storing it gives that record, and storing it
/// leaves the records of other identifiers as they were.
pub proof fn lemma_store_read_after_write(
    before: Map<Seq<char>, VectorMetadata>,
    after: Map<Seq<char>, VectorMetadata>,
    m: VectorMetadata,
    other: Seq<char>,
)
    requires
        after == before.insert(m.id@, m),
    ensures
        after.dom().contains(m.id@),
        after[m.id@] == m,
        other != m.id@ ==> (after.dom().contains(other) == before.dom().contains(other)),
        other != m.id@ && before.dom().contains(other) ==> after[other] == before[other],
{
}

/// Storing a record under a new identifier adds one record; storing it under a
/// known identifier keeps the count.
pub proof fn lemma_store_insert_count(
    before_keys: Seq<Seq<char>>,
    before_vals: Seq<VectorMetadata>,
    before: Map<Seq<char>, VectorMetadata>,
    after_keys: Seq<Seq<char>>,
    after_vals: Seq<VectorMetadata>,
    after: Map<Seq<char>, VectorMetadata>,
    m: VectorMetadata,
)
    requires
        seq_linked(before_keys, before_vals, before),
        seq_linked(after_keys, after_vals, after),
        after == before.insert(m.id@, m),
    ensures
        after_vals.len() == before_vals.len() + (if before.dom().contains(m.id@) { 0int } else { 1int }),
{
    assert(after.dom() =~= before.dom().insert(m.id@));
}

/// Removing a known identifier takes one record away; removing an unknown one
/// keeps the count.
pub proof fn lemma_store_remove_count(
    before_keys: Seq<Seq<char>>,
    before_vals: Seq<VectorMetadata>,
    before: Map<Seq<char>, VectorMetadata>,
    after_keys: Seq<Seq<char>>,
    after_vals: Seq<VectorMetadata>,
    after: Map<Seq<char>, VectorMetadata>,
    id: Seq<char>,
)
    requires
        seq_linked(before_keys, before_vals, before),
        seq_linked(after_keys, after_vals, after),
        after == before.remove(id),
    ensures
        after_vals.len() == before_vals.len() - (if before.dom().contains(id) { 1int } else { 0int }),
{
    assert(after.dom() =~= before.dom().remove(id));
}

/// After removing a record its identifier is unknown, and the records of other
/// identifiers are as they were.
pub proof fn lemma_store_remove(before: Map<Seq<char>, VectorMetadata>, after: Map<Seq<char>, VectorMetadata>, id: Seq<char>, other: Seq<char>)
    requires
        after == before.remove(id),
    ensures
        !after.dom().contains(id),
        other != id ==> (after.dom().contains(other) == before.dom().contains(other)),
        other != id && before.dom().contains(other) ==> after[other] == before[other],
{
}

/// A record passes the search filters exactly when it lies in the requested
/// module, is written in the requested language, and holds every requested
/// further field with the requested value; a filter that is not given admits
/// every record.  In particular a record in another language never passes a
/// language filter.
pub proof fn lemma_search_filters(
    md: VectorMetadata,
    namespace: Option<Seq<char>>,
    language: Option<Seq<char>>,
    metadata_filter: Option<Map<Seq<char>, Seq<char>>>,
)
    ensures
        passes_filters(md, namespace, language, metadata_filter) <==> {
            &&& (namespace matches Some(ns) ==> md.module@ == ns)
            &&& (language matches Some(l) ==> md.language@ == l)
            &&& (metadata_filter matches Some(m) ==> forall|k: Seq<char>|
                #[trigger] m.dom().contains(k) ==> md.extra@.dom().contains(k) && md.extra@[k]@ == m[k])
        },
        language matches Some(l) && md.language@ != l ==> !passes_filters(md, namespace, language, metadata_filter),
        namespace is None && language is None && metadata_filter is None ==> passes_filters(
            md,
            namespace,
            language,
            metadata_filter,
        ),
{
}

} // verus!
