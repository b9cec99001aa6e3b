//! Retrieved knowledge handed to the runtime and to workflows.
use vstd::prelude::*;
use crate::knowledge::chunk::Chunk;
use crate::knowledge::document::Document;
use crate::text::{join_strings, owned, push_decimal, push_str, spec_decimal, spec_join};

verus! {

/// The documents and chunks retrieved for a query.
#[derive(Clone, Debug)]
pub struct KnowledgeContext {
    /// The query the context answers.
    pub query: String,
    /// Documents retrieved.
    pub documents: Vec<Document>,
    /// Chunks retrieved.
    pub chunks: Vec<Chunk>,
    /// Number of documents.
    pub document_count: usize,
    /// Number of chunks.
    pub chunk_count: usize,
    /// Number of candidates the retrieval considered.
    pub candidate_count: usize,
}

/// The titles of the documents, in order.
pub open spec fn titles_of(docs: Seq<Document>) -> Seq<Seq<char>> {
    docs.map_values(|d: Document| d@.title)
}

/// The one-line summary of a context:
/// `query='<q>' documents=<n> chunks=<m> candidates=<k> titles=[<t1>, <t2>, ...]`.
pub open spec fn spec_summary(c: KnowledgeContext) -> Seq<char> {
    "query='"@ + c.query@ + "' documents="@ + spec_decimal(c.document_count as nat) + " chunks="@ + spec_decimal(
        c.chunk_count as nat,
    ) + " candidates="@ + spec_decimal(c.candidate_count as nat) + " titles=["@ + spec_join(
        titles_of(c.documents@),
        ", "@,
    ) + "]"@
}

impl KnowledgeContext {
    /// A context for `query` holding `documents` and `chunks`, with their counts.
    pub fn new(query: String, documents: Vec<Document>, chunks: Vec<Chunk>, candidate_count: usize) -> (r: Self)
        ensures
            r.query == query,
            r.documents == documents,
            r.chunks == chunks,
            r.document_count == documents@.len(),
            r.chunk_count == chunks@.len(),
            r.candidate_count == candidate_count,
    {
        let document_count = documents.len();
        let chunk_count = chunks.len();
        KnowledgeContext { query, documents, chunks, document_count, chunk_count, candidate_count }
    }

    /// A one-line description of the context.
    pub fn summary(&self) -> (r: String)
        ensures
            r@ == spec_summary(*self),
    {
        let mut titles: Vec<String> = Vec::new();
        let n = self.documents.len();
        let mut i: usize = 0;
        while i < n
            invariant
                i <= n,
                n == self.documents@.len(),
                crate::text::str_views(titles@) == titles_of(self.documents@).subrange(0, i as int),
            decreases n - i,
        {
            let ghost t0 = titles@;
            titles.push(owned(self.documents[i].title()));
            proof {
                assert(crate::text::str_views(titles@) =~= crate::text::str_views(t0).push(self.documents@[i as int]@.title));
                assert(titles_of(self.documents@).subrange(0, i + 1) =~= titles_of(self.documents@).subrange(0, i as int).push(
                    self.documents@[i as int]@.title,
                ));
            }
            i = i + 1;
        }
        proof {
            assert(titles_of(self.documents@).subrange(0, n as int) =~= titles_of(self.documents@));
        }
        let joined = join_strings(&titles, ", ");
        let mut r = owned("query='");
        push_str(&mut r, self.query.as_str());
        push_str(&mut r, "' documents=");
        push_decimal(&mut r, self.document_count as u64);
        push_str(&mut r, " chunks=");
        push_decimal(&mut r, self.chunk_count as u64);
        push_str(&mut r, " candidates=");
        push_decimal(&mut r, self.candidate_count as u64);
        push_str(&mut r, " titles=[");
        push_str(&mut r, joined.as_str());
        push_str(&mut r, "]");
        r
    }
}

} // verus!
