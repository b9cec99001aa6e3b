//! Chunks: the pieces a document is cut into.
use vstd::prelude::*;
use crate::knowledge::metadata::DocumentMetadata;

verus! {

/// A piece of a document produced by deterministic chunking.
#[derive(Clone, Debug)]
pub struct Chunk {
    id: String,
    document_id: String,
    sequence: usize,
    content: String,
    metadata: DocumentMetadata,
    hash: String,
}

/// The parts of a [`Chunk`].
pub struct ChunkView {
    pub id: Seq<char>,
    pub document_id: Seq<char>,
    pub sequence: usize,
    pub content: Seq<char>,
    pub metadata: DocumentMetadata,
    pub hash: Seq<char>,
}

impl View for Chunk {
    type V = ChunkView;

    closed spec fn view(&self) -> ChunkView {
        ChunkView {
            id: self.id@,
            document_id: self.document_id@,
            sequence: self.sequence,
            content: self.content@,
            metadata: self.metadata,
            hash: self.hash@,
        }
    }
}

impl Chunk {
    /// A chunk with the given parts.
    pub fn new(
        id: String,
        document_id: String,
        sequence: usize,
        content: String,
        metadata: DocumentMetadata,
        hash: String,
    ) -> (r: Self)
        ensures
            r@ == (ChunkView {
                id: id@,
                document_id: document_id@,
                sequence,
                content: content@,
                metadata,
                hash: hash@,
            }),
    {
        Chunk { id, document_id, sequence, content, metadata, hash }
    }

    /// The chunk's identifier.
    pub fn id(&self) -> (r: &str)
        ensures
            r@ == self@.id,
    {
        self.id.as_str()
    }

    /// The identifier of the document the chunk comes from.
    pub fn document_id(&self) -> (r: &str)
        ensures
            r@ == self@.document_id,
    {
        self.document_id.as_str()
    }

    /// Position of the chunk within its document.
    pub fn sequence(&self) -> (r: usize)
        ensures
            r == self@.sequence,
    {
        self.sequence
    }

    /// The chunk's text.
    pub fn content(&self) -> (r: &str)
        ensures
            r@ == self@.content,
    {
        self.content.as_str()
    }

    /// The metadata of the chunk's document.
    pub fn metadata(&self) -> (r: &DocumentMetadata)
        ensures
            *r == self@.metadata,
    {
        &self.metadata
    }

    /// The chunk's content hash.
    pub fn hash(&self) -> (r: &str)
        ensures
            r@ == self@.hash,
    {
        self.hash.as_str()
    }
}

} // verus!
