//! Descriptive metadata of a document.
use vstd::prelude::*;
use crate::time::Timestamp;

verus! {

/// What is known about a document besides its content.
#[derive(Clone, Debug)]
pub struct DocumentMetadata {
    /// Title of the document.
    pub title: String,
    /// Short description, when there is one.
    pub description: Option<String>,
    /// Language the document is written in.
    pub language: String,
    /// Category of the document.
    pub category: String,
    /// Topic, when there is one.
    pub topic: Option<String>,
    /// Classification tags.
    pub tags: Vec<String>,
    /// Difficulty level.
    pub difficulty: String,
    /// Version of the document.
    pub version: String,
    /// Where the document comes from.
    pub source: String,
    /// Content hash or identifier used for deduplication.
    pub hash: String,
    /// Size of the document in bytes.
    pub size: u64,
    /// When the document was first recorded.
    pub created_at: Timestamp,
    /// When the document was last updated.
    pub updated_at: Timestamp,
}

impl DocumentMetadata {
    /// Metadata with the given fields.
    pub fn new(
        title: String,
        description: Option<String>,
        language: String,
        category: String,
        topic: Option<String>,
        tags: Vec<String>,
        difficulty: String,
        version: String,
        source: String,
        hash: String,
        size: u64,
        created_at: Timestamp,
        updated_at: Timestamp,
    ) -> (r: Self)
        ensures
            r == (DocumentMetadata {
                title,
                description,
                language,
                category,
                topic,
                tags,
                difficulty,
                version,
                source,
                hash,
                size,
                created_at,
                updated_at,
            }),
    {
        DocumentMetadata {
            title,
            description,
            language,
            category,
            topic,
            tags,
            difficulty,
            version,
            source,
            hash,
            size,
            created_at,
            updated_at,
        }
    }
}

} // verus!
