//! Errors of the knowledge library.
use vstd::prelude::*;
use crate::text::{join2, owned};

verus! {

/// What can go wrong in the knowledge library.
#[derive(Debug, Clone)]
pub enum KnowledgeError {
    InvalidDocument(String),
    UnsupportedFormat(String),
    ValidationFailed(String),
    Io(String),
    Storage(String),
    Hash(String),
    Pipeline(String),
    Runtime(String),
}

/// Result of a knowledge library operation.
pub type KnowledgeResult<T> = Result<T, KnowledgeError>;

/// The text of an error: a prefix naming its kind, then its details.
pub open spec fn knowledge_error_text(e: KnowledgeError) -> Seq<char> {
    match e {
        KnowledgeError::InvalidDocument(s) => "invalid document: "@ + s@,
        KnowledgeError::UnsupportedFormat(s) => "unsupported format: "@ + s@,
        KnowledgeError::ValidationFailed(s) => "validation failed: "@ + s@,
        KnowledgeError::Io(s) => "io error: "@ + s@,
        KnowledgeError::Storage(s) => "storage error: "@ + s@,
        KnowledgeError::Hash(s) => "hash error: "@ + s@,
        KnowledgeError::Pipeline(s) => "pipeline error: "@ + s@,
        KnowledgeError::Runtime(s) => "runtime error: "@ + s@,
    }
}

impl KnowledgeError {
    /// The error's text, as it is displayed.
    pub fn to_string(&self) -> (r: String)
        ensures
            r@ == knowledge_error_text(*self),
    {
        match self {
            KnowledgeError::InvalidDocument(s) => join2("invalid document: ", s.as_str()),
            KnowledgeError::UnsupportedFormat(s) => join2("unsupported format: ", s.as_str()),
            KnowledgeError::ValidationFailed(s) => join2("validation failed: ", s.as_str()),
            KnowledgeError::Io(s) => join2("io error: ", s.as_str()),
            KnowledgeError::Storage(s) => join2("storage error: ", s.as_str()),
            KnowledgeError::Hash(s) => join2("hash error: ", s.as_str()),
            KnowledgeError::Pipeline(s) => join2("pipeline error: ", s.as_str()),
            KnowledgeError::Runtime(s) => join2("runtime error: ", s.as_str()),
        }
    }
}

} // verus!
