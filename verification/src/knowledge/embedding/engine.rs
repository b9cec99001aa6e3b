//! Errors of embedding engines.
use vstd::prelude::*;
use crate::text::{join2, owned, push_decimal, push_str, spec_decimal};

verus! {

/// What can go wrong while embedding.
#[derive(Debug, Clone)]
pub enum EmbeddingError {
    ModelNotFitted(String),
    DimensionMismatch { expected: usize, actual: usize },
    InvalidInput(String),
    EmbeddingFailed(String),
    LockError(String),
    IoError(String),
}

/// The text of an embedding error, as it is displayed.
pub open spec fn embedding_error_text(e: EmbeddingError) -> Seq<char> {
    match e {
        EmbeddingError::ModelNotFitted(s) => "Embedding model not fitted: "@ + s@,
        EmbeddingError::DimensionMismatch { expected, actual } => "Dimension mismatch: expected "@ + spec_decimal(
            expected as nat,
        ) + ", got "@ + spec_decimal(actual as nat),
        EmbeddingError::InvalidInput(s) => "Invalid input: "@ + s@,
        EmbeddingError::EmbeddingFailed(s) => "Embedding error: "@ + s@,
        EmbeddingError::LockError(s) => "Lock poisoned: "@ + s@,
        EmbeddingError::IoError(s) => "IO error: "@ + s@,
    }
}

impl EmbeddingError {
    /// The error's text, as it is displayed.
    pub fn to_string(&self) -> (r: String)
        ensures
            r@ == embedding_error_text(*self),
    {
        match self {
            EmbeddingError::ModelNotFitted(s) => join2("Embedding model not fitted: ", s.as_str()),
            EmbeddingError::DimensionMismatch { expected, actual } => {
                let mut r = owned("Dimension mismatch: expected ");
                push_decimal(&mut r, *expected as u64);
                push_str(&mut r, ", got ");
                push_decimal(&mut r, *actual as u64);
                r
            },
            EmbeddingError::InvalidInput(s) => join2("Invalid input: ", s.as_str()),
            EmbeddingError::EmbeddingFailed(s) => join2("Embedding error: ", s.as_str()),
            EmbeddingError::LockError(s) => join2("Lock poisoned: ", s.as_str()),
            EmbeddingError::IoError(s) => join2("IO error: ", s.as_str()),
        }
    }
}

} // verus!
