//! Errors and metadata of embedding backends.
use vstd::prelude::*;
use vstd::string::StrSliceExecFns;
use crate::text::{join2, owned, push_decimal, push_str, spec_decimal};

verus! {

/// What can go wrong in an embedding backend.
#[derive(Debug, Clone)]
pub enum BackendError {
    ModelNotLoaded(String),
    ModelLoadFailed(String),
    DimensionMismatch { expected: usize, actual: usize },
    InvalidInput(String),
    EmbeddingFailed(String),
    BatchEmbeddingFailed(String),
    IoError(String),
    ConfigurationError(String),
    UnsupportedOperation(String),
    Timeout(String),
}

/// Result of a backend operation.
pub type BackendResult<T> = Result<T, BackendError>;

/// The text of a backend error, as it is displayed.
pub open spec fn backend_error_text(e: BackendError) -> Seq<char> {
    match e {
        BackendError::ModelNotLoaded(s) => "model not loaded: "@ + s@,
        BackendError::ModelLoadFailed(s) => "model load failed: "@ + s@,
        BackendError::DimensionMismatch { expected, actual } => "dimension mismatch: expected "@ + spec_decimal(
            expected as nat,
        ) + ", got "@ + spec_decimal(actual as nat),
        BackendError::InvalidInput(s) => "invalid input: "@ + s@,
        BackendError::EmbeddingFailed(s) => "embedding failed: "@ + s@,
        BackendError::BatchEmbeddingFailed(s) => "batch embedding failed: "@ + s@,
        BackendError::IoError(s) => "io error: "@ + s@,
        BackendError::ConfigurationError(s) => "configuration error: "@ + s@,
        BackendError::UnsupportedOperation(s) => "unsupported operation: "@ + s@,
        BackendError::Timeout(s) => "timeout: "@ + s@,
    }
}

impl BackendError {
    /// The error's text, as it is displayed.
    pub fn to_string(&self) -> (r: String)
        ensures
            r@ == backend_error_text(*self),
    {
        match self {
            BackendError::ModelNotLoaded(s) => join2("model not loaded: ", s.as_str()),
            BackendError::ModelLoadFailed(s) => join2("model load failed: ", s.as_str()),
            BackendError::DimensionMismatch { expected, actual } => {
                let mut r = owned("dimension mismatch: expected ");
                push_decimal(&mut r, *expected as u64);
                push_str(&mut r, ", got ");
                push_decimal(&mut r, *actual as u64);
                r
            },
            BackendError::InvalidInput(s) => join2("invalid input: ", s.as_str()),
            BackendError::EmbeddingFailed(s) => join2("embedding failed: ", s.as_str()),
            BackendError::BatchEmbeddingFailed(s) => join2("batch embedding failed: ", s.as_str()),
            BackendError::IoError(s) => join2("io error: ", s.as_str()),
            BackendError::ConfigurationError(s) => join2("configuration error: ", s.as_str()),
            BackendError::UnsupportedOperation(s) => join2("unsupported operation: ", s.as_str()),
            BackendError::Timeout(s) => join2("timeout: ", s.as_str()),
        }
    }
}

/// What a backend is and can do.
#[derive(Debug, Clone)]
pub struct BackendMetadata {
    pub model_name: String,
    pub dimension: usize,
    pub supports_batch: bool,
    pub supports_gpu: bool,
    pub supports_cpu: bool,
}

/// The checks a backend makes before embedding `text`: a backend that is not
/// ready refuses with `not_ready` as the reason, and empty text is invalid input.
pub fn check_text(ready: bool, not_ready: &str, text: &str) -> (r: BackendResult<()>)
    ensures
        !ready ==> (r matches Err(BackendError::ModelNotLoaded(m)) && m@ == not_ready@),
        ready && text@.len() == 0 ==> (r matches Err(BackendError::InvalidInput(m)) && m@
            == "text cannot be empty"@),
        ready && text@.len() > 0 ==> r is Ok,
{
    if !ready {
        return Err(BackendError::ModelNotLoaded(owned(not_ready)));
    }
    if text.unicode_len() == 0 {
        return Err(BackendError::InvalidInput(owned("text cannot be empty")));
    }
    Ok(())
}

} // verus!
