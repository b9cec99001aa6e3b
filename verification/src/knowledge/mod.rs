//! The knowledge library: documents, their chunks and metadata, loading and
//! retrieval context, and the embedding toolkit.
pub mod chunk;
pub mod context;
pub mod errors;
pub mod hash;
pub mod loader;
pub mod embedding;
pub mod document;
pub mod metadata;
pub mod manager;
