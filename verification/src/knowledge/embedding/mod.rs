//! The embedding toolkit: batching, metrics, backend selection and the integer
//! parts of the deterministic embedding generators, tokenization, and vector
//! metadata.
pub mod batching;
pub mod metrics;
pub mod backend;
pub mod engine;
pub mod similarity;
pub mod vector;
pub mod retrieval;
pub mod service;
pub mod tokenizer;
pub mod cache;
pub mod model;
