//! Post-processing of search results.
pub mod reranker;
pub mod hybrid;
