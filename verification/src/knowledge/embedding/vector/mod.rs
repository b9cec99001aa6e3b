//! Vectors' metadata and storage statistics.
pub mod storage;
pub mod metadata;
