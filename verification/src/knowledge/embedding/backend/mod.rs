//! Embedding backends: their errors and metadata, the selection of a backend by
//! name, and the integer core of the deterministic embedding generators.
pub mod bge;
pub mod e5;
pub mod errors;
pub mod local;
pub mod nomic;
pub mod prng;
pub mod registry;
