//! Error correction and consistency checks.
pub mod workflow;
