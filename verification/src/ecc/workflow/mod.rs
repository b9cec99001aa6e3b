//! Workflow ECC: integrity and consistency checks on workflows before they run.
pub mod engine;
pub mod errors;
pub mod graph;
pub mod laws;
pub mod report;
pub mod rules;
pub mod types;
pub mod validator;
