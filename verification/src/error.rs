//! The crate-wide error type.
use vstd::prelude::*;
use crate::knowledge::errors::{knowledge_error_text, KnowledgeError};
use crate::text::join2;

verus! {

/// What can go wrong in the agent runtime.
#[derive(Debug, Clone)]
pub enum RavenError {
    LockPoisoned(String),
    InvalidInput(String),
    Configuration(String),
    EventBus(String),
    Memory(String),
    Planner(String),
    Executor(String),
    Workflow(String),
    Tool(String),
    Llm(String),
    Serialization(String),
    Unsupported(String),
}

/// Result of an agent runtime operation.
pub type RavenResult<T> = Result<T, RavenError>;

/// The text of an error: a prefix naming its kind, then its details.
pub open spec fn raven_error_text(e: RavenError) -> Seq<char> {
    match e {
        RavenError::LockPoisoned(s) => "lock poisoned: "@ + s@,
        RavenError::InvalidInput(s) => "invalid input: "@ + s@,
        RavenError::Configuration(s) => "configuration error: "@ + s@,
        RavenError::EventBus(s) => "event bus error: "@ + s@,
        RavenError::Memory(s) => "memory error: "@ + s@,
        RavenError::Planner(s) => "planner error: "@ + s@,
        RavenError::Executor(s) => "executor error: "@ + s@,
        RavenError::Workflow(s) => "workflow error: "@ + s@,
        RavenError::Tool(s) => "tool error: "@ + s@,
        RavenError::Llm(s) => "llm error: "@ + s@,
        RavenError::Serialization(s) => "serialization error: "@ + s@,
        RavenError::Unsupported(s) => "unsupported operation: "@ + s@,
    }
}

impl RavenError {
    /// The error's text, as it is displayed.
    pub fn to_string(&self) -> (r: String)
        ensures
            r@ == raven_error_text(*self),
    {
        match self {
            RavenError::LockPoisoned(s) => join2("lock poisoned: ", s.as_str()),
            RavenError::InvalidInput(s) => join2("invalid input: ", s.as_str()),
            RavenError::Configuration(s) => join2("configuration error: ", s.as_str()),
            RavenError::EventBus(s) => join2("event bus error: ", s.as_str()),
            RavenError::Memory(s) => join2("memory error: ", s.as_str()),
            RavenError::Planner(s) => join2("planner error: ", s.as_str()),
            RavenError::Executor(s) => join2("executor error: ", s.as_str()),
            RavenError::Workflow(s) => join2("workflow error: ", s.as_str()),
            RavenError::Tool(s) => join2("tool error: ", s.as_str()),
            RavenError::Llm(s) => join2("llm error: ", s.as_str()),
            RavenError::Serialization(s) => join2("serialization error: ", s.as_str()),
            RavenError::Unsupported(s) => join2("unsupported operation: ", s.as_str()),
        }
    }
}

impl RavenError {
    /// A knowledge error as an unsupported operation carrying its text (the
    /// conversion the `?` operator applies).
    pub fn from_knowledge(err: KnowledgeError) -> (r: Self)
        ensures
            r matches RavenError::Unsupported(s) && s@ == knowledge_error_text(err),
    {
        RavenError::Unsupported(err.to_string())
    }
}

} // verus!
