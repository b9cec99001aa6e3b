//! Error types for workflow ECC.
use vstd::prelude::*;

verus! {

/// Errors of workflow ECC.
#[derive(Debug)]
pub enum WorkflowEccError {
    ValidationFailed { details: String },
    CorrectionFailed { details: String },
    ClassificationFailed { details: String },
    PolicyFailed { details: String },
    ScoringFailed { details: String },
    ReportingFailed { details: String },
    PipelineFailed { details: String },
    RecoveryFailed { details: String },
    WorkflowNotFound { workflow_id: String },
    StepNotFound { step_id: String },
    InvalidStructure { details: String },
    IntegrityError { details: String },
}

/// Result of a workflow ECC operation.
pub type WorkflowEccResult<T> = Result<T, WorkflowEccError>;

} // verus!
