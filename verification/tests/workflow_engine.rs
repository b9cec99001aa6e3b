//! The engine and validator tests of the workflow checks.
use raven_core::ecc::workflow::engine::WorkflowEccEngine;
use raven_core::ecc::workflow::types::{Workflow, WorkflowStep};
use raven_core::ecc::workflow::validator::WorkflowValidator;

#[test]
fn test_valid_workflow_processing() {
    let engine = WorkflowEccEngine::new();
    let workflow = Workflow::new("test".to_string())
        .with_start_step("step1".to_string())
        .add_step(WorkflowStep::new("step1".to_string()))
        .add_step(WorkflowStep::new("step2".to_string()).add_dependency("step1".to_string()))
        .add_end_step("step2".to_string());

    let result = engine.process(&workflow);
    assert!(result.is_ok());
}

#[test]
fn test_empty_workflow_processing() {
    let engine = WorkflowEccEngine::new();
    let workflow = Workflow::new("test".to_string());

    let result = engine.process(&workflow);
    assert!(result.is_ok());
}

#[test]
fn test_valid_workflow() {
    let validator = WorkflowValidator::with_default_rules();
    let workflow = Workflow::new("test".to_string())
        .with_start_step("step1".to_string())
        .add_step(WorkflowStep::new("step1".to_string()))
        .add_step(WorkflowStep::new("step2".to_string()).add_dependency("step1".to_string()))
        .add_end_step("step2".to_string());

    let report = validator.validate(&workflow).unwrap();
    assert_eq!(report.issues.len(), 0);
}

#[test]
fn test_invalid_workflow() {
    let validator = WorkflowValidator::with_default_rules();
    let workflow = Workflow::new("test".to_string());

    let report = validator.validate(&workflow).unwrap();
    assert!(!report.issues.is_empty());
}

#[test]
fn engine_validate_only_reports_missing_start() {
    let engine = WorkflowEccEngine::new();
    let workflow = Workflow::new("wf".to_string())
        .with_start_step("nowhere".to_string())
        .add_step(WorkflowStep::new("a".to_string()).with_description("first".to_string()))
        .add_end_step("a".to_string());
    let report = engine.validate_only(&workflow).unwrap();
    assert!(report.issues.len() > 0);
}

#[test]
fn workflow_lookup_and_structure() {
    let workflow = Workflow::new("wf".to_string())
        .with_start_step("a".to_string())
        .add_step(WorkflowStep::new("a".to_string()).with_description("first".to_string()))
        .add_step(WorkflowStep::new("b".to_string()))
        .add_end_step("b".to_string());
    let a = workflow.get_step("a").unwrap();
    assert_eq!(a.description.as_deref(), Some("first"));
    assert!(workflow.get_step("c").is_none());
    assert!(workflow.has_valid_structure());
    assert!(!Workflow::new("empty".to_string()).has_valid_structure());
}
