//! The rule tests of the workflow checks.
use raven_core::ecc::workflow::rules::{
    DeadlockRule, DependencyCycleRule, DependencyExistsRule, DisconnectedGraphRule, DuplicateStepRule, EndStateRule,
    OrphanNodeRule, ReachabilityRule, RetryConfigRule, StartStateRule, TerminalStateRule, TimeoutRule, UniqueStepIdRule,
    WorkflowIdRule, WorkflowNotEmptyRule,
};
use raven_core::ecc::workflow::types::{Workflow, WorkflowStep};

#[test]
fn test_no_deadlock() {
    let rule = DeadlockRule;
    let workflow = Workflow::new("test".to_string())
        .add_step(WorkflowStep::new("step1".to_string()))
        .add_step(WorkflowStep::new("step2".to_string()).add_dependency("step1".to_string()));
    let issues = rule.evaluate(&workflow).unwrap();
    assert!(issues.is_empty());
}

#[test]
fn test_has_deadlock() {
    let rule = DeadlockRule;
    let workflow = Workflow::new("test".to_string())
        .add_step(WorkflowStep::new("step1".to_string()).add_dependency("step2".to_string()))
        .add_step(WorkflowStep::new("step2".to_string()).add_dependency("step1".to_string()));
    let issues = rule.evaluate(&workflow).unwrap();
    assert!(!issues.is_empty());
}

#[test]
fn test_no_cycle() {
    let rule = DependencyCycleRule;
    let workflow = Workflow::new("test".to_string())
        .add_step(WorkflowStep::new("step1".to_string()))
        .add_step(WorkflowStep::new("step2".to_string()).add_dependency("step1".to_string()))
        .add_step(WorkflowStep::new("step3".to_string()).add_dependency("step2".to_string()));
    let issues = rule.evaluate(&workflow).unwrap();
    assert!(issues.is_empty());
}

#[test]
fn test_simple_cycle() {
    let rule = DependencyCycleRule;
    let workflow = Workflow::new("test".to_string())
        .add_step(WorkflowStep::new("step1".to_string()).add_dependency("step2".to_string()))
        .add_step(WorkflowStep::new("step2".to_string()).add_dependency("step1".to_string()));
    let issues = rule.evaluate(&workflow).unwrap();
    assert!(!issues.is_empty());
}

#[test]
fn test_valid_dependencies() {
    let rule = DependencyExistsRule;
    let workflow = Workflow::new("test".to_string())
        .add_step(WorkflowStep::new("step1".to_string()))
        .add_step(WorkflowStep::new("step2".to_string()).add_dependency("step1".to_string()));
    let issues = rule.evaluate(&workflow).unwrap();
    assert!(issues.is_empty());
}

#[test]
fn test_missing_dependency() {
    let rule = DependencyExistsRule;
    let workflow = Workflow::new("test".to_string())
        .add_step(WorkflowStep::new("step1".to_string()).add_dependency("missing".to_string()));
    let issues = rule.evaluate(&workflow).unwrap();
    assert!(!issues.is_empty());
}

#[test]
fn test_connected_graph() {
    let rule = DisconnectedGraphRule;
    let workflow = Workflow::new("test".to_string())
        .with_start_step("step1".to_string())
        .add_step(WorkflowStep::new("step1".to_string()))
        .add_step(WorkflowStep::new("step2".to_string()).add_dependency("step1".to_string()))
        .add_end_step("step2".to_string());
    let issues = rule.evaluate(&workflow).unwrap();
    assert!(issues.is_empty());
}

#[test]
fn test_disconnected_graph() {
    let rule = DisconnectedGraphRule;
    let workflow = Workflow::new("test".to_string())
        .with_start_step("step1".to_string())
        .add_step(WorkflowStep::new("step1".to_string()))
        .add_step(WorkflowStep::new("step2".to_string()))
        .add_end_step("step2".to_string());
    let issues = rule.evaluate(&workflow).unwrap();
    assert!(!issues.is_empty());
}

#[test]
fn test_no_duplicates() {
    let rule = DuplicateStepRule;
    let workflow = Workflow::new("test".to_string())
        .add_step(WorkflowStep::new("step1".to_string()))
        .add_step(WorkflowStep::new("step2".to_string()));
    let issues = rule.evaluate(&workflow).unwrap();
    assert!(issues.is_empty());
}

#[test]
fn test_has_duplicates() {
    let rule = DuplicateStepRule;
    let workflow = Workflow::new("test".to_string())
        .add_step(WorkflowStep::new("step1".to_string()))
        .add_step(WorkflowStep::new("step1".to_string()));
    let issues = rule.evaluate(&workflow).unwrap();
    assert!(!issues.is_empty());
}

#[test]
fn test_with_end_step() {
    let rule = EndStateRule;
    let workflow = Workflow::new("test".to_string())
        .add_step(WorkflowStep::new("step1".to_string()))
        .add_end_step("step1".to_string());
    let issues = rule.evaluate(&workflow).unwrap();
    assert!(issues.is_empty());
}

#[test]
fn test_without_end_step() {
    let rule = EndStateRule;
    let workflow =
        Workflow::new("test".to_string()).add_step(WorkflowStep::new("step1".to_string()));
    let issues = rule.evaluate(&workflow).unwrap();
    assert!(!issues.is_empty());
}

#[test]
fn test_no_orphans() {
    let rule = OrphanNodeRule;
    let workflow = Workflow::new("test".to_string())
        .add_step(WorkflowStep::new("step1".to_string()))
        .add_step(WorkflowStep::new("step2".to_string()).add_dependency("step1".to_string()))
        .add_end_step("step2".to_string());
    let issues = rule.evaluate(&workflow).unwrap();
    assert!(issues.is_empty());
}

#[test]
fn test_orphan_step() {
    let rule = OrphanNodeRule;
    let workflow = Workflow::new("test".to_string())
        .add_step(WorkflowStep::new("step1".to_string()))
        .add_step(WorkflowStep::new("step2".to_string()))
        .add_end_step("step1".to_string());
    let issues = rule.evaluate(&workflow).unwrap();
    assert!(!issues.is_empty());
}

#[test]
fn test_all_reachable() {
    let rule = ReachabilityRule;
    let workflow = Workflow::new("test".to_string())
        .with_start_step("step1".to_string())
        .add_step(WorkflowStep::new("step1".to_string()))
        .add_step(WorkflowStep::new("step2".to_string()).add_dependency("step1".to_string()));
    let issues = rule.evaluate(&workflow).unwrap();
    assert!(issues.is_empty());
}

#[test]
fn test_unreachable_step() {
    let rule = ReachabilityRule;
    let workflow = Workflow::new("test".to_string())
        .with_start_step("step1".to_string())
        .add_step(WorkflowStep::new("step1".to_string()))
        .add_step(WorkflowStep::new("step2".to_string()));
    let issues = rule.evaluate(&workflow).unwrap();
    assert!(!issues.is_empty());
}

#[test]
fn test_valid_retry_config() {
    let rule = RetryConfigRule;
    let workflow = Workflow::new("test".to_string())
        .add_step(WorkflowStep::new("step1".to_string()).with_retries(3));
    let issues = rule.evaluate(&workflow).unwrap();
    assert!(issues.is_empty());
}

#[test]
fn test_high_retry_count() {
    let rule = RetryConfigRule;
    let workflow = Workflow::new("test".to_string())
        .add_step(WorkflowStep::new("step1".to_string()).with_retries(1000));
    let issues = rule.evaluate(&workflow).unwrap();
    assert!(!issues.is_empty());
}

#[test]
fn test_valid_start_step() {
    let rule = StartStateRule;
    let workflow = Workflow::new("test".to_string())
        .with_start_step("step1".to_string())
        .add_step(WorkflowStep::new("step1".to_string()));
    let issues = rule.evaluate(&workflow).unwrap();
    assert!(issues.is_empty());
}

#[test]
fn test_invalid_start_step() {
    let rule = StartStateRule;
    let workflow = Workflow::new("test".to_string())
        .with_start_step("missing".to_string())
        .add_step(WorkflowStep::new("step1".to_string()));
    let issues = rule.evaluate(&workflow).unwrap();
    assert!(!issues.is_empty());
}

#[test]
fn test_valid_end_step() {
    let rule = TerminalStateRule;
    let workflow = Workflow::new("test".to_string())
        .add_step(WorkflowStep::new("step1".to_string()))
        .add_end_step("step1".to_string());
    let issues = rule.evaluate(&workflow).unwrap();
    assert!(issues.is_empty());
}

#[test]
fn test_invalid_end_step() {
    let rule = TerminalStateRule;
    let workflow = Workflow::new("test".to_string())
        .add_step(WorkflowStep::new("step1".to_string()))
        .add_end_step("missing".to_string());
    let issues = rule.evaluate(&workflow).unwrap();
    assert!(!issues.is_empty());
}

#[test]
fn test_valid_timeout() {
    let rule = TimeoutRule;
    let workflow = Workflow::new("test".to_string())
        .add_step(WorkflowStep::new("step1".to_string()).with_timeout(1000));
    let issues = rule.evaluate(&workflow).unwrap();
    assert!(issues.is_empty());
}

#[test]
fn test_zero_timeout() {
    let rule = TimeoutRule;
    let workflow = Workflow::new("test".to_string())
        .add_step(WorkflowStep::new("step1".to_string()).with_timeout(0));
    let issues = rule.evaluate(&workflow).unwrap();
    assert!(!issues.is_empty());
}

#[test]
fn test_unique_ids() {
    let rule = UniqueStepIdRule;
    let workflow = Workflow::new("test".to_string())
        .add_step(WorkflowStep::new("step1".to_string()))
        .add_step(WorkflowStep::new("step2".to_string()));
    let issues = rule.evaluate(&workflow).unwrap();
    assert!(issues.is_empty());
}

#[test]
fn test_duplicate_ids() {
    let rule = UniqueStepIdRule;
    let workflow = Workflow::new("test".to_string())
        .add_step(WorkflowStep::new("step1".to_string()))
        .add_step(WorkflowStep::new("step1".to_string()));
    let issues = rule.evaluate(&workflow).unwrap();
    assert!(!issues.is_empty());
}

#[test]
fn test_valid_workflow_id() {
    let rule = WorkflowIdRule;
    let workflow = Workflow::new("valid-workflow-123".to_string());
    let issues = rule.evaluate(&workflow).unwrap();
    assert!(issues.is_empty());
}

#[test]
fn test_empty_workflow_id() {
    let rule = WorkflowIdRule;
    let workflow = Workflow::new("".to_string());
    let issues = rule.evaluate(&workflow).unwrap();
    assert!(!issues.is_empty());
}

#[test]
fn test_invalid_characters() {
    let rule = WorkflowIdRule;
    let workflow = Workflow::new("invalid@workflow#".to_string());
    let issues = rule.evaluate(&workflow).unwrap();
    assert!(!issues.is_empty());
}

#[test]
fn test_non_empty_workflow() {
    let rule = WorkflowNotEmptyRule;
    let workflow =
        Workflow::new("test".to_string()).add_step(WorkflowStep::new("step1".to_string()));
    let issues = rule.evaluate(&workflow).unwrap();
    assert!(issues.is_empty());
}

#[test]
fn test_empty_workflow() {
    let rule = WorkflowNotEmptyRule;
    let workflow = Workflow::new("test".to_string());
    let issues = rule.evaluate(&workflow).unwrap();
    assert!(!issues.is_empty());
}

#[test]
fn terminal_state_reports_unreachable_end_step() {
    let rule = TerminalStateRule;
    let workflow = Workflow::new("test".to_string())
        .with_start_step("step1".to_string())
        .add_step(WorkflowStep::new("step1".to_string()))
        .add_step(WorkflowStep::new("step2".to_string()))
        .add_end_step("step2".to_string());
    let issues = rule.evaluate(&workflow).unwrap();
    assert_eq!(issues.len(), 1);
    assert_eq!(issues[0].code, "unreachable_end_step");
    assert_eq!(issues[0].message, "End step step2 is not reachable from start");

    let reachable = Workflow::new("test".to_string())
        .with_start_step("step1".to_string())
        .add_step(WorkflowStep::new("step1".to_string()))
        .add_step(WorkflowStep::new("step2".to_string()).add_dependency("step1".to_string()))
        .add_end_step("step2".to_string());
    assert!(rule.evaluate(&reachable).unwrap().is_empty());
}
