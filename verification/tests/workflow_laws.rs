//! Concrete cases of the workflow laws and exact issue texts.
use raven_core::ecc::workflow::rules::{
    get_all_rules, DeadlockRule, DependencyCycleRule, DependencyExistsRule, DisconnectedGraphRule, DuplicateStepRule,
    OrphanNodeRule, ReachabilityRule, RetryConfigRule, TimeoutRule, UniqueStepIdRule, WorkflowIdRule, WorkflowRule,
};
use raven_core::ecc::workflow::types::{Workflow, WorkflowStep};
use raven_core::ecc::workflow::validator::WorkflowValidator;

fn cyclic() -> Workflow {
    Workflow::new("wf".to_string())
        .add_step(WorkflowStep::new("a".to_string()).add_dependency("b".to_string()))
        .add_step(WorkflowStep::new("b".to_string()).add_dependency("a".to_string()))
}

#[test]
fn cycle_issue_names_the_cycle() {
    let issues = DependencyCycleRule.evaluate(&cyclic()).unwrap();
    assert_eq!(issues.len(), 2);
    assert_eq!(issues[0].code, "dependency_cycle");
    assert_eq!(issues[0].message, "Dependency cycle detected: a -> b");
    assert_eq!(issues[1].message, "Dependency cycle detected: b -> a");
    assert_eq!(issues[0].context.as_deref(), Some("Workflow: wf"));
}

#[test]
fn cycle_reached_from_outside() {
    let w = Workflow::new("wf".to_string())
        .add_step(WorkflowStep::new("s".to_string()).add_dependency("a".to_string()))
        .add_step(WorkflowStep::new("a".to_string()).add_dependency("b".to_string()))
        .add_step(WorkflowStep::new("b".to_string()).add_dependency("a".to_string()));
    let issues = DependencyCycleRule.evaluate(&w).unwrap();
    assert_eq!(issues[0].message, "Dependency cycle detected: a -> b");
}

#[test]
fn cycle_implies_deadlock() {
    let w = cyclic();
    assert!(!DependencyCycleRule.evaluate(&w).unwrap().is_empty());
    assert_eq!(DeadlockRule.evaluate(&w).unwrap().len(), 1);
}

#[test]
fn deadlock_without_cycle_on_missing_dependency() {
    let w = Workflow::new("wf".to_string()).add_step(WorkflowStep::new("a".to_string()).add_dependency("zz".to_string()));
    assert!(DependencyCycleRule.evaluate(&w).unwrap().is_empty());
    assert_eq!(DeadlockRule.evaluate(&w).unwrap().len(), 1);
}

#[test]
fn duplicate_rules_agree() {
    let w = Workflow::new("wf".to_string())
        .add_step(WorkflowStep::new("a".to_string()))
        .add_step(WorkflowStep::new("a".to_string()))
        .add_step(WorkflowStep::new("b".to_string()))
        .add_step(WorkflowStep::new("a".to_string()));
    let u = UniqueStepIdRule.evaluate(&w).unwrap();
    let d = DuplicateStepRule.evaluate(&w).unwrap();
    assert_eq!(u.len(), 2);
    assert_eq!(d.len(), 2);
    assert_eq!(u[0].message, "Duplicate step ID: a");
    assert_eq!(d[0].message, "Duplicate step: a");
}

#[test]
fn start_step_is_never_unreachable() {
    let w = Workflow::new("wf".to_string())
        .with_start_step("a".to_string())
        .add_step(WorkflowStep::new("a".to_string()))
        .add_step(WorkflowStep::new("b".to_string()));
    let issues = ReachabilityRule.evaluate(&w).unwrap();
    assert_eq!(issues.len(), 1);
    assert_eq!(issues[0].message, "Step b is not reachable from start");
}

#[test]
fn end_step_is_never_an_orphan() {
    let w = Workflow::new("wf".to_string())
        .add_step(WorkflowStep::new("a".to_string()))
        .add_step(WorkflowStep::new("b".to_string()))
        .add_end_step("a".to_string());
    let issues = OrphanNodeRule.evaluate(&w).unwrap();
    assert_eq!(issues.len(), 1);
    assert_eq!(issues[0].message, "Step b has no path to any end step");
}

#[test]
fn missing_dependency_texts() {
    let w = Workflow::new("wf".to_string()).add_step(WorkflowStep::new("s".to_string()).add_dependency("m".to_string()));
    let issues = DependencyExistsRule.evaluate(&w).unwrap();
    assert_eq!(issues[0].message, "Step s depends on non-existent step m");
    assert_eq!(issues[0].suggestion.as_deref(), Some("Ensure step m exists before adding it as dependency"));
}

#[test]
fn disconnected_when_start_missing_from_graph() {
    let w = Workflow::new("wf".to_string())
        .with_start_step("a".to_string())
        .add_step(WorkflowStep::new("a".to_string()))
        .add_end_step("a".to_string());
    assert!(DisconnectedGraphRule.evaluate(&w).unwrap().is_empty());
}

#[test]
fn timeout_totals() {
    let w = Workflow {
        total_timeout_ms: Some(100),
        ..Workflow::new("wf".to_string())
            .add_step(WorkflowStep::new("a".to_string()).with_timeout(60))
            .add_step(WorkflowStep::new("b".to_string()).with_timeout(50))
    };
    let issues = TimeoutRule.evaluate(&w).unwrap();
    assert_eq!(issues.len(), 1);
    assert_eq!(issues[0].code, "timeout_mismatch");
    let z = Workflow { total_timeout_ms: Some(0), ..Workflow::new("wf".to_string()) };
    let issues = TimeoutRule.evaluate(&z).unwrap();
    assert_eq!(issues.len(), 1);
    assert_eq!(issues[0].code, "zero_total_timeout");
}

#[test]
fn retry_texts() {
    let w = Workflow::new("wf".to_string()).add_step(WorkflowStep::new("s".to_string()).with_retries(101));
    let issues = RetryConfigRule.evaluate(&w).unwrap();
    assert_eq!(issues[0].message, "Step s has very high max_retries (101)");
    let ok = Workflow::new("wf".to_string()).add_step(WorkflowStep::new("s".to_string()).with_retries(100));
    assert!(RetryConfigRule.evaluate(&ok).unwrap().is_empty());
}

#[test]
fn workflow_id_both_issues() {
    let issues = WorkflowIdRule.evaluate(&Workflow::new("a b".to_string())).unwrap();
    assert_eq!(issues.len(), 1);
    assert_eq!(issues[0].code, "workflow_id_invalid_chars");
    assert_eq!(issues[0].context.as_deref(), Some("ID: a b"));
}

#[test]
fn default_rules_report_empty_workflow() {
    let report = WorkflowValidator::with_default_rules().validate(&Workflow::new("wf".to_string())).unwrap();
    let codes: Vec<&str> = report.issues.iter().map(|i| i.code.as_str()).collect();
    assert_eq!(codes, vec!["workflow_empty", "no_end_steps"]);
}

#[test]
fn validator_rule_ids_and_clone() {
    let v = WorkflowValidator::new(vec![WorkflowRule::Deadlock(DeadlockRule)]).with_rule(WorkflowRule::Timeout(TimeoutRule));
    assert_eq!(v.rule_ids(), vec!["deadlock_rule", "timeout_rule"]);
    assert_eq!(v.clone().rules.len(), 15);
    assert_eq!(get_all_rules().len(), 15);
}
