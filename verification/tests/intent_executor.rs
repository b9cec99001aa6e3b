//! Tests of intent analysis and of the plan-execution decisions.
use raven_core::error::RavenError;
use raven_core::executor::{route_step, tool_output, PlanRun, StepAction, StepEvent, StepRoute};
use raven_core::intent::IntentAnalyzer;

#[test]
fn analyze_simple_tool_intent() {
    let a = IntentAnalyzer::new();
    let i = a.analyze("Please run the echo tool with name=hello").unwrap();
    assert!(i.requires_tool);
    assert_eq!(i.name, "tool_call");
    assert_eq!(i.metadata.get("name").map(|s| s.as_str()), Some("hello"));
}

#[test]
fn analyze_rejects_blank_input() {
    let a = IntentAnalyzer::new();
    match a.analyze("   ") {
        Err(RavenError::InvalidInput(m)) => assert_eq!(m, "empty input"),
        _ => panic!("expected an invalid-input error"),
    }
}

#[test]
fn analyze_general_intent() {
    let a = IntentAnalyzer::new();
    let i = a.analyze("  hello there  ").unwrap();
    assert_eq!(i.name, "general");
    assert_eq!(i.confidence_tenths, 5);
    assert!(!i.requires_tool);
    assert!(!i.requires_planner);
    assert_eq!(i.raw, "hello there");
}

#[test]
fn analyze_first_pattern_wins() {
    let a = IntentAnalyzer::new();
    let i = a.analyze("Summarize the plan").unwrap();
    assert_eq!(i.name, "summarize");
    assert_eq!(i.confidence_tenths, 9);
    assert!(i.requires_planner);
}

#[test]
fn analyze_keyword_inside_word() {
    let a = IntentAnalyzer::new();
    let i = a.analyze("rerun everything").unwrap();
    assert!(i.requires_tool);
    assert_eq!(i.name, "general");
}

#[test]
fn analyze_settings_later_wins() {
    let a = IntentAnalyzer::new();
    let i = a.analyze("create k=1 k=2 other=x").unwrap();
    assert_eq!(i.name, "create");
    assert_eq!(i.metadata.get("k").map(|s| s.as_str()), Some("2"));
    assert_eq!(i.metadata.get("other").map(|s| s.as_str()), Some("x"));
    assert_eq!(i.metadata.len(), 2);
}

#[test]
fn run_records_successes_and_skips() {
    let mut run = PlanRun::new();
    assert!(matches!(run.on_step_event("s1", 1, StepEvent::Succeeded("one".to_string())), StepAction::NextStep));
    let retry = StepEvent::Failed { error: "boom".to_string(), retry: Ok(true) };
    assert!(matches!(run.on_step_event("s2", 1, retry), StepAction::Retry));
    let give_up = StepEvent::Failed { error: "boom".to_string(), retry: Ok(false) };
    assert!(matches!(run.on_step_event("s2", 1, give_up), StepAction::NextStep));
    assert_eq!(run.finish(), "one\n[error:boom]");
}

#[test]
fn run_stops_on_critical_failure() {
    let mut run = PlanRun::new();
    let give_up = StepEvent::Failed { error: "bad".to_string(), retry: Ok(false) };
    match run.on_step_event("s9", 8, give_up) {
        StepAction::Abort(RavenError::Executor(m)) => assert_eq!(m, "fatal failure on step s9: bad"),
        _ => panic!("expected the run to stop"),
    }
    assert_eq!(run.finish(), "");
}

#[test]
fn run_stops_when_planner_fails() {
    let mut run = PlanRun::new();
    let e = StepEvent::Failed { error: "bad".to_string(), retry: Err(RavenError::Planner("down".to_string())) };
    match run.on_step_event("s1", 1, e) {
        StepAction::Abort(RavenError::Planner(m)) => assert_eq!(m, "down"),
        _ => panic!("expected the planner error"),
    }
}

#[test]
fn steps_are_routed() {
    match route_step(true, None) {
        StepRoute::Tool { name } => assert_eq!(name, "echo"),
        _ => panic!("expected a tool"),
    }
    match route_step(true, Some("grep")) {
        StepRoute::Tool { name } => assert_eq!(name, "grep"),
        _ => panic!("expected a tool"),
    }
    assert!(matches!(route_step(false, Some("grep")), StepRoute::Model));
    assert_eq!(tool_output("{\"a\":1}"), "tool_result: {\"a\":1}");
}
