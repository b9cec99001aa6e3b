//! Tests of the cycle search, intent decisions, front-matter keys and digest keys.
use raven_core::ecc::workflow::rules::{DeadlockRule, DependencyCycleRule};
use raven_core::ecc::workflow::types::{Workflow, WorkflowStep};
use raven_core::intent::IntentAnalyzer;
use raven_core::knowledge::embedding::cache::{CachedEmbedding, EmbeddingCache};
use raven_core::knowledge::loader::parse_frontmatter;

fn cyclic_workflow() -> Workflow {
    Workflow::new("w".to_string())
        .add_step(WorkflowStep::new("a".to_string()).add_dependency("b".to_string()))
        .add_step(WorkflowStep::new("b".to_string()).add_dependency("a".to_string()))
        .add_step(WorkflowStep::new("c".to_string()).add_dependency("a".to_string()))
}

#[test]
fn cycle_rule_reports_the_cycle_each_search_finds() {
    let issues = DependencyCycleRule.evaluate(&cyclic_workflow()).unwrap();
    let messages: Vec<&str> = issues.iter().map(|i| i.message.as_str()).collect();
    assert_eq!(
        messages,
        vec![
            "Dependency cycle detected: a -> b",
            "Dependency cycle detected: b -> a",
            "Dependency cycle detected: a -> b",
        ]
    );
    assert!(issues.iter().all(|i| i.code == "dependency_cycle"));
}

#[test]
fn deadlock_with_known_unique_steps_comes_with_a_cycle() {
    let w = cyclic_workflow();
    assert!(!DeadlockRule.evaluate(&w).unwrap().is_empty());
    assert!(!DependencyCycleRule.evaluate(&w).unwrap().is_empty());
    let ok = Workflow::new("w".to_string())
        .add_step(WorkflowStep::new("a".to_string()))
        .add_step(WorkflowStep::new("b".to_string()).add_dependency("a".to_string()));
    assert!(DeadlockRule.evaluate(&ok).unwrap().is_empty());
    assert!(DependencyCycleRule.evaluate(&ok).unwrap().is_empty());
}

#[test]
fn decide_takes_the_first_matching_intent_and_complete_settings() {
    let analyzer = IntentAnalyzer::new();
    let matched = vec![false, true, false, true, false, true];
    let groups = vec![
        (Some("k".to_string()), Some("v".to_string())),
        (Some("x".to_string()), None),
        (Some("k".to_string()), Some("w".to_string())),
    ];
    let intent = analyzer.decide("Create a plan k=v".to_string(), "create a plan k=v", &matched, &groups);
    assert_eq!(intent.name, "create");
    assert_eq!(intent.confidence_tenths, 9);
    assert!(!intent.requires_tool);
    assert!(intent.requires_planner);
    assert_eq!(intent.metadata.len(), 1);
    assert_eq!(intent.metadata.get("k").map(|s| s.as_str()), Some("w"));
    assert_eq!(intent.raw, "Create a plan k=v");
    let none = analyzer.decide("run it".to_string(), "run it", &vec![false; 6], &Vec::new());
    assert_eq!(none.name, "general");
    assert_eq!(none.confidence_tenths, 5);
    assert!(none.requires_tool);
}

#[test]
fn frontmatter_keys_are_lowered_in_ascii() {
    let (fm, body) = parse_frontmatter("---\nTitle: Hello\nLAST_Updated: \"x\"\n---\nBody").unwrap();
    assert_eq!(fm.get("title").map(|s| s.as_str()), Some("Hello"));
    assert_eq!(fm.get("last_updated").map(|s| s.as_str()), Some("x"));
    assert_eq!(fm.len(), 2);
    assert_eq!(body, "Body");
}

#[test]
fn digest_keys_of_either_case_load_under_the_lower_case_key() {
    let k = EmbeddingCache::<u32>::hash_content("text");
    let upper = k.to_uppercase();
    let entries = vec![
        (upper.clone(), CachedEmbedding { content_hash_hex: upper.clone(), vector: vec![7u32], timestamp: 3 }),
        ("not-a-digest".to_string(), CachedEmbedding { content_hash_hex: String::new(), vector: vec![1u32], timestamp: 4 }),
    ];
    let mut cache: EmbeddingCache<u32> = EmbeddingCache::new();
    assert_eq!(cache.load_entries(&entries), 1);
    let persisted = cache.persisted_entries();
    assert_eq!(persisted.len(), 1);
    assert_eq!(persisted[0].0, k);
    assert_eq!(persisted[0].1.vector, vec![7]);
    assert_eq!(persisted[0].1.timestamp, 3);
}
