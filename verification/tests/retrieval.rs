//! Tests of context building, re-ranking support, dimension checks and cache persistence.
use raven_core::knowledge::embedding::backend::errors::{check_text, BackendError};
use raven_core::knowledge::embedding::cache::{CachedEmbedding, EmbeddingCache};
use raven_core::knowledge::embedding::retrieval::hybrid::{combined_query, pair_by_id};
use raven_core::knowledge::embedding::retrieval::reranker::{ContextBuilder, SearchResultReranker};
use raven_core::knowledge::embedding::similarity::check_dimensions;
use raven_core::knowledge::embedding::vector::metadata::VectorMetadata;

#[test]
fn word_count_counts_runs_of_non_space() {
    assert_eq!(ContextBuilder::word_count(""), 0);
    assert_eq!(ContextBuilder::word_count("   "), 0);
    assert_eq!(ContextBuilder::word_count("one"), 1);
    assert_eq!(ContextBuilder::word_count("  two words \n\tand three "), 4);
}

#[test]
fn pack_entries_stops_at_first_entry_over_budget() {
    let entries = vec![
        "## a\nalpha beta\n\n".to_string(),
        "## b\ngamma delta epsilon\n\n".to_string(),
        "## c\nzeta\n\n".to_string(),
    ];
    // Words: 4, 5, 3.
    assert_eq!(ContextBuilder::pack_entries(&entries, 12), entries.concat());
    assert_eq!(ContextBuilder::pack_entries(&entries, 9), format!("{}{}", entries[0], entries[1]));
    // The third would fit a budget of 8 after the first, but the second already does not.
    assert_eq!(ContextBuilder::pack_entries(&entries, 8), entries[0].clone());
    assert_eq!(ContextBuilder::pack_entries(&entries, 3), "");
    assert_eq!(ContextBuilder::pack_entries(&[], 100), "");
}

#[test]
fn compact_context_joins_first_three() {
    let contents: Vec<String> = vec!["a", "b", "c", "d"].into_iter().map(String::from).collect();
    assert_eq!(ContextBuilder::build_compact_context(&contents), "a\n\n---\n\nb\n\n---\n\nc");
    assert_eq!(ContextBuilder::build_compact_context(&contents[..1]), "a");
    assert_eq!(ContextBuilder::build_compact_context(&[]), "");
}

#[test]
fn first_seen_marks_new_modules() {
    let modules: Vec<String> = vec!["core", "api", "core", "unknown", "api"].into_iter().map(String::from).collect();
    assert_eq!(SearchResultReranker::first_seen(&modules), vec![true, true, false, true, false]);
    assert!(SearchResultReranker::first_seen(&[]).is_empty());
}

#[test]
fn dimension_check_names_both_dimensions() {
    assert_eq!(check_dimensions(3, 3), Ok(()));
    assert_eq!(check_dimensions(2, 3), Err("Dimension mismatch: 2 vs 3".to_string()));
    assert_eq!(check_dimensions(768, 0), Err("Dimension mismatch: 768 vs 0".to_string()));
}

#[test]
fn result_fields_report_metadata() {
    let mut meta = VectorMetadata::minimal("v1".to_string(), "doc-7".to_string(), "text".to_string());
    meta.chunk_id = 12;
    meta.module = "core".to_string();
    meta.tags = vec!["x".to_string(), "y".to_string()];
    let fields = meta.result_fields();
    assert_eq!(fields.len(), 6);
    assert_eq!(fields.get("document_id").map(|s| s.as_str()), Some("doc-7"));
    assert_eq!(fields.get("chunk_id").map(|s| s.as_str()), Some("12"));
    assert_eq!(fields.get("language").map(|s| s.as_str()), Some("en"));
    assert_eq!(fields.get("source").map(|s| s.as_str()), Some("unknown"));
    assert_eq!(fields.get("module").map(|s| s.as_str()), Some("core"));
    assert_eq!(fields.get("tags").map(|s| s.as_str()), Some("x,y"));
}

#[test]
fn check_text_refuses_unready_and_empty() {
    match check_text(false, "BGE model not ready", "hello") {
        Err(BackendError::ModelNotLoaded(m)) => assert_eq!(m, "BGE model not ready"),
        other => panic!("unexpected {:?}", other),
    }
    match check_text(true, "BGE model not ready", "") {
        Err(BackendError::InvalidInput(m)) => assert_eq!(m, "text cannot be empty"),
        other => panic!("unexpected {:?}", other),
    }
    assert!(check_text(true, "BGE model not ready", "hello").is_ok());
}

#[test]
fn cache_persist_then_load_round_trips() {
    let mut cache: EmbeddingCache<u32> = EmbeddingCache::new();
    let k1 = EmbeddingCache::<u32>::hash_content("first");
    let k2 = EmbeddingCache::<u32>::hash_content("second");
    cache.insert(k1.clone(), vec![1, 2, 3]);
    cache.insert(k2.clone(), vec![4]);
    let persisted = cache.persisted_entries();
    assert_eq!(persisted.len(), 2);

    let mut loaded: EmbeddingCache<u32> = EmbeddingCache::disabled();
    assert_eq!(loaded.load_entries(&persisted), 2);
    loaded.set_enabled(true);
    assert_eq!(loaded.get(&k1), Some(vec![1, 2, 3]));
    assert_eq!(loaded.get(&k2), Some(vec![4]));
}

#[test]
fn cache_load_normalizes_and_skips_keys() {
    let key = EmbeddingCache::<u32>::hash_content("content");
    let upper = key.to_uppercase();
    let entries = vec![
        (upper.clone(), CachedEmbedding::new(upper.clone(), vec![7u32])),
        ("not-a-digest".to_string(), CachedEmbedding::new("x".to_string(), vec![8u32])),
        (key[..62].to_string(), CachedEmbedding::new("y".to_string(), vec![9u32])),
    ];
    let mut cache: EmbeddingCache<u32> = EmbeddingCache::new();
    assert_eq!(cache.load_entries(&entries), 1);
    assert_eq!(cache.get(&key), Some(vec![7]));
    assert_eq!(cache.get(&upper), None);
}

#[test]
fn pair_by_id_lists_each_vector_once() {
    let sem: Vec<String> = vec!["a", "b", "a"].into_iter().map(String::from).collect();
    let key: Vec<String> = vec!["c", "a", "c"].into_iter().map(String::from).collect();
    let pairs = pair_by_id(&sem, &key);
    let ids: Vec<&str> = pairs.iter().map(|e| e.id.as_str()).collect();
    assert_eq!(ids, vec!["a", "b", "c"]);
    assert_eq!((pairs[0].semantic, pairs[0].keyword_first, pairs[0].keyword_last), (Some(2), Some(1), Some(1)));
    assert_eq!((pairs[1].semantic, pairs[1].keyword_first, pairs[1].keyword_last), (Some(1), None, None));
    assert_eq!((pairs[2].semantic, pairs[2].keyword_first, pairs[2].keyword_last), (None, Some(0), Some(2)));
    assert!(pair_by_id(&[], &[]).is_empty());
    assert_eq!(combined_query("semantic", "keyword"), "semantic + keyword");
}

fn context_entry(id: &str, score: f32, content: &str) -> String {
    format!("## {} (similarity: {:.2}%)\n{}\n\n", id, score * 100.0, content)
}

#[test]
fn test_build_context() {
    let entries = vec![
        context_entry("v1", 0.9, "This is a long context that contains information"),
        context_entry("v2", 0.8, "Another piece of context"),
    ];
    let context = ContextBuilder::pack_entries(&entries, 100);
    assert!(!context.is_empty());
    assert!(context.contains("This is a long context"));
    assert_eq!(context, entries.concat());
}

#[test]
fn test_build_compact_context() {
    let contents: Vec<String> = vec!["content 1", "content 2", "content 3"].into_iter().map(String::from).collect();
    let context = ContextBuilder::build_compact_context(&contents);
    assert!(context.contains("content 1"));
    assert!(context.contains("content 2"));
}
