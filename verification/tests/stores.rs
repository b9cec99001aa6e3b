//! Tests of the stores' bookkeeping, cache time stamps, provider names and
//! time-limit checks.
use raven_core::ecc::workflow::engine::WorkflowEccEngine;
use raven_core::ecc::workflow::rules::timeout::timeouts_fit;
use raven_core::ecc::workflow::types::{Workflow, WorkflowStep};
use raven_core::knowledge::embedding::backend::registry::BackendRegistry;
use raven_core::knowledge::embedding::cache::{CachedEmbedding, EmbeddingCache};
use raven_core::knowledge::embedding::vector::metadata::{MetadataStore, VectorMetadata};
use raven_core::knowledge::embedding::vector::storage::VectorStorage;
use raven_core::time::utc_now;

fn record(id: &str, doc: &str) -> VectorMetadata {
    VectorMetadata::minimal(id.to_string(), doc.to_string(), format!("content of {}", id))
}

#[test]
fn with_extra_keeps_every_other_field() {
    let mut m = record("v1", "d1");
    m.chunk_id = 7;
    m.path = "docs/a.md".to_string();
    m.timestamp = 42;
    m.title = "Title".to_string();
    let r = m.clone().with_extra("k".to_string(), "v".to_string());
    assert_eq!(r.get_extra("k"), Some("v"));
    assert_eq!(r.chunk_id, 7);
    assert_eq!(r.path, "docs/a.md");
    assert_eq!(r.timestamp, 42);
    assert_eq!(r.title, "Title");
    assert_eq!(r.language, m.language);
    assert_eq!(r.tags, m.tags);
}

#[test]
fn with_tags_appends_and_keeps_the_rest() {
    let mut m = record("v1", "d1");
    m.tags.push("a".to_string());
    m.timestamp = 9;
    let r = m.clone().with_tags(vec!["b".to_string(), "a".to_string()]);
    assert_eq!(r.tags, vec!["a".to_string(), "b".to_string(), "a".to_string()]);
    assert_eq!(r.timestamp, 9);
    assert_eq!(r.id, "v1");
    assert_eq!(r.author, m.author);
}

#[test]
fn metadata_store_counts_follow_inserts_and_removals() {
    let mut s = MetadataStore::new();
    s.insert(record("v0", "d0"));
    s.insert(record("v1", "d1"));
    s.insert(record("v2", "d0"));
    assert_eq!(s.len(), 3);
    assert_eq!(s.by_document("d0").len(), 2);
    s.insert(record("v1", "d0"));
    assert_eq!(s.len(), 3);
    assert_eq!(s.by_document("d0").len(), 3);
    let ids: Vec<&str> = s.all().iter().map(|m| m.id.as_str()).collect();
    assert_eq!(ids, vec!["v0", "v1", "v2"]);
    assert!(s.remove("v1").is_some());
    assert_eq!(s.len(), 2);
    assert!(s.remove("v1").is_none());
    assert_eq!(s.len(), 2);
    let ids: Vec<&str> = s.all().iter().map(|m| m.id.as_str()).collect();
    assert_eq!(ids, vec!["v0", "v2"]);
}

#[test]
fn metadata_store_get_mut_keeps_place() {
    let mut s = MetadataStore::new();
    s.insert(record("v0", "d0"));
    s.insert(record("v1", "d1"));
    if let Some(m) = s.get_mut("v0") {
        m.module = "changed".to_string();
    }
    let all = s.all();
    assert_eq!(all[0].id, "v0");
    assert_eq!(all[0].module, "changed");
    assert_eq!(s.by_module("changed").len(), 1);
}

#[test]
fn vector_storage_counts_follow_inserts_and_removals() {
    let mut st: VectorStorage<u32> = VectorStorage::new();
    st.insert("a".to_string(), vec![1, 2], record("a", "d0"));
    st.insert("b".to_string(), vec![3, 4], record("b", "d1"));
    st.insert("a".to_string(), vec![5, 6], record("a", "d1"));
    assert_eq!(st.len(), 2);
    assert_eq!(st.ids(), vec!["a".to_string(), "b".to_string()]);
    assert_eq!(st.get("a"), Some(&vec![5, 6]));
    assert_eq!(st.by_document("d1").len(), 2);
    assert!(st.remove("a").is_some());
    assert_eq!(st.len(), 1);
    assert_eq!(st.all_stored().len(), 1);
}

#[test]
fn cache_keeps_time_stamps_across_persist_and_load() {
    let k1 = EmbeddingCache::<u32>::hash_content("one");
    let k2 = EmbeddingCache::<u32>::hash_content("two");
    let entries = vec![
        (k1.clone(), CachedEmbedding { content_hash_hex: k1.clone(), vector: vec![1u32, 2], timestamp: 111 }),
        (k2.clone(), CachedEmbedding { content_hash_hex: k2.clone(), vector: vec![3u32], timestamp: 222 }),
    ];
    let mut cache: EmbeddingCache<u32> = EmbeddingCache::new();
    assert_eq!(cache.load_entries(&entries), 2);
    let persisted = cache.persisted_entries();
    assert_eq!(persisted.len(), 2);
    for (k, e) in persisted.iter() {
        if *k == k1 {
            assert_eq!(e.timestamp, 111);
            assert_eq!(e.vector, vec![1, 2]);
        } else {
            assert_eq!(*k, k2);
            assert_eq!(e.timestamp, 222);
        }
    }
    let mut again: EmbeddingCache<u32> = EmbeddingCache::new();
    assert_eq!(again.load_entries(&persisted), 2);
    let stamps: Vec<u64> = again.persisted_entries().iter().map(|(_, e)| e.timestamp).collect();
    assert!(stamps.contains(&111) && stamps.contains(&222));
}

#[test]
fn every_listed_provider_resolves_to_its_own_name() {
    for name in BackendRegistry::available_providers() {
        let info = BackendRegistry::provider_info(name).unwrap();
        assert_eq!(info.name, name);
    }
    assert_eq!(BackendRegistry::provider_info("BGE-Small").unwrap().name, "bge-small");
}

#[test]
fn timeouts_fit_detects_overflowing_sums() {
    let mut w = Workflow::new("w".to_string())
        .add_step(WorkflowStep::new("a".to_string()).with_timeout(u64::MAX))
        .add_step(WorkflowStep::new("b".to_string()).with_timeout(1));
    assert!(timeouts_fit(&w));
    w.total_timeout_ms = Some(10);
    assert!(!timeouts_fit(&w));
    let mut ok = Workflow::new("w2".to_string()).add_step(WorkflowStep::new("a".to_string()).with_timeout(5));
    ok.total_timeout_ms = Some(10);
    assert!(timeouts_fit(&ok));
    let engine = WorkflowEccEngine::new();
    assert!(engine.process(&ok).is_ok());
}

#[test]
fn utc_now_has_sub_second_nanos() {
    let t = utc_now();
    assert!(t.nanos < 1_000_000_000);
    assert!(t.secs > 0);
}
