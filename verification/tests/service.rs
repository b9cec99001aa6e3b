//! Tests of the embedding service's cache and counters.
use raven_core::knowledge::embedding::backend::errors::BackendError;
use raven_core::knowledge::embedding::service::{EmbeddingServiceConfig, ServiceState};

#[test]
fn service_refuses_empty_text_without_counting() {
    let mut s: ServiceState<u32> = ServiceState::new(true);
    assert_eq!(s.begin_embed(""), Err("Text cannot be empty".to_string()));
    let c = s.metrics();
    assert_eq!((c.cache_hits, c.cache_misses), (0, 0));
}

#[test]
fn service_miss_then_hit() {
    let mut s: ServiceState<u32> = ServiceState::new(true);
    assert_eq!(s.begin_embed("hello"), Ok(None));
    assert_eq!(s.finish_embed("hello", Ok(vec![1, 2]), 7), Ok(vec![1, 2]));
    assert_eq!(s.begin_embed("hello"), Ok(Some(vec![1, 2])));
    let c = s.metrics();
    assert_eq!((c.cache_hits, c.cache_misses, c.total_embeddings, c.total_embedding_time_ms), (1, 1, 1, 7));
    assert_eq!(s.cache_size(), 1);
    s.clear_cache();
    assert_eq!(s.cache_size(), 0);
    assert_eq!(s.begin_embed("hello"), Ok(None));
}

#[test]
fn service_without_cache_always_misses() {
    let mut s: ServiceState<u32> = ServiceState::new(false);
    assert_eq!(s.begin_embed("x"), Ok(None));
    assert_eq!(s.finish_embed("x", Ok(vec![3]), 1), Ok(vec![3]));
    assert_eq!(s.begin_embed("x"), Ok(None));
    assert_eq!(s.cache_size(), 0);
    assert_eq!(s.metrics().cache_misses, 2);
}

#[test]
fn service_backend_failure_message() {
    let mut s: ServiceState<u32> = ServiceState::new(true);
    let r = s.finish_embed("x", Err(BackendError::InvalidInput("text cannot be empty".to_string())), 3);
    assert_eq!(r, Err("Backend embedding failed: invalid input: text cannot be empty".to_string()));
    assert_eq!(s.cache_size(), 0);
    assert_eq!(s.metrics().total_embeddings, 0);
    assert_eq!(
        ServiceState::<u32>::batch_failure(&BackendError::ModelNotLoaded("BGE model not ready".to_string())),
        "Batch embedding failed: model not loaded: BGE model not ready"
    );
}

#[test]
fn service_batch_caches_each_text() {
    let mut s: ServiceState<u32> = ServiceState::new(true);
    s.store_batch(&["a", "b", "a"], &vec![vec![1], vec![2], vec![3]]);
    assert_eq!(s.cache_size(), 2);
    assert_eq!(s.begin_embed("a"), Ok(Some(vec![3])));
    s.finish_batch(3, 10);
    let c = s.metrics();
    assert_eq!((c.total_batch_embeddings, c.total_embedding_time_ms), (3, 10));
}

#[test]
fn service_config_defaults() {
    let c = EmbeddingServiceConfig::with_backend("e5-base");
    assert_eq!(c.backend.provider, "e5-base");
    assert_eq!(c.batch_size, 32);
    assert!(c.cache_enabled && c.normalize);
}
