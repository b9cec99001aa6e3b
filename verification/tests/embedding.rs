//! Tests of the embedding toolkit.
use raven_core::knowledge::embedding::backend::registry::BackendRegistry;
use raven_core::knowledge::embedding::batching::{BatchConfig, BatchProcessor};
use raven_core::knowledge::embedding::metrics::EmbeddingMetrics;
use raven_core::knowledge::embedding::tokenizer::SimpleTokenizer;
use raven_core::knowledge::embedding::vector::metadata::{MetadataStore, VectorMetadata};

use raven_core::knowledge::embedding::backend::bge::BgeVariant;
use raven_core::knowledge::embedding::backend::e5::E5Variant;
use raven_core::knowledge::embedding::backend::errors::BackendError;
use raven_core::knowledge::embedding::backend::local::{clamp_dimension, local_hash_bytes};
use raven_core::knowledge::embedding::backend::nomic::nomic_embedding_states;
use raven_core::knowledge::embedding::backend::prng::xorshift_sequence;
use raven_core::knowledge::embedding::backend::registry::{BackendConfig, BackendKind};
use raven_core::strmap::StrMap;

#[test]
fn test_batch_config() {
    let config = BatchConfig::new(32);
    assert_eq!(config.batch_size, 32);
    assert_eq!(config.max_queue_size, 320);
}

#[test]
fn test_split_into_batches() {
    let processor = BatchProcessor::new(BatchConfig::new(10));
    let texts: Vec<&str> = (0..25).map(|_i| "text").collect();
    let batches = processor.split_into_batches(&texts);
    assert_eq!(batches.len(), 3);
    assert_eq!(batches[0].len(), 10);
    assert_eq!(batches[2].len(), 5);
}

#[test]
fn test_split_exact_batches() {
    let processor = BatchProcessor::new(BatchConfig::new(10));
    let texts: Vec<&str> = (0..30).map(|_i| "text").collect();
    let batches = processor.split_into_batches(&texts);
    assert_eq!(batches.len(), 3);
    assert_eq!(batches[0].len(), 10);
    assert_eq!(batches[1].len(), 10);
    assert_eq!(batches[2].len(), 10);
}

#[test]
fn test_metrics_creation() {
    let metrics = EmbeddingMetrics::new();
    assert_eq!(metrics.total_embeddings(), 0);
}

#[test]
fn test_record_embedding() {
    let mut metrics = EmbeddingMetrics::new();
    metrics.record_embedding(10);
    assert_eq!(metrics.total_embeddings(), 1);
}

#[test]
fn test_available_providers() {
    let providers = BackendRegistry::available_providers();
    assert!(providers.len() >= 7);
    assert!(providers.contains(&"bge-small"));
    assert!(providers.contains(&"qwen"));
}

#[test]
fn test_provider_info() {
    let info = BackendRegistry::provider_info("bge-small").unwrap();
    assert_eq!(info.dimension, 384);
    assert!(info.cpu_support);
}

#[test]
fn test_basic_tokenization() {
    let tokenizer = SimpleTokenizer::new();
    let tokens = tokenizer.tokenize("Hello World!");
    assert_eq!(tokens, vec!["hello", "world"]);
}

#[test]
fn test_normalize_unicode() {
    let tokenizer = SimpleTokenizer::new();
    let tokens = tokenizer.tokenize("Héllo Wörld");
    assert!(tokens.iter().all(|t| !t.contains('é') && !t.contains('ö')));
}

#[test]
fn test_filtered_tokenization() {
    let tokenizer = SimpleTokenizer::new();
    let tokens = tokenizer.tokenize_filtered("The quick brown fox jumps over the lazy dog");
    assert!(!tokens.contains(&"the".to_string()));
    assert!(tokens.contains(&"quick".to_string()));
    assert!(tokens.contains(&"brown".to_string()));
}

#[test]
fn test_term_frequencies() {
    let tokenizer = SimpleTokenizer::new();
    let tokens = tokenizer.tokenize("hello world hello");
    let freqs = tokenizer.term_frequencies(&tokens);
    assert_eq!(freqs.get("hello"), Some(&2));
    assert_eq!(freqs.get("world"), Some(&1));
}

#[test]
fn test_metadata_creation() {
    let meta = VectorMetadata::minimal("v1".to_string(), "d1".to_string(), "content".to_string());
    assert_eq!(meta.id, "v1");
    assert_eq!(meta.document_id, "d1");
}

#[test]
fn test_metadata_store() {
    let mut store = MetadataStore::new();
    let meta = VectorMetadata::minimal("v1".to_string(), "d1".to_string(), "content".to_string());
    store.insert(meta);
    assert_eq!(store.len(), 1);
    assert!(store.get("v1").is_some());
}

#[test]
fn test_metadata_filtering() {
    let mut store = MetadataStore::new();
    for i in 0..3 {
        let mut meta = VectorMetadata::minimal(format!("v{}", i), format!("d{}", i % 2), format!("content {}", i));
        meta.tags.push("test".to_string());
        store.insert(meta);
    }

    let by_doc = store.by_document("d0");
    assert!(by_doc.len() >= 1);

    let by_tag = store.by_tag("test");
    assert_eq!(by_tag.len(), 3);
}

#[test]
fn unknown_provider_is_refused() {
    match BackendRegistry::provider_info("Mystery") {
        Err(BackendError::ConfigurationError(m)) => assert_eq!(m, "Unknown provider: mystery"),
        _ => panic!("expected a configuration error"),
    }
    let info = BackendRegistry::provider_info("QWEN-Embed").unwrap();
    assert_eq!(info.name, "qwen");
    assert_eq!(info.dimension, 1024);
    assert!(info.gpu_support);
}

#[test]
fn backend_selection_by_name() {
    assert_eq!(BackendRegistry::select(&BackendConfig::new("Local")).unwrap(), BackendKind::LocalHash);
    match BackendRegistry::select(&BackendConfig::new("invalid-provider")) {
        Err(BackendError::ConfigurationError(m)) => assert_eq!(m, "Unknown backend provider: invalid-provider"),
        _ => panic!("expected a configuration error"),
    }
    let c = BackendConfig::new("e5-base").with_model_path("/models");
    assert_eq!(c.model_path.as_deref(), Some("/models"));
}

#[test]
fn backend_error_texts() {
    assert_eq!(BackendError::DimensionMismatch { expected: 384, actual: 3 }.to_string(), "dimension mismatch: expected 384, got 3");
    assert_eq!(BackendError::Timeout("t".to_string()).to_string(), "timeout: t");
}

#[test]
fn model_variants() {
    assert_eq!(BgeVariant::Small.dimension(), 384);
    assert_eq!(BgeVariant::Base.model_name(), "bge-base");
    assert_eq!(E5Variant::Base.dimension(), 768);
    assert_eq!(E5Variant::Small.model_name(), "e5-small");
    assert_eq!(E5Variant::prefixed("x", true), "query: x");
    assert_eq!(E5Variant::prefixed("x", false), "passage: x");
}

#[test]
fn generator_states() {
    assert_eq!(xorshift_sequence(1, 2), vec![1082269761u64, 1152992998833853505]);
    let a = BgeVariant::Small.embedding_states("hello");
    assert_eq!(a.len(), 384);
    assert_eq!(a, BgeVariant::Small.embedding_states("hello"));
    assert_ne!(a, BgeVariant::Small.embedding_states("world"));
    assert_eq!(nomic_embedding_states("x").len(), 768);
    assert_eq!(clamp_dimension(10), 64);
    assert_eq!(clamp_dimension(8192), 4096);
    assert_eq!(clamp_dimension(300), 300);
    let bytes = local_hash_bytes("abc", 5);
    assert_eq!(bytes, vec![0x64, 0xff, 0x48, 0xfd, 0x64]);
}

#[test]
fn metrics_counters() {
    let mut m = EmbeddingMetrics::new();
    m.record_cache_hit();
    m.record_cache_hit();
    m.record_cache_miss();
    m.record_batch_embedding(5, 20);
    m.record_model_load(7);
    let c = m.counts();
    assert_eq!((c.cache_hits, c.cache_misses, c.total_batch_embeddings, c.total_embedding_time_ms), (2, 1, 5, 20));
    assert_eq!((c.model_load_count, c.total_model_load_time_ms), (1, 7));
    m.record_batch_embedding(u64::MAX, 0);
    assert_eq!(m.total_batch_embeddings(), 4);
    m.reset();
    assert_eq!(m.counts().cache_hits, 0);
}

#[test]
fn batch_helpers() {
    let p = BatchProcessor::new(BatchConfig::new(4).with_max_queue_size(9));
    assert_eq!(p.config().max_queue_size, 9);
    assert_eq!(p.recommended_batch_size(3), 3);
    assert_eq!(p.recommended_batch_size(10), 4);
    let empty: Vec<&str> = vec![];
    assert!(p.split_into_batches(&empty).is_empty());
    let d = BatchProcessor::default();
    assert_eq!(d.config().batch_size, 32);
}

#[test]
fn tokenizer_sets_and_filters() {
    let t = SimpleTokenizer::new();
    let set = t.tokenize_to_set("b a b c a");
    assert_eq!(set, vec!["b", "a", "c"]);
    assert!(t.tokenize_filtered("I am a cat").iter().all(|w| w != "i" && w != "a"));
    assert_eq!(t.tokenize("well-known re-use"), vec!["well", "known", "re", "use"]);
}

#[test]
fn metadata_extras_and_filters() {
    let m = VectorMetadata::minimal("v".to_string(), "d".to_string(), "c".to_string())
        .with_extra("lang".to_string(), "rust".to_string())
        .with_tags(vec!["x".to_string()]);
    assert_eq!(m.get_extra("lang"), Some("rust"));
    assert_eq!(m.get_extra("none"), None);
    assert_eq!(m.tags, vec!["x".to_string()]);
    assert!(m.matches_filter(|r| r.id == "v"));
    let mut f = StrMap::new();
    f.insert("lang".to_string(), "rust".to_string());
    assert!(m.matches_search_filters(Some("unknown"), Some("en"), Some(&f)));
    assert!(!m.matches_search_filters(Some("other"), None, None));
    f.insert("lang".to_string(), "go".to_string());
    assert!(!m.matches_search_filters(None, None, Some(&f)));
    let mut store = MetadataStore::new();
    store.insert(m);
    assert_eq!(store.find(|r| r.document_id == "d").len(), 1);
    assert_eq!(store.all().len(), 1);
    assert!(store.remove("v").is_some());
    assert!(store.is_empty());
}

#[test]
fn metadata_store_get_mut_changes_in_place() {
    let mut store = MetadataStore::new();
    store.insert(VectorMetadata::minimal("v1".to_string(), "d1".to_string(), "c".to_string()));
    match store.get_mut("v1") {
        Some(m) => m.module = "core".to_string(),
        None => panic!("record missing"),
    }
    assert_eq!(store.get("v1").map(|m| m.module.as_str()), Some("core"));
    assert_eq!(store.len(), 1);
    assert!(store.get_mut("v2").is_none());
}

#[test]
fn text_map_get_mut_keeps_keys() {
    let mut m: StrMap<usize> = StrMap::new();
    m.insert("a".to_string(), 1);
    m.insert("b".to_string(), 2);
    if let Some(v) = m.get_mut("b") {
        *v += 40;
    }
    assert_eq!(m.get("b"), Some(&42));
    assert_eq!(m.get("a"), Some(&1));
    assert_eq!(m.key_at(1), "b");
    assert!(m.get_mut("c").is_none());
}

#[test]
fn test_create_bge_small() {
    let config = BackendConfig::new("bge-small");
    let backend = BackendRegistry::select(&config);
    assert!(backend.is_ok());
    assert_eq!(backend.unwrap(), BackendKind::BgeSmall);
    assert_eq!(BgeVariant::Small.dimension(), 384);
    assert_eq!(BgeVariant::Small.model_name(), "bge-small");
}

#[test]
fn test_create_e5_base() {
    let config = BackendConfig::new("e5-base");
    let backend = BackendRegistry::select(&config);
    assert!(backend.is_ok());
    assert_eq!(backend.unwrap(), BackendKind::E5Base);
    assert_eq!(E5Variant::Base.dimension(), 768);
    assert_eq!(E5Variant::Base.model_name(), "e5-base");
}

#[test]
fn test_create_nomic() {
    let config = BackendConfig::new("nomic");
    let backend = BackendRegistry::select(&config);
    assert!(backend.is_ok());
    assert_eq!(backend.unwrap(), BackendKind::Nomic);
}

#[test]
fn test_create_qwen() {
    let config = BackendConfig::new("qwen");
    let backend = BackendRegistry::select(&config);
    assert!(backend.is_ok());
    assert_eq!(backend.unwrap(), BackendKind::Qwen);
    assert_eq!(BackendRegistry::provider_info("qwen").unwrap().dimension, 1024);
}

#[test]
fn test_create_local_hash() {
    let config = BackendConfig::new("local-hash");
    let backend = BackendRegistry::select(&config);
    assert!(backend.is_ok());
    assert_eq!(backend.unwrap(), BackendKind::LocalHash);
}

#[test]
fn test_invalid_provider() {
    let config = BackendConfig::new("invalid-provider");
    let result = BackendRegistry::select(&config);
    assert!(result.is_err());
    match result {
        Err(BackendError::ConfigurationError(m)) => assert_eq!(m, "Unknown backend provider: invalid-provider"),
        other => panic!("unexpected {:?}", other),
    }
}
