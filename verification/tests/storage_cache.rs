//! Tests of the embedding cache and of vector storage.
use raven_core::knowledge::embedding::cache::EmbeddingCache;
use raven_core::knowledge::embedding::vector::metadata::VectorMetadata;
use raven_core::knowledge::embedding::vector::storage::VectorStorage;

#[test]
fn cache_test_cache_hit() {
    let mut cache = EmbeddingCache::new();
    let content = "hello world";
    let hash = EmbeddingCache::<f32>::hash_content(content);
    let vector = vec![1.0f32, 2.0, 3.0];

    cache.insert(hash.clone(), vector.clone());
    let result = cache.get(&hash);
    assert!(result.is_some());
    assert_eq!(result.unwrap(), vector);
}

#[test]
fn test_cache_miss() {
    let mut cache = EmbeddingCache::<f32>::new();
    let hash = EmbeddingCache::<f32>::hash_content("test");
    assert!(cache.get(&hash).is_none());
}

#[test]
fn test_cache_disabled() {
    let mut cache = EmbeddingCache::disabled();
    let hash = EmbeddingCache::<f32>::hash_content("test");
    let vector = vec![1.0f32, 2.0];
    cache.insert(hash.clone(), vector);
    assert!(cache.get(&hash).is_none());
}

#[test]
fn test_get_or_insert() {
    let mut cache = EmbeddingCache::new();
    let content = "test content";
    let vector = vec![1.0f32, 2.0, 3.0];

    let result = cache.get_or_insert(content, || vector.clone());
    assert_eq!(result, vector);

    // Second call should hit cache
    let result2 = cache.get_or_insert(content, || panic!("Should not be called"));
    assert_eq!(result2, vector);
}

#[test]
fn cache_test_cache_statistics() {
    let mut cache = EmbeddingCache::new();
    let hash = EmbeddingCache::<f32>::hash_content("test");
    let vector = vec![1.0f32];

    cache.insert(hash.clone(), vector);
    cache.get(&hash);
    cache.get(&EmbeddingCache::<f32>::hash_content("other"));

    let stats = cache.statistics();
    assert_eq!(stats.hit_count, 1);
    assert_eq!(stats.miss_count, 1);
}

#[test]
fn cache_key_is_blake3_hex() {
    assert_eq!(
        EmbeddingCache::<f32>::hash_content("abc"),
        "6437b3ac38465133ffb63b75273a8db548c558465d79db03fd359c6cd5bd9d85"
    );
}

#[test]
fn cache_clear_resets_counts() {
    let mut cache = EmbeddingCache::new();
    cache.insert("k".to_string(), vec![1u8]);
    assert!(cache.get("k").is_some());
    assert!(cache.remove("k").is_some());
    assert!(cache.is_empty());
    cache.clear();
    let stats = cache.statistics();
    assert_eq!((stats.total_entries, stats.hit_count, stats.miss_count), (0, 0, 0));
}

#[test]
fn test_insert_and_retrieve() {
    let mut storage = VectorStorage::new();
    let vector = vec![1.0f32, 2.0, 3.0];
    let metadata = VectorMetadata::minimal("v1".to_string(), "d1".to_string(), "content".to_string());

    storage.insert("v1".to_string(), vector.clone(), metadata);
    assert!(storage.contains("v1"));
    assert_eq!(storage.len(), 1);
}

#[test]
fn storage_test_remove() {
    let mut storage = VectorStorage::new();
    let vector = vec![1.0f32, 2.0];
    let metadata = VectorMetadata::minimal("v1".to_string(), "d1".to_string(), "x".to_string());
    storage.insert("v1".to_string(), vector, metadata);
    assert_eq!(storage.len(), 1);

    storage.remove("v1");
    assert_eq!(storage.len(), 0);
}

#[test]
fn test_batch_operations() {
    let mut storage = VectorStorage::new();
    let mut entries = Vec::new();
    for i in 0..5 {
        let vector = vec![i as f32];
        let metadata = VectorMetadata::minimal(format!("v{}", i), format!("d{}", i), format!("content {}", i));
        entries.push((format!("v{}", i), vector, metadata));
    }
    storage.batch_insert(entries);
    assert_eq!(storage.len(), 5);
}

#[test]
fn test_filtering() {
    let mut storage = VectorStorage::new();
    for i in 0..3 {
        let vector = vec![i as f32];
        let mut metadata = VectorMetadata::minimal(format!("v{}", i), "d1".to_string(), format!("content {}", i));
        metadata.tags.push("test".to_string());
        storage.insert(format!("v{}", i), vector, metadata);
    }

    let by_doc = storage.by_document("d1");
    assert_eq!(by_doc.len(), 3);

    let by_tag = storage.by_tag("test");
    assert_eq!(by_tag.len(), 3);
}

#[test]
fn test_statistics() {
    let mut storage = VectorStorage::new();
    let vector = vec![1.0f32, 2.0, 3.0];
    let metadata = VectorMetadata::minimal("v1".to_string(), "d1".to_string(), "content".to_string());
    storage.insert("v1".to_string(), vector, metadata);

    let stats = storage.statistics();
    assert_eq!(stats.total_vectors, 1);
    assert_eq!(stats.vector_dimension, 3);
}

#[test]
fn storage_update_and_modules() {
    let mut storage = VectorStorage::new();
    for (i, module) in ["a", "b", "a"].iter().enumerate() {
        let mut metadata = VectorMetadata::minimal(format!("v{}", i), format!("d{}", i), "c".to_string());
        metadata.module = module.to_string();
        storage.insert(format!("v{}", i), vec![0u8; 2], metadata);
    }
    let stats = storage.statistics();
    assert_eq!(stats.unique_modules, 2);
    assert_eq!(stats.unique_documents, 3);
    assert_eq!(storage.by_module("a").len(), 2);
    assert_eq!(storage.ids(), vec!["v0", "v1", "v2"]);
    let new_meta = VectorMetadata::minimal("v1".to_string(), "dz".to_string(), "c".to_string());
    assert!(storage.update_metadata("v1", new_meta));
    assert_eq!(storage.get_stored("v1").unwrap().metadata.document_id, "dz");
    assert!(!storage.update_metadata("nope", VectorMetadata::minimal("n".to_string(), "d".to_string(), "c".to_string())));
    assert_eq!(storage.find(|s| s.metadata.module == "unknown").len(), 1);
    assert_eq!(storage.metadata_store().len(), 3);
}

#[test]
fn storage_metadata_store_mut_edits_records() {
    let mut storage: VectorStorage<u32> = VectorStorage::new();
    storage.insert("v1".to_string(), vec![1], VectorMetadata::minimal("v1".to_string(), "d".to_string(), "c".to_string()));
    if let Some(m) = storage.metadata_store_mut().get_mut("v1") {
        m.title = "edited".to_string();
    }
    assert_eq!(storage.metadata_store().get("v1").map(|m| m.title.as_str()), Some("edited"));
}

#[test]
fn cache_enabled_flag_toggles() {
    let mut cache: EmbeddingCache<u32> = EmbeddingCache::new();
    assert!(cache.is_enabled());
    cache.set_enabled(false);
    assert!(!cache.is_enabled());
    assert!(!EmbeddingCache::<u32>::disabled().is_enabled());
}
