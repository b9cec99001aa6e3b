//! Tests of the integer parts of the TF-IDF model.
use raven_core::knowledge::embedding::model::{
    document_frequencies, feature_index, fit_vocabulary, select_vocabulary, token_hash,
};
use raven_core::knowledge::embedding::tokenizer::SimpleTokenizer;
use raven_core::strmap::StrMap;

#[test]
fn token_hash_of_empty_is_seed() {
    assert_eq!(token_hash(""), 5381);
}

#[test]
fn token_hash_of_one_byte() {
    assert_eq!(token_hash("a"), 5381 * 33 + 97);
    assert_eq!(token_hash("ab"), (5381 * 33 + 97) * 33 + 98);
}

#[test]
fn token_hash_is_deterministic_and_order_sensitive() {
    assert_eq!(token_hash("learning"), token_hash("learning"));
    assert_ne!(token_hash("ab"), token_hash("ba"));
}

#[test]
fn feature_index_reduces_modulo_dimension() {
    assert_eq!(feature_index("a", 768), (5381 * 33 + 97) % 768);
    assert_eq!(feature_index("", 10), 5381 % 10);
    assert!(feature_index("machine", 128) < 128);
}

#[test]
fn document_frequencies_count_documents_not_occurrences() {
    let tokenizer = SimpleTokenizer::new();
    let docs = vec!["learning learning rocks", "deep learning", "natural language"];
    let freqs = document_frequencies(&tokenizer, &docs);
    assert_eq!(freqs.get("learning"), Some(&2));
    assert_eq!(freqs.get("rocks"), Some(&1));
    assert_eq!(freqs.get("language"), Some(&1));
    assert_eq!(freqs.get("missing"), None);
}

#[test]
fn document_frequencies_skip_stopwords() {
    let tokenizer = SimpleTokenizer::new();
    let docs = vec!["the cat", "the dog"];
    let freqs = document_frequencies(&tokenizer, &docs);
    assert_eq!(freqs.get("the"), None);
    assert_eq!(freqs.get("cat"), Some(&1));
}

fn sample_freqs() -> StrMap<usize> {
    let mut m = StrMap::new();
    m.insert("alpha".to_string(), 3);
    m.insert("beta".to_string(), 1);
    m.insert("gamma".to_string(), 5);
    m.insert("delta".to_string(), 2);
    m
}

#[test]
fn select_vocabulary_orders_by_frequency() {
    let v = select_vocabulary(&sample_freqs(), 1, 10, 10);
    let dfs: Vec<usize> = v.iter().map(|e| e.1).collect();
    assert_eq!(dfs, vec![5, 3, 2, 1]);
    assert_eq!(v[0].0, "gamma");
    assert_eq!(v[3].0, "beta");
}

#[test]
fn select_vocabulary_applies_band_and_limit() {
    let v = select_vocabulary(&sample_freqs(), 2, 4, 10);
    let keys: Vec<&str> = v.iter().map(|e| e.0.as_str()).collect();
    assert_eq!(keys, vec!["alpha", "delta"]);
    let top = select_vocabulary(&sample_freqs(), 1, 10, 2);
    let keys: Vec<&str> = top.iter().map(|e| e.0.as_str()).collect();
    assert_eq!(keys, vec!["gamma", "alpha"]);
    assert!(select_vocabulary(&sample_freqs(), 1, 10, 0).is_empty());
}

#[test]
fn fit_vocabulary_refuses_empty_corpus() {
    let tokenizer = SimpleTokenizer::new();
    let docs: Vec<&str> = Vec::new();
    assert_eq!(
        fit_vocabulary(&tokenizer, &docs, 1, 10, 100),
        Err("Cannot fit model with empty documents".to_string())
    );
}

#[test]
fn fit_vocabulary_keeps_most_common_first() {
    let tokenizer = SimpleTokenizer::new();
    let docs = vec!["machine learning is great", "deep learning is powerful", "natural language processing"];
    let v = fit_vocabulary(&tokenizer, &docs, 1, 3, 50000).unwrap();
    assert_eq!(v[0], ("learning".to_string(), 2));
    assert!(v.iter().skip(1).all(|e| e.1 == 1));
    assert!(v.iter().any(|e| e.0 == "processing"));
    assert!(!v.iter().any(|e| e.0 == "is"));
}
