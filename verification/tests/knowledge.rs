//! Tests of documents, chunks, context, hashing and loading.
use raven_core::error::RavenError;
use raven_core::knowledge::chunk::Chunk;
use raven_core::knowledge::context::KnowledgeContext;
use raven_core::knowledge::document::Document;
use raven_core::knowledge::errors::KnowledgeError;
use raven_core::knowledge::hash::{to_hex, Blake3HashEngine};
use raven_core::knowledge::loader::{parse_frontmatter, FileLoader};
use raven_core::knowledge::manager::reflection_document;
use raven_core::knowledge::metadata::DocumentMetadata;
use raven_core::time::Timestamp;

fn meta(title: &str) -> DocumentMetadata {
    let t = Timestamp { secs: 10, nanos: 0 };
    DocumentMetadata::new(
        title.to_string(),
        None,
        "text".to_string(),
        "general".to_string(),
        None,
        vec!["a".to_string()],
        "intermediate".to_string(),
        "1.0".to_string(),
        "local".to_string(),
        "h".to_string(),
        3,
        t,
        t,
    )
}

fn doc(id: &str, title: &str) -> Document {
    Document::new(
        id.to_string(),
        format!("docs/{}.md", id),
        title.to_string(),
        "markdown".to_string(),
        vec!["x".to_string()],
        "src".to_string(),
        meta(title),
        "body".to_string(),
    )
}

#[test]
fn document_getters_return_fields() {
    let d = doc("d1", "Title One");
    assert_eq!(d.id(), "d1");
    assert_eq!(d.path(), "docs/d1.md");
    assert_eq!(d.title(), "Title One");
    assert_eq!(d.language(), "markdown");
    assert_eq!(d.tags(), &["x".to_string()][..]);
    assert_eq!(d.source(), "src");
    assert_eq!(d.content(), "body");
    assert_eq!(d.metadata().size, 3);
}

#[test]
fn chunk_getters_return_fields() {
    let c = Chunk::new("c1".to_string(), "d1".to_string(), 4, "text".to_string(), meta("T"), "hh".to_string());
    assert_eq!(c.id(), "c1");
    assert_eq!(c.document_id(), "d1");
    assert_eq!(c.sequence(), 4);
    assert_eq!(c.content(), "text");
    assert_eq!(c.hash(), "hh");
    assert_eq!(c.metadata().title, "T");
}

#[test]
fn context_counts_and_summary() {
    let ctx = KnowledgeContext::new("rust".to_string(), vec![doc("a", "Alpha"), doc("b", "Beta")], vec![], 7);
    assert_eq!(ctx.document_count, 2);
    assert_eq!(ctx.chunk_count, 0);
    assert_eq!(ctx.summary(), "query='rust' documents=2 chunks=0 candidates=7 titles=[Alpha, Beta]");
}

#[test]
fn context_summary_without_documents() {
    let ctx = KnowledgeContext::new("q".to_string(), vec![], vec![], 0);
    assert_eq!(ctx.summary(), "query='q' documents=0 chunks=0 candidates=0 titles=[]");
}

#[test]
fn blake3_hash_of_empty_input() {
    let engine = Blake3HashEngine::new();
    assert_eq!(engine.hash(b""), "af1349b9f5f9a1a6a0404dea36dcc9499bcb25c9adc112b7cc9a93cae41f3262");
}

#[test]
fn blake3_hash_of_abc() {
    let engine = Blake3HashEngine::new();
    assert_eq!(engine.hash(b"abc"), "6437b3ac38465133ffb63b75273a8db548c558465d79db03fd359c6cd5bd9d85");
}

#[test]
fn hex_rendering() {
    assert_eq!(to_hex(&[0u8, 15, 16, 255]), "000f10ff");
}

#[test]
fn knowledge_error_texts() {
    assert_eq!(KnowledgeError::Io("x".to_string()).to_string(), "io error: x");
    assert_eq!(KnowledgeError::ValidationFailed("y".to_string()).to_string(), "validation failed: y");
    match RavenError::from_knowledge(KnowledgeError::Storage("z".to_string())) {
        RavenError::Unsupported(m) => assert_eq!(m, "storage error: z"),
        other => panic!("unexpected {:?}", other),
    }
}

#[test]
fn raven_error_texts() {
    assert_eq!(RavenError::InvalidInput("empty input".to_string()).to_string(), "invalid input: empty input");
    assert_eq!(RavenError::Executor("e".to_string()).to_string(), "executor error: e");
}

#[test]
fn frontmatter_is_parsed() {
    let (meta, body) = parse_frontmatter("---\nTitle: \"Hello\"\n\nno colon here\ntags: [a, b]\n---\nline one\nline two").unwrap();
    assert_eq!(meta.get("title").map(|s| s.as_str()), Some("Hello"));
    assert_eq!(meta.get("tags").map(|s| s.as_str()), Some("[a, b]"));
    assert_eq!(meta.len(), 2);
    assert_eq!(body, "line one\nline two");
}

#[test]
fn frontmatter_later_key_wins() {
    let (meta, body) = parse_frontmatter("---\nk: 1\nK: 2\n---\n").unwrap();
    assert_eq!(meta.get("k").map(|s| s.as_str()), Some("2"));
    assert_eq!(body, "");
}

#[test]
fn frontmatter_missing() {
    match parse_frontmatter("no front matter") {
        Err(KnowledgeError::ValidationFailed(m)) => assert_eq!(m, "document metadata frontmatter is missing"),
        _ => panic!("expected a missing-front-matter error"),
    }
    assert!(parse_frontmatter("").is_err());
}

#[test]
fn frontmatter_not_closed() {
    match parse_frontmatter("---\ntitle: x\nbody") {
        Err(KnowledgeError::ValidationFailed(m)) => assert_eq!(m, "document metadata frontmatter is not closed"),
        _ => panic!("expected an unclosed-front-matter error"),
    }
}

#[test]
fn list_values_are_split() {
    assert_eq!(FileLoader::parse_list(" [a, \"b\" , ,c] "), vec!["a", "b", "c"]);
    assert!(FileLoader::parse_list("[]").is_empty());
    assert!(FileLoader::parse_list("   ").is_empty());
    assert_eq!(FileLoader::parse_list("one"), vec!["one"]);
}

#[test]
fn language_and_title_from_path() {
    assert_eq!(FileLoader::language_from_extension("notes/a.md"), "markdown");
    assert_eq!(FileLoader::language_from_extension("a.txt"), "text");
    assert_eq!(FileLoader::language_from_extension("src/main.rs"), "rs");
    assert_eq!(FileLoader::language_from_extension("README"), "");
    assert_eq!(FileLoader::title_from_path("notes/guide.md"), "guide");
}

#[test]
fn dates_are_parsed() {
    let t = FileLoader::parse_date("2024-01-02T03:04:05Z").unwrap();
    assert_eq!(t.secs, 1704164645);
    assert_eq!(t.nanos, 0);
    assert!(FileLoader::parse_date("  ").is_ok());
    match FileLoader::parse_date("bad") {
        Err(KnowledgeError::ValidationFailed(m)) => assert!(m.starts_with("invalid last_updated value 'bad': ")),
        _ => panic!("expected a date error"),
    }
}

#[test]
fn document_is_built_from_text() {
    let now = Timestamp { secs: 100, nanos: 5 };
    let text = "---\ntitle: Guide\ntags: [rust, verus]\ntopic: proofs\n---\nBody text";
    let d = FileLoader::document_from_text("docs/guide.md", text, 42, now).unwrap();
    assert_eq!(d.id(), "docs/guide.md:42");
    assert_eq!(d.title(), "Guide");
    assert_eq!(d.language(), "markdown");
    assert_eq!(d.source(), "docs/guide.md");
    assert_eq!(d.content(), "Body text");
    assert!(d.tags().is_empty());
    let m = d.metadata();
    assert_eq!(m.tags, vec!["rust".to_string(), "verus".to_string()]);
    assert_eq!(m.topic.as_deref(), Some("proofs"));
    assert_eq!(m.category, "general");
    assert_eq!(m.version, "1.0");
    assert_eq!(m.difficulty, "intermediate");
    assert_eq!(m.hash, "docs/guide.md:42");
    assert_eq!(m.size, 42);
    assert_eq!(m.created_at, now);
    assert_eq!(m.updated_at, now);
}

#[test]
fn document_with_update_date() {
    let now = Timestamp { secs: 100, nanos: 0 };
    let text = "---\nlast_updated: 2024-01-02T03:04:05Z\n---\nx";
    let d = FileLoader::document_from_text("a.txt", text, 1, now).unwrap();
    assert_eq!(d.metadata().updated_at.secs, 1704164645);
    assert_eq!(d.title(), "a");
    assert_eq!(d.language(), "text");
}

#[test]
fn empty_document_is_refused() {
    match FileLoader::document_from_text("a.md", "  \n ", 3, Timestamp { secs: 0, nanos: 0 }) {
        Err(KnowledgeError::ValidationFailed(m)) => assert_eq!(m, "document content is empty: a.md"),
        _ => panic!("expected an empty-document error"),
    }
}

#[test]
fn bad_update_date_is_refused() {
    let text = "---\nlast_updated: yesterday\n---\nx";
    assert!(FileLoader::document_from_text("a.md", text, 1, Timestamp { secs: 0, nanos: 0 }).is_err());
}

#[test]
fn reflection_document_is_stamped_in_nanoseconds() {
    let now = Timestamp { secs: 1_700_000_000, nanos: 5 };
    let tags = vec!["idea".to_string()];
    let d = reflection_document("Note", "héllo", &tags, now);
    assert_eq!(d.id(), "store:Note:1700000000000000005");
    assert_eq!(d.path(), "");
    assert_eq!(d.title(), "Note");
    assert_eq!(d.language(), "text");
    assert_eq!(d.source(), "reflection");
    assert_eq!(d.tags(), &tags[..]);
    assert_eq!(d.content(), "héllo");
    let m = d.metadata();
    assert_eq!(m.category, "reflection");
    assert_eq!(m.source, "local");
    assert_eq!(m.difficulty, "intermediate");
    assert_eq!(m.version, "1.0");
    assert_eq!(m.hash, "store:Note:1700000000000000005");
    assert_eq!(m.size, 6);
    assert_eq!(m.created_at, now);
    assert!(m.topic.is_none() && m.description.is_none());
}

#[test]
fn reflection_stamp_before_epoch_and_out_of_range() {
    let before = Timestamp { secs: -1, nanos: 500_000_000 };
    assert_eq!(reflection_document("T", "", &Vec::new(), before).id(), "store:T:-500000000");
    let far = Timestamp { secs: 9_223_372_036, nanos: 900_000_000 };
    assert_eq!(reflection_document("T", "", &Vec::new(), far).id(), "store:T:9223372036000000000");
}
