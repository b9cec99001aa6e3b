# raven_core

The core of the Raven agent runtime, written in Verus: workflow consistency
checking, the decisions of plan execution and intent analysis, and the
building blocks of the knowledge library (documents, front matter, content
hashing, tokenization, TF-IDF vocabularies, embedding caches, vector storage and
metadata filtering, hybrid retrieval and context building).

## Layout

- `src/` — the verified library. Every function carries a contract that Verus
  proves; calls into `blake3`, `chrono`, `regex` and `unicode-normalization`
  stand behind small trusted wrappers whose contracts are stated in their doc
  comments.
  - `ecc/workflow/` — workflow types, the fifteen consistency rules, the graph
    analyses behind them, the validator and engine, and the laws that relate
    the rules (`laws.rs`).
  - `executor.rs`, `intent.rs`, `error.rs` — plan execution as a state machine,
    intent analysis, errors.
  - `knowledge/` — documents and their loading, hashing, retrieval context and
    the embedding toolkit under `knowledge/embedding/`.
  - `strmap.rs`, `text.rs`, `time.rs`, `pattern.rs` — text-keyed maps, string
    helpers with exact specifications, clock readings and regular expressions.
- `tests/` — tests of the library, run against the compiled crate.
- `app/` — ordinary Rust around the library: floating-point vectors and
  scores, asynchronous embedding backends, the embedding service, file and JSON
  I/O, the event bus and the plan-running loop.
