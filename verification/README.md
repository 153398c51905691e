# omem_server

The verified core of a memory server for AI agents, written in Verus.

- `src/llm.rs` cleans language-model output (reasoning blocks, code fences)
  and drives JSON completions with one retry.
- `src/imports.rs` reads uploaded memory files (JSON, session transcripts,
  markdown, JSON lines) into the memories to create, and keeps the count of
  an import.
- `src/recalls.rs` decides whether a query should recall memories and
  builds and guards session-recall records.
- `src/json.rs`, `src/text.rs`, `src/error.rs`, `src/ids.rs` hold the JSON
  model, character-level text operations, errors and fresh identifiers.

`app/` holds the HTTP handlers (axum), which perform the I/O that the
library's state machines ask for, and the floating-point similarity and
confidence computations.
