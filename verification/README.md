# research_harness

A local document-research pipeline: ingest (PDF, Markdown, plain text) →
parse into sections → cut into chunks → index → retrieve → synthesize an
answer or report with citations.

The library under `src/` is written in Verus.  Its executable functions carry
contracts that Verus proves, except for a few small wrappers marked
`#[verifier::external_body]` (around `Path`, `String::from_utf8_lossy`,
`char::is_alphanumeric`, `String::push`, `uuid` and `chrono`), whose contracts
are trusted and follow the documentation of what they call.

- `utils/` — character classes, trimming, line and word splitting, the
  tokenizer (ASCII terms and CJK bigrams), keyword ranking and chunking.
- `parser/` — heading detection (Markdown, upper-case ASCII, numbered Chinese
  chapters) and the section tree.
- `ingest/` — media types, text extraction (from the text a PDF library
  recovered), OCR cleanup rules, PDF section refinement, chunk building.
- `index/` — hashed token-count embeddings, keyword overlap, merging entries
  by chunk id.
- `retrieval/` — resolving ranked entries to hits with citations, summary
  leads, deduplication by section.
- `llm/`, `synthesis/` — prompt framing, the mock model, reading model
  replies, answer and report text.
- `storage/`, `app.rs`, `cli.rs`, `config.rs` — workspace layout, the
  decisions of the command flows, commands and settings.

`app/` is the command-line program around the library: argument parsing,
configuration files, logging, workspace files, the PDF text extractor (whose
panics on malformed files it catches), OCR tools, floating-point ranking and
the HTTP model provider.  `tests/` exercises the library.
