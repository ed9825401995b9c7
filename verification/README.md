# sakur4-core

The decisions of a cache-coherent memory and context manager for local agents, written in Rust
and verified with Verus.

A session with a locally served model outgrows its window. Something has to leave it, and what
leaves decides whether the server can still reuse the prefix it has cached. This library decides
where such a cut may fall, which episodes leave the window and in which order, which summaries
are still to be believed, and what a turn has cost. Every function states what it returns in
`requires` and `ensures` clauses, and Verus proves them.

## Layout

- `src/memory/` – episodes, facts, summaries, pinned anchors, and the graph between them.
- `src/evict.rs`, `src/evict/` – the graduated eviction plan, the worth of an episode, folds.
- `src/cache/` – the coherence layer and its boundary plans.
- `src/llama/` – what inference servers can do, and what their replies mean.
- `src/recall.rs`, `src/recall/` – candidates, filters and ranking of a recall.
- `src/consolidate.rs`, `src/summary.rs` – the idle-time pass and extractive summaries.
- `src/receipt.rs`, `src/provider_cache.rs` – what a turn cost and what a cache gave back.
- `src/embed.rs` – the deterministic embedder's counts, and when to fall back to it.
- `src/prompt.rs`, `src/tokens.rs` – the prompt's parts and their size.
- `src/json.rs`, `src/lines.rs`, `src/order.rs`, `src/text.rs`, `src/ids.rs` – the ground that
  the rest stands on.
- `tests/` – behaviour on concrete values.
- `app/` – the store, the HTTP clients, the clock and everything in floating point.

## What is trusted

Calls into `blake3`, `chrono`, `serde_json` and `uuid`, and three functions of the standard
library on Unicode text, stand behind small functions marked `#[verifier::external_body]`. Two
more functions of the standard library, `String::push` and `<str as PartialEq<str>>::eq`, have
their contracts in `assume_specification` items of `src/text.rs`. The doc comments of all of
these say what is believed. Everything else in `src/` is proved.
