# claudex_bridge

The logic of a bridge between a coding client and the Responses API that keeps long conversations
small by inline compaction. When a response carries a compaction item, the item and everything
behind it stand for the conversation so far; the next request sends them in place of its input.

- `src/` is the library. Every function in it is verified by Verus against the contract in its
  header. What holds across functions stands in public proof functions whose names begin with
  `law_`; those that span requests are in `src/lineage.rs`.
- `tests/` runs the library on concrete requests, response streams, sidecars and settings.
- `app/` is ordinary Rust around the library: files, locks, semaphores, the token endpoint and the
  environment.

The library calls `serde_json`, `sha2` and `rand` through a few trusted functions, in
`src/parsing.rs`, `src/encoding.rs`, `src/digest.rs` and `src/durability.rs`, and the standard
library in `src/sse.rs`, `src/marking.rs`, `src/text.rs` and `src/config.rs`. Each says above its
header what it takes for granted.

A sidecar holds the latest compaction item, the exact items behind it, digests, a revision and the
identity of its lane. Of the output that a client saw it keeps only the type and a digest of each
item, by which the next request is recognised. Every valid state is read back as it was written.
