# tree_sitter_context

Token-efficient code context from syntax trees, as a Verus-verified
library with a thin command-line program around it.

- `src/` — the library, verified by Verus: chunking a syntax tree, stable
  chunk identity and matching, budgeted bundles, invalidation (of two
  versions of a file, or of an edit stream re-parsed incrementally) and
  compaction of changed files, the repo graph (snapshots, canonical order,
  diffs, cross-file references, orientation), the canonical S-expression
  output, and the decisions of each command. Each public function states
  its result exactly in `ensures`; the laws of the library stand as public
  `proof fn`s beside the functions they speak of.
- `app/` — the `tree-sitter-context` program: argument handling, loading
  grammars, the directory walk, the store and cache files, JSON output,
  and the floating-point PageRank. It hands the library source bytes and
  grammars and prints what comes back.
- `tests/` — tests of the library on concrete values.

The calls into the standard library, `xxhash-rust`, `tree-sitter` and
`tree-sitter-tags` that the library makes are `#[verifier::external_body]`
wrappers in `src/text.rs`, `src/graph/paths.rs`, `src/graph/snapshot.rs`
and `src/parsing.rs`, each with a doc comment saying what it assumes.
Parsed trees and tags are checked by verified code before the library
reads them.
