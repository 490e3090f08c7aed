# crossmatrix

A sparse, N-dimensional, weighted cross-reference engine (a generalised House
of Quality), verified with Verus.

- `src/` — the verified library: the document model and its views, loading
  with its integrity rules, the traceability queries (trace, coverage,
  orphans, describe, slice), the decisions that precede the numeric analyses,
  source-reference staleness, the findings that take no arithmetic (stale
  references, orphans, uncovered members on required axes), the merge of the Configuration / Dimensions /
  State layers, the store layout, request idempotency and query routing, and
  `laws.rs`, the properties that relate several operations.
- `tests/` — tests of the library on concrete models.
- `app/` — the MCP server over stdio, JSON (de)serialisation, file I/O and the
  floating-point analyses (rollup, contraction, tensions, gap ranking).
