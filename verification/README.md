# block_join

A block join answers a query over child documents with their parents. Documents
are indexed in blocks, the children first and their parent last. In each segment a
join walks the parents in ascending order and scores every one of them from the
matching children of its block.

## Layout

- `src/postings.rs`: the model of a walk over matches, and of a join of two walks.
- `src/members.rs`: sets of documents, and what is relied on of the bit set.
- `src/score.rs`: scores as formulas, and how a parent's score is made up.
- `src/scorer.rs`, `src/weight.rs`, `src/query.rs`: walks, weights and queries, as
  anyone may implement them.
- `src/block_join_scorer.rs`, `src/block_join_weight.rs`,
  `src/block_join_query.rs`: the join.
- `src/laws.rs`: what holds of every join.
- `app/`: the floating-point value of a score, and the printed forms of joins and
  score modes.

A score is kept as a formula over single-precision bit patterns: which numbers are
combined, by which operation, in which order. Only `app/` does the arithmetic.

Queries, weights and walks may fail, and need not behave the same each time. A
weight is described by the outcomes that it allows; a join allows exactly those
that follow from its two sides.
