# orthos

The syntactic layer of a Russian proofreading engine, written in Verus: every
function carries a contract that the verifier proves.

- `src/text.rs` — tokenization, character offsets, lowercasing and small text helpers.
- `src/unicode.rs` — the Unicode character classes and case mappings the rest builds on.
- `src/readings.rs` — morphological readings as the syntax layer reads them
  (part of speech, case, number, gender, person, verb and adjective form), and the feature
  checks built on them.
- `src/unification.rs` — feature-by-feature unification of a modifier's
  readings with a noun's (case, number, gender): the values each side allows,
  the values both allow, and whether they conflict.
- `src/syntax/` — sentences, safe zones (quotes, parentheses), clause markers and
  boundaries, syntactic islands, relation and nominal-group candidates, numerals,
  ambiguity, clause candidates, coordination groups, punctuation slots, document
  structure, terms and abbreviations, and machine-readable diagnostic proofs;
  above them the morphosyntactic layers:
  - `constraints.rs` — the bounded disambiguation passes (preposition
    government, modifier-head agreement) and their trace;
  - `morphosyntax.rs`, `numeral_government.rs` — the morphosyntactic
    relations: attributive and subject-predicate agreement, preposition case
    government, and numeral-noun quantity government (paucal and plural
    government, simple and compound numerals);
  - `agreement.rs`, `agreement_graph.rs` — agreement checks (case, number,
    gender, person), the edges of relations, clauses and nominal groups, the
    deduplicated agreement graph and the proof of an edge;
  - `government.rs`, `government_frames.rs` — government frames from the
    preposition and numeral relations and from verb valency entries, and
    their proofs;
  - `diagnostic_ledger.rs` — the ledger of candidate diagnostics, emitted or
    suppressed by their proofs;
  - `facts.rs` — the fact store that builds every layer from the ones before it.
- `src/laws.rs` — properties that relate several functions, stated and proved.

## What the library does not hold

The readings, the preposition entries and the verb valency entries come from
the caller; the library holds no lexicon and no corpus data. Constructions and
rule contracts, which rest on corpus data, are absent. The feature checks in
`readings.rs`, the unification in `unification.rs` and the quantity check (which readings can agree, which are
complete, which noun forms a numeral class takes) are the library's own
definitions over case, number, gender and person.

Run the tests with the crate's test harness; they build the pipeline from small
fixture lexicons.
