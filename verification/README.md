# marser (verified matchers)

Matcher combinators for PEG-style grammars, written in Verus and proved
against their specifications.

A matcher runs at a cursor over a token sequence and reports one of three
outcomes: a match ending at some later cursor, no match, or a
`MatcherRunError` that aborts the match in progress.

- `src/matcher.rs`: the `Matcher` trait (spec `spec_match`, exec `match_at`,
  and the proof that a match never leaves the input), and whole-input entry
  points `parse_whole_input` and `parse_str`.
- `src/matcher/input_boundary.rs`: `start_of_input`, `end_of_input`.
- `src/matcher/primitives.rs`: single tokens, token ranges, string literals,
  sequences (tuples), `()`, `AnyToken`, `negative_lookahead`, `raise_error`.
- `src/matcher/repeat.rs`: `repeat(m, bounds)`, range decoding, and the
  greedy repetition loop shared by all repetitions, with its laws.
- `src/matcher/multiple.rs`, `src/matcher/one_or_more.rs`: `many` (`m*`) and
  `one_or_more` (`m+`), with their laws.
- `app/lib.rs`: `repeat_range`, which accepts Rust range syntax (`2..5`).
- `tests/`: executable tests.
