# wordle_solver

A Wordle solver whose logic is verified with Verus.

- `src/words.rs`: letters, words and their counts.
- `src/knowledge.rs`: what is known of each letter, and how one tile of a
  result updates it.
- `src/model.rs`: the solver as mathematics: the effect of `give`, the
  scores of `search`, and when either would overflow.
- `src/solver.rs`: the solver itself (`Solver::new`, `give`, `search`).
- `src/report.rs`: the summary of a turn for the web page.
- `src/feedback.rs`: the coloured result of a guess against an answer.
- `src/benchmark.rs`: a whole game against a known answer.
- `src/input.rs`: reading a typed turn.
- `src/laws.rs`, `src/soundness.rs`: properties across operations. With
  true results the knowledge stays true of the answer and the answer stays
  possible, so a game against a word of the list never runs out of answers.
  A black copy of a letter counts as "present, not here" when another copy
  of it in the guess is green or yellow, and as "absent" when every copy is
  black.
- `app/`: the command-line program (`--benchmark` plays every word), the
  word-list file and the `wasm-bindgen` front end.

Results are strings of `b` (black), `y` (yellow) and `g` (green), one per
letter, as in `world bygyb`.
