# santorini_core

Move generation and rules for the board game Santorini with god powers, written in Verus.
Every generator states in its contract which turns it lists: each listed move word is a legal
turn of its god, and, with no narrowing filter, every turn the god is owed is listed.

Layout:

- `src/square.rs`, `src/bitboard.rs`: squares, adjacency and 25-square bit sets.
- `src/board.rs`, `src/game.rs`: the board, the full game state, a position builder and the
  next states reached from a position.
- `src/fen.rs`: the position string format, parsed byte by byte.
- `src/generic.rs`: move words, generator flags and scored moves.
- `src/gods/`: one file per god (its move word, its legal turns as spec functions, its generator
  and what playing a turn does), plus the shared generator helpers in `move_helpers.rs` and the
  dispatch over gods in `mod.rs`.
- `src/consistency_checker.rs`, `src/move_verifier.rs`: checks over a position's generated
  moves, and a small matcher over next states used by the tests.
- `tests/`: one file per god, plus encoding tests.
