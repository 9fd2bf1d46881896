# chess_search

A chess engine whose search and evaluation are verified with Verus.

The rules of the game come from the `chess` crate. The library holds the rest:
the static evaluation, the depth-limited search with alpha-beta pruning, a
transposition table and extensions, iterative deepening under a deadline, and
the rule on repetition.

- `src/board.rs`, `src/bits.rs`, `src/clock.rs`: the boundary to `chess` and
  `tokio`, each outside call behind a small function with a stated contract.
- `src/score.rs`: the numbers that boards are scored with, as a trait, and a
  fixed-point implementation.
- `src/modules.rs`, `src/evaluation.rs`: the modules of the engine, and what a
  board is worth without looking ahead.
- `src/counts.rs`, `src/outcome.rs`, `src/move_order.rs`: counts of boards,
  what a search finds, and the order in which moves are looked at.
- `src/search.rs`, `src/deepening.rs`: what a search computes and what is
  decided, as mathematical functions.
- `src/memory.rs`, `src/algorithm.rs`: what an engine knows, and the engine,
  proved to compute them.
- `src/minimax.rs`, `src/laws.rs`, `src/effort.rs`, `src/traces.rs`: what holds
  of every search: that it finds the minimax value with and without pruning, that
  decisions are sound, how much is looked at, and what each module changes.
- `app/`: scores in `f32`, and the engine on the types of the `chess` crate.
