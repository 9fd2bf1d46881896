//! Verified chess move search: a depth-limited minimax search with alpha-beta
//! pruning, a transposition table and iterative deepening, and the static
//! evaluation that it rests on.
pub mod algorithm;
pub mod bits;
pub mod board;
pub mod clock;
pub mod conduct;
pub mod counts;
pub mod deepening;
pub mod effort;
pub mod evaluation;
pub mod laws;
pub mod layers;
pub mod memory;
pub mod minimax;
pub mod modules;
pub mod move_order;
pub mod notation;
pub mod outcome;
pub mod score;
pub mod search;
pub mod traces;
pub mod worth;
