//! The parts of the engine that can be switched on and off, each by a bit.
use vstd::prelude::*;

verus! {

/// Report how the best move at the root was found.
pub const ANALYZE: u32 = 1;

/// Leave out lines that cannot change the outcome.
pub const ALPHA_BETA: u32 = 2;

/// Remember the scores of boards and order moves by them.
pub const TRANSPOSITION_TABLE: u32 = 4;

/// Leave out the moves that were ordered last.
pub const SKIP_BAD_MOVES: u32 = 8;

/// Search forced lines deeper.
pub const SEARCH_EXTENSIONS: u32 = 16;

/// Score the number of legal moves.
pub const SQUARE_CONTROL_METRIC: u32 = 32;

/// Score the squares of the pieces by one table for each kind.
pub const NAIVE_PSQT: u32 = 64;

/// Score the squares of the pieces by a middlegame and an endgame table for each
/// kind, weighted by the material left.
pub const TAPERED_EVERY_PESTO_PSQT: u32 = 128;

/// Like [`TAPERED_EVERY_PESTO_PSQT`], carried along the line that is searched.
pub const TAPERED_INCREMENTAL_PESTO_PSQT: u32 = 256;

/// Score how the pawns stand.
pub const PAWN_STRUCTURE: u32 = 512;

/// Whether a module is among those that are switched on.
pub open spec fn enabled(modules: u32, module: u32) -> bool {
    modules & module != 0
}

/// Whether a module is among those that are switched on.
pub fn module_enabled(modules: u32, module: u32) -> (r: bool)
    ensures
        r == enabled(modules, module),
{
    modules & module != 0
}

} // verus!
