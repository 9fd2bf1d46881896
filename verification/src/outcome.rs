//! What a search finds and what it keeps.
use crate::board::Action;
use crate::board::ChessMove;
use crate::score::Score;
use vstd::prelude::*;

verus! {

/// How the best move at the root was found last.
#[derive(Copy, Debug)]
pub struct Analysis<S> {
    /// The modules that were switched on.
    pub modules: u32,
    /// Whether the side to move wants a high score.
    pub maximise: bool,
    /// The best score before.
    pub best_eval: Option<S>,
    /// The move that is better.
    pub new_best_move: ChessMove,
    /// Its score.
    pub new_best_eval: Option<S>,
    /// The best move before.
    pub previous_best_move: Option<ChessMove>,
    /// The best score and move once all moves were looked at.
    pub conclusion: Option<(Option<S>, ChessMove)>,
}

impl<S: Copy> Clone for Analysis<S> {
    fn clone(&self) -> (r: Self)
        ensures
            r == *self,
    {
        *self
    }
}

/// What is known of a node of the search tree.
#[derive(Copy, Debug)]
pub struct Evaluation<S> {
    /// The score, `None` where no line was searched to its end.
    pub eval: Option<S>,
    /// The best action.
    pub next_action: Option<Action>,
    /// How it was found.
    pub debug_data: Option<Analysis<S>>,
    /// The sums carried along the line.
    pub incremental_psqt_eval: Option<S>,
}

impl<S: Copy> Clone for Evaluation<S> {
    fn clone(&self) -> (r: Self)
        ensures
            r == *self,
    {
        *self
    }
}

/// What is remembered of a board.
#[derive(Copy, Debug)]
pub struct TranspositionEntry<S> {
    /// How deep the board was searched.
    pub depth: u32,
    /// The score that was found.
    pub eval: S,
    /// The best action.
    pub next_action: Option<Action>,
}

impl<S: Copy> Clone for TranspositionEntry<S> {
    fn clone(&self) -> (r: Self)
        ensures
            r == *self,
    {
        *self
    }
}

/// What a search counts. Counters start again at 0 after their largest value.
#[derive(Copy, Debug)]
pub struct Stats<S> {
    /// Boards that were evaluated without looking ahead.
    pub leaves_visited: u64,
    /// Moves that were looked at.
    pub nodes_visited: u64,
    /// Nodes whose remaining moves could not change the outcome.
    pub alpha_beta_breaks: u64,
    /// Scores that were written to the table.
    pub transposition_table_entries: u64,
    /// Scores that were taken from the table.
    pub transposition_table_accesses: u64,
    /// The largest depth left at which a move was looked at.
    pub max_depth: u32,
    /// The deepest layer that was searched to its end.
    pub depth: u32,
    /// The share of the next layer that was searched.
    pub progress_on_next_layer: S,
    /// The number of boards in the table.
    pub tt_size: u32,
    /// The time spent on the table, in nanoseconds.
    pub time_for_transposition_access: u128,
}

impl<S: Copy> Clone for Stats<S> {
    fn clone(&self) -> (r: Self)
        ensures
            r == *self,
    {
        *self
    }
}

/// The statistics of a search that has not begun.
pub open spec fn blank_stats<S: Score>() -> Stats<S> {
    Stats {
        leaves_visited: 0,
        nodes_visited: 0,
        alpha_beta_breaks: 0,
        transposition_table_entries: 0,
        transposition_table_accesses: 0,
        max_depth: 0,
        depth: 0,
        progress_on_next_layer: S::of_int(0),
        tt_size: 0,
        time_for_transposition_access: 0,
    }
}

impl<S: Score> Stats<S> {
    /// The statistics but for the time that was measured.
    pub open spec fn timeless(self) -> Stats<S> {
        Stats { time_for_transposition_access: 0, ..self }
    }

    /// The statistics of a search that has not begun.
    pub fn blank() -> (r: Stats<S>)
        ensures
            r == blank_stats::<S>(),
    {
        Stats {
            leaves_visited: 0,
            nodes_visited: 0,
            alpha_beta_breaks: 0,
            transposition_table_entries: 0,
            transposition_table_accesses: 0,
            max_depth: 0,
            depth: 0,
            progress_on_next_layer: S::from_int(0),
            tt_size: 0,
            time_for_transposition_access: 0,
        }
    }
}

} // verus!
