//! What a search computes, and the decisions that it is made of.
use crate::bits::count_bits;
use crate::bits::popcnt;
use crate::board::checkers_of;
use crate::board::moves_of;
use crate::board::side_of;
use crate::board::status_of;
use crate::board::text_after;
use crate::board::Action;
use crate::board::BoardStatus;
use crate::board::ChessMove;
use crate::board::Color;
use crate::clock::expired;
use crate::counts::count_of;
use crate::counts::counted_once_more;
use crate::evaluation::carried;
use crate::evaluation::naive_psqt;
use crate::evaluation::pawn_shape;
use crate::evaluation::pawn_structure;
use crate::evaluation::placement_of;
use crate::evaluation::static_score;
use crate::evaluation::NaiveMemos;
use crate::evaluation::Placement;
use crate::evaluation::Weights;
use crate::modules::enabled;
use crate::modules::module_enabled;
use crate::modules::ALPHA_BETA;
use crate::modules::ANALYZE;
use crate::modules::NAIVE_PSQT;
use crate::modules::PAWN_STRUCTURE;
use crate::modules::SEARCH_EXTENSIONS;
use crate::modules::TAPERED_INCREMENTAL_PESTO_PSQT;
use crate::modules::TRANSPOSITION_TABLE;
use crate::move_order::ordered;
use crate::move_order::CandidateView;
use crate::outcome::Analysis;
use crate::outcome::Evaluation;
use crate::outcome::Stats;
use crate::outcome::TranspositionEntry;
use crate::score::larger;
use crate::score::max_score;
use crate::score::min_score;
use crate::score::smaller;
use crate::score::Score;
use vstd::prelude::*;

verus! {

/// What stays the same during a search.
pub struct Setup<S> {
    pub modules: u32,
    pub weights: Weights<S>,
    /// How often each board has been played.
    pub played: Map<Seq<char>, u32>,
}

/// What changes during a search.
#[verifier::ext_equal]
pub struct World<S> {
    /// What is remembered of boards.
    pub table: Map<Seq<char>, TranspositionEntry<S>>,
    /// What shapes of pawns are worth, as far as it is remembered.
    pub pawn_memo: Map<u64, S>,
    /// The sums of the naive tables that are remembered.
    pub naive_memos: NaiveMemos<S>,
    /// The statistics but for the time that was measured.
    pub stats: Stats<S>,
    /// How often the clock was asked.
    pub asked: nat,
}

/// A node of the search tree.
pub struct Node {
    pub text: Seq<char>,
    /// How many moves to look ahead.
    pub depth: u32,
    /// Whether this is the root.
    pub original: bool,
    /// How often the line was extended.
    pub extensions: u32,
    /// How often each board occurs in the line.
    pub predicted: spec_fn(Seq<char>) -> u32,
}

/// What is known when some of the moves of a node have been looked at.
pub struct Line<S> {
    pub alpha: S,
    pub beta: S,
    pub mg: S,
    pub eg: S,
    pub best: Evaluation<S>,
}

/// The score of a board on which the side to move is mated.
pub open spec fn mated_score<S: Score>(side: Color) -> S {
    match side {
        Color::White => S::min_value(),
        Color::Black => S::max_value(),
    }
}

/// The score of a board on which the side to move is mated.
pub fn score_of_mated<S: Score>(side: Color) -> (r: S)
    ensures
        r == mated_score::<S>(side),
{
    match side {
        Color::White => S::lowest(),
        Color::Black => S::highest(),
    }
}

/// The score of a board on which the side to move has no legal move, at any
/// depth: 0 in stalemate, the lowest or the highest score in checkmate.
pub open spec fn ended_score<S: Score>(text: Seq<char>) -> S {
    if checkers_of(text) == 0 {
        S::of_int(0)
    } else {
        mated_score(side_of(text))
    }
}

/// The pawns of the side to move, by which shapes of pawns are remembered.
pub open spec fn own_pawns(p: Placement) -> u64 {
    p.pawns & p.own_men()
}

/// The score of the pawn structure of the side to move.
pub open spec fn pawn_score<S: Score>(p: Placement) -> S {
    pawn_structure::<S>(own_pawns(p), p.kings & p.own_men())
}

/// Whether a board occurs for the third time, `predicted` times in the line.
pub open spec fn repeated<S>(c: Setup<S>, text: Seq<char>, predicted: u32) -> bool {
    count_of(c.played, text).wrapping_add(predicted) >= 2
}

/// The score of a board without looking ahead: 0 in stalemate and where the
/// board occurs for the third time, the lowest or the highest score in
/// checkmate, else the sum of the terms.
pub open spec fn leaf_score<S: Score>(
    c: Setup<S>,
    text: Seq<char>,
    predicted: u32,
    mg: S,
    eg: S,
) -> S {
    let p = placement_of(text);
    match status_of(text) {
        BoardStatus::Stalemate => S::of_int(0),
        BoardStatus::Checkmate => mated_score(side_of(text)),
        BoardStatus::Ongoing => if repeated(c, text, predicted) {
            S::of_int(0)
        } else {
            static_score(
                c.weights,
                c.modules,
                p,
                moves_of(text).len() as usize,
                if enabled(c.modules, NAIVE_PSQT) {
                    naive_psqt(c.weights, p)
                } else {
                    S::of_int(0)
                },
                if enabled(c.modules, PAWN_STRUCTURE) {
                    pawn_score(p)
                } else {
                    S::of_int(0)
                },
                mg,
                eg,
            )
        },
    }
}

/// Whether scoring a board comes to the sum of the terms.
pub open spec fn terms_are_summed<S>(c: Setup<S>, text: Seq<char>, predicted: u32) -> bool {
    status_of(text) == BoardStatus::Ongoing && !repeated(c, text, predicted)
}

/// The shapes of pawns that are remembered after a board was scored.
pub open spec fn leaf_memo<S: Score>(
    c: Setup<S>,
    memo: Map<u64, S>,
    text: Seq<char>,
    predicted: u32,
) -> Map<u64, S> {
    let p = placement_of(text);
    if terms_are_summed(c, text, predicted) && enabled(c.modules, PAWN_STRUCTURE) {
        memo.insert(own_pawns(p), pawn_shape(own_pawns(p)))
    } else {
        memo
    }
}

/// The sums of the naive tables that are remembered after a board was scored.
pub open spec fn leaf_naive_memos<S: Score>(
    c: Setup<S>,
    memos: NaiveMemos<S>,
    text: Seq<char>,
    predicted: u32,
) -> NaiveMemos<S> {
    if terms_are_summed(c, text, predicted) && enabled(c.modules, NAIVE_PSQT) {
        memos.with(c.weights, placement_of(text))
    } else {
        memos
    }
}

/// Whether the side to move wants a high score.
pub open spec fn maximises(text: Seq<char>) -> bool {
    side_of(text) == Color::White
}

/// What is remembered of a board, where the table is in use.
pub open spec fn looked_up<S>(
    c: Setup<S>,
    table: Map<Seq<char>, TranspositionEntry<S>>,
    text: Seq<char>,
) -> Option<TranspositionEntry<S>> {
    if enabled(c.modules, TRANSPOSITION_TABLE) && table.contains_key(text) {
        Some(table[text])
    } else {
        None
    }
}

/// A legal move with what it leads to.
pub open spec fn candidate<S>(
    c: Setup<S>,
    table: Map<Seq<char>, TranspositionEntry<S>>,
    text: Seq<char>,
    chess_move: ChessMove,
) -> CandidateView<S> {
    CandidateView {
        chess_move,
        text: text_after(text, chess_move),
        entry: looked_up(c, table, text_after(text, chess_move)),
    }
}

/// The first `n` legal moves with what they lead to.
pub open spec fn generated<S>(
    c: Setup<S>,
    table: Map<Seq<char>, TranspositionEntry<S>>,
    text: Seq<char>,
    n: nat,
) -> Seq<CandidateView<S>> {
    Seq::new(n, |i: int| candidate(c, table, text, moves_of(text)[i]))
}

/// The legal moves in the order in which they are looked at.
pub open spec fn queue<S: Score>(
    c: Setup<S>,
    table: Map<Seq<char>, TranspositionEntry<S>>,
    text: Seq<char>,
) -> Seq<CandidateView<S>> {
    ordered(maximises(text), generated(c, table, text, moves_of(text).len()))
}

/// By how much a line is extended: by one where the move is the only one or
/// leads to a double check, at most four times in a line.
pub open spec fn extension(modules: u32, extensions: u32, move_count: nat, checkers: u64) -> u32 {
    if !enabled(modules, SEARCH_EXTENSIONS) || extensions > 3 {
        0
    } else if move_count == 1 || count_bits(checkers) >= 2 {
        1
    } else {
        0
    }
}

/// By how much a line is extended.
pub fn extend_by(modules: u32, num_extensions: u32, num_legal_moves: usize, checkers: u64) -> (r:
    u32)
    ensures
        r == extension(modules, num_extensions, num_legal_moves as nat, checkers),
{
    if !module_enabled(modules, SEARCH_EXTENSIONS) || num_extensions > 3 {
        0
    } else if num_legal_moves == 1 || popcnt(checkers) >= 2 {
        1
    } else {
        0
    }
}

/// Whether a score is better than the best one so far.
pub open spec fn improves<S: Score>(maximise: bool, best: Option<S>, eval: Option<S>) -> bool {
    match (best, eval) {
        (_, None) => false,
        (None, Some(_)) => true,
        (Some(best), Some(eval)) => if maximise {
            best.below(eval)
        } else {
            eval.below(best)
        },
    }
}

/// Whether a score is better than the best one so far.
pub fn is_better<S: Score>(maximise: bool, best: Option<S>, eval: Option<S>) -> (r: bool)
    ensures
        r == improves(maximise, best, eval),
{
    match (best, eval) {
        (_, None) => false,
        (None, Some(_)) => true,
        (Some(best), Some(eval)) => if maximise {
            best.less_than(eval)
        } else {
            eval.less_than(best)
        },
    }
}

/// The move that an action makes.
pub open spec fn move_of(action: Option<Action>) -> Option<ChessMove> {
    match action {
        Some(Action::MakeMove(chess_move)) => Some(chess_move),
        _ => None,
    }
}

/// The best so far after a move was looked at.
pub open spec fn best_after<S: Score>(
    modules: u32,
    maximise: bool,
    original: bool,
    best: Evaluation<S>,
    chess_move: ChessMove,
    eval: Option<S>,
) -> Evaluation<S> {
    if improves(maximise, best.eval, eval) {
        Evaluation {
            eval,
            next_action: Some(Action::MakeMove(chess_move)),
            debug_data: if original && enabled(modules, ANALYZE) {
                Some(
                    Analysis {
                        modules,
                        maximise,
                        best_eval: best.eval,
                        new_best_move: chess_move,
                        new_best_eval: eval,
                        previous_best_move: move_of(best.next_action),
                        conclusion: None,
                    },
                )
            } else {
                best.debug_data
            },
            incremental_psqt_eval: best.incremental_psqt_eval,
        }
    } else {
        best
    }
}

/// Replaces the best so far where a move is better.
pub fn replace_best<S: Score>(
    modules: u32,
    maximise: bool,
    original: bool,
    best: Evaluation<S>,
    chess_move: ChessMove,
    eval: Option<S>,
) -> (r: Evaluation<S>)
    ensures
        r == best_after(modules, maximise, original, best, chess_move, eval),
{
    if !is_better(maximise, best.eval, eval) {
        return best;
    }
    let debug_data: Option<Analysis<S>> = if original && module_enabled(modules, ANALYZE) {
        let previous_best_move: Option<ChessMove> = match best.next_action {
            Some(Action::MakeMove(previous)) => Some(previous),
            _ => None,
        };
        Some(
            Analysis {
                modules,
                maximise,
                best_eval: best.eval,
                new_best_move: chess_move,
                new_best_eval: eval,
                previous_best_move,
                conclusion: None,
            },
        )
    } else {
        best.debug_data
    };
    Evaluation {
        eval,
        next_action: Some(Action::MakeMove(chess_move)),
        debug_data,
        incremental_psqt_eval: best.incremental_psqt_eval,
    }
}

/// The window after a score was found: the side to move is sure of that score.
pub open spec fn narrowed<S: Score>(
    maximise: bool,
    alpha: S,
    beta: S,
    eval: Option<S>,
) -> (S, S) {
    match eval {
        None => (alpha, beta),
        Some(eval) => if maximise {
            (larger(alpha, eval), beta)
        } else {
            (alpha, smaller(beta, eval))
        },
    }
}

/// Narrows the window.
pub fn narrow<S: Score>(maximise: bool, alpha: S, beta: S, eval: Option<S>) -> (r: (S, S))
    ensures
        r == narrowed(maximise, alpha, beta, eval),
{
    match eval {
        None => (alpha, beta),
        Some(eval) => if maximise {
            (max_score(alpha, eval), beta)
        } else {
            (alpha, min_score(beta, eval))
        },
    }
}

/// The share of a layer that was searched, at a node with `n` moves of which
/// `i` were begun: what the moves below report counts for one move.
pub open spec fn share_searched<S: Score>(below: S, i: nat, n: nat) -> S {
    below.times(S::of_int(1).over(S::of_int(n as i64))).plus(
        S::of_int(
            if i == 0 {
                0
            } else {
                (i - 1) as i64
            },
        ).over(S::of_int(n as i64)),
    )
}

/// The share of a layer that was searched.
pub fn progress_on_layer<S: Score>(below: S, i: usize, num_legal_moves: usize) -> (r: S)
    ensures
        r == share_searched(below, i as nat, num_legal_moves as nat),
{
    below.product(S::from_int(1).quotient(S::from_int(num_legal_moves as i64))).sum(
        S::from_int(
            if i == 0 {
                0
            } else {
                (i - 1) as i64
            },
        ).quotient(S::from_int(num_legal_moves as i64)),
    )
}

/// How the best so far is reported once the moves have been looked at.
pub open spec fn reported<S>(best: Evaluation<S>) -> Evaluation<S> {
    Evaluation {
        debug_data: match (best.debug_data, move_of(best.next_action)) {
            (Some(analysis), Some(next_move)) => Some(
                Analysis { conclusion: Some((best.eval, next_move)), ..analysis },
            ),
            _ => None,
        },
        ..best
    }
}

/// Reports the best once the moves have been looked at.
pub fn report<S: Score>(best: Evaluation<S>) -> (r: Evaluation<S>)
    ensures
        r == reported(best),
{
    let debug_data: Option<Analysis<S>> = match (best.debug_data, best.next_action) {
        (Some(analysis), Some(Action::MakeMove(next_move))) => Some(
            Analysis {
                modules: analysis.modules,
                maximise: analysis.maximise,
                best_eval: analysis.best_eval,
                new_best_move: analysis.new_best_move,
                new_best_eval: analysis.new_best_eval,
                previous_best_move: analysis.previous_best_move,
                conclusion: Some((best.eval, next_move)),
            },
        ),
        _ => None,
    };
    Evaluation {
        eval: best.eval,
        next_action: best.next_action,
        debug_data,
        incremental_psqt_eval: best.incremental_psqt_eval,
    }
}

/// What is known of a node none of whose moves has been looked at.
pub open spec fn nothing_known<S>() -> Evaluation<S> {
    Evaluation { eval: None, next_action: None, debug_data: None, incremental_psqt_eval: None }
}

/// Ends a node: from depth 3 on its score is written to the table.
pub open spec fn concluded<S: Score>(
    c: Setup<S>,
    w: World<S>,
    n: Node,
    best: Evaluation<S>,
) -> (Evaluation<S>, World<S>) {
    if enabled(c.modules, TRANSPOSITION_TABLE) && n.depth >= 3 {
        (
            reported(best),
            World {
                table: match best.eval {
                    Some(eval) => w.table.insert(
                        n.text,
                        TranspositionEntry { depth: n.depth, eval, next_action: best.next_action },
                    ),
                    None => w.table,
                },
                stats: Stats {
                    transposition_table_entries: w.stats.transposition_table_entries.wrapping_add(
                        1,
                    ),
                    ..w.stats
                },
                ..w
            },
        )
    } else {
        (reported(best), w)
    }
}

/// The node that a move leads to.
pub open spec fn child<S: Score>(c: Setup<S>, n: Node, move_count: nat, x: CandidateView<S>) -> Node {
    let further = extension(c.modules, n.extensions, move_count, checkers_of(x.text));
    Node {
        text: x.text,
        depth: (n.depth - 1 + further) as u32,
        original: false,
        extensions: (n.extensions + further) as u32,
        predicted: counted_once_more(n.predicted, x.text),
    }
}

/// How many moves a line can still take.
pub open spec fn moves_left(n: Node) -> nat {
    n.depth as nat + if n.extensions > 3 {
        0
    } else {
        (4 - n.extensions) as nat
    }
}

/// How many moves a search of a node can make at most.
pub open spec fn reach(modules: u32, depth: u32, extensions: u32) -> nat {
    if enabled(modules, SEARCH_EXTENSIONS) && extensions <= 3 {
        (depth + 4 - extensions) as nat
    } else {
        depth as nat
    }
}

/// What a search leaves behind when it has asked the clock and begins with a
/// move of a node.
pub open spec fn begun<S>(w: World<S>, n: Node) -> World<S> {
    World {
        stats: Stats {
            max_depth: if n.depth > w.stats.max_depth {
                n.depth
            } else {
                w.stats.max_depth
            },
            ..w.stats
        },
        asked: w.asked + 1,
        ..w
    }
}

/// What a search leaves behind when it has looked at a move.
pub open spec fn visited<S>(w: World<S>) -> World<S> {
    World {
        stats: Stats { nodes_visited: w.stats.nodes_visited.wrapping_add(1), ..w.stats },
        ..w
    }
}

/// Searches a node: what is found and what the search leaves behind, where the
/// deadline passes at check `limit`.
pub open spec fn searched<S: Score>(
    c: Setup<S>,
    w: World<S>,
    n: Node,
    limit: Option<nat>,
    alpha: S,
    beta: S,
    mg: S,
    eg: S,
) -> (Evaluation<S>, World<S>)
    decreases moves_left(n), 1nat, 0nat,
{
    if n.depth == 0 {
        let predicted = (n.predicted)(n.text);
        let eval = leaf_score(c, n.text, predicted, mg, eg);
        let stored = enabled(c.modules, TRANSPOSITION_TABLE);
        (
            Evaluation {
                eval: Some(eval),
                next_action: None,
                debug_data: None,
                incremental_psqt_eval: Some(mg.plus(eg)),
            },
            World {
                table: if stored {
                    w.table.insert(
                        n.text,
                        TranspositionEntry { depth: 0, eval, next_action: None },
                    )
                } else {
                    w.table
                },
                pawn_memo: leaf_memo(c, w.pawn_memo, n.text, predicted),
                naive_memos: leaf_naive_memos(c, w.naive_memos, n.text, predicted),
                stats: Stats {
                    leaves_visited: w.stats.leaves_visited.wrapping_add(1),
                    transposition_table_entries: if stored {
                        w.stats.transposition_table_entries.wrapping_add(1)
                    } else {
                        w.stats.transposition_table_entries
                    },
                    ..w.stats
                },
                ..w
            },
        )
    } else if moves_of(n.text).len() == 0 {
        (
            Evaluation {
                eval: Some(ended_score(n.text)),
                next_action: None,
                debug_data: None,
                incremental_psqt_eval: None,
            },
            w,
        )
    } else {
        explored(
            c,
            w,
            n,
            limit,
            queue(c, w.table, n.text),
            0,
            Line { alpha, beta, mg, eg, best: nothing_known() },
        )
    }
}

/// Looks at the moves of a node from the `i`th on.
pub open spec fn explored<S: Score>(
    c: Setup<S>,
    w: World<S>,
    n: Node,
    limit: Option<nat>,
    moves: Seq<CandidateView<S>>,
    i: nat,
    line: Line<S>,
) -> (Evaluation<S>, World<S>)
    decreases moves_left(n), 0nat, moves.len() - i,
{
    if i >= moves.len() || n.depth == 0 {
        concluded(c, w, n, line.best)
    } else if expired(limit, w.asked) {
        (
            line.best,
            World {
                stats: Stats {
                    progress_on_next_layer: share_searched(
                        w.stats.progress_on_next_layer,
                        i,
                        moves.len(),
                    ),
                    ..w.stats
                },
                asked: w.asked + 1,
                ..w
            },
        )
    } else {
        let (found, after) = looked_at(c, w, n, limit, moves, i, line);
        let counted = visited(after);
        let (next, cut) = line_after(c, n, line, moves[i as int].chess_move, found);
        if cut {
            concluded(
                c,
                World {
                    stats: Stats {
                        alpha_beta_breaks: counted.stats.alpha_beta_breaks.wrapping_add(1),
                        ..counted.stats
                    },
                    ..counted
                },
                n,
                next.best,
            )
        } else {
            explored(c, counted, n, limit, moves, i + 1, next)
        }
    }
}

/// Looks at one move: takes the score from the table where the board was
/// searched deep enough, else searches the node that the move leads to.
pub open spec fn looked_at<S: Score>(
    c: Setup<S>,
    w: World<S>,
    n: Node,
    limit: Option<nat>,
    moves: Seq<CandidateView<S>>,
    i: nat,
    line: Line<S>,
) -> (Evaluation<S>, World<S>)
    decreases moves_left(n), 0nat, 0nat,
{
    let x = moves[i as int];
    let begun = begun(w, n);
    if known_deep_enough(n, x) {
        (
            Evaluation {
                eval: Some(x.entry->Some_0.eval),
                next_action: x.entry->Some_0.next_action,
                debug_data: None,
                incremental_psqt_eval: Some(line.mg.plus(line.eg)),
            },
            World {
                stats: Stats {
                    transposition_table_accesses:
                        begun.stats.transposition_table_accesses.wrapping_add(1),
                    ..begun.stats
                },
                ..begun
            },
        )
    } else if n.depth == 0 {
        (nothing_known(), begun)
    } else {
        searched(
            c,
            begun,
            child(c, n, moves.len(), x),
            limit,
            line.alpha,
            line.beta,
            line.mg,
            line.eg,
        )
    }
}

/// Whether the table knows a score of the board that a move leads to that was
/// found at least as deep as the node is to be searched.
pub open spec fn known_deep_enough<S>(n: Node, x: CandidateView<S>) -> bool {
    x.entry is Some && x.entry->Some_0.depth >= n.depth
}

/// What is known after a move was looked at, and whether the other moves can be
/// left out.
pub open spec fn line_after<S: Score>(
    c: Setup<S>,
    n: Node,
    line: Line<S>,
    chess_move: ChessMove,
    found: Evaluation<S>,
) -> (Line<S>, bool) {
    let maximise = maximises(n.text);
    let best = best_after(c.modules, maximise, n.original, line.best, chess_move, found.eval);
    let (alpha, beta) = if enabled(c.modules, ALPHA_BETA) {
        narrowed(maximise, line.alpha, line.beta, found.eval)
    } else {
        (line.alpha, line.beta)
    };
    if enabled(c.modules, ALPHA_BETA) && beta.below(alpha) {
        (Line { alpha, beta, mg: line.mg, eg: line.eg, best }, true)
    } else {
        let (mg, eg) = if enabled(c.modules, TAPERED_INCREMENTAL_PESTO_PSQT) {
            carried(c.weights, placement_of(n.text), line.mg, line.eg)
        } else {
            (line.mg, line.eg)
        };
        (
            Line {
                alpha,
                beta,
                mg,
                eg,
                best: Evaluation { incremental_psqt_eval: Some(mg.plus(eg)), ..best },
            },
            false,
        )
    }
}

} // verus!
