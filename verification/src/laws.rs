//! What holds of every search.
use crate::board::moves_of;
use crate::board::side_of;
use crate::board::status_of;
use crate::board::text_after;
use crate::board::Action;
use crate::board::BoardStatus;
use crate::board::ChessMove;
use crate::clock::expired;
use crate::counts::count_of;
use crate::counts::played_once_more;
use crate::deepening::decided;
use crate::deepening::deepened;
use crate::deepening::layer;
use crate::deepening::repetition_checked;
use crate::deepening::root;
use crate::deepening::without_move;
use crate::deepening::Layer;
use crate::deepening::LAST_DEPTH;
use crate::deepening::START_DEPTH;
use crate::modules::enabled;
use crate::modules::TRANSPOSITION_TABLE;
use crate::move_order::law_order_keeps_candidates;
use crate::move_order::CandidateView;
use crate::outcome::blank_stats;
use crate::outcome::Stats;
use crate::outcome::TranspositionEntry;
use crate::score::Score;
use crate::search::begun;
use crate::search::child;
use crate::search::explored;
use crate::search::generated;
use crate::search::known_deep_enough;
use crate::search::line_after;
use crate::search::looked_at;
use crate::search::looked_up;
use crate::search::maximises;
use crate::search::moves_left;
use crate::search::nothing_known;
use crate::search::queue;
use crate::search::searched;
use crate::search::visited;
use crate::search::Line;
use crate::search::Node;
use crate::search::Setup;
use crate::search::World;
use vstd::prelude::*;

verus! {

/// Whether an action, if there is one, makes a legal move.
pub open spec fn is_legal(text: Seq<char>, action: Option<Action>) -> bool {
    match action {
        None => true,
        Some(Action::MakeMove(chess_move)) => moves_of(text).contains(chess_move),
        Some(_) => false,
    }
}

/// The moves that are looked at are the legal ones.
proof fn lemma_queue_is_legal<S: Score>(
    c: Setup<S>,
    table: Map<Seq<char>, TranspositionEntry<S>>,
    text: Seq<char>,
)
    ensures
        queue(c, table, text).len() == moves_of(text).len(),
        forall|i: int|
            0 <= i < moves_of(text).len() ==> moves_of(text).contains(
                (#[trigger] queue(c, table, text)[i]).chess_move,
            ),
{
    broadcast use vstd::seq_lib::group_to_multiset_ensures;

    let all = generated(c, table, text, moves_of(text).len());
    let q = queue(c, table, text);
    law_order_keeps_candidates(maximises(text), all);
    assert forall|i: int| 0 <= i < moves_of(text).len() implies moves_of(text).contains(
        (#[trigger] q[i]).chess_move,
    ) by {
        assert(q.contains(q[i]));
        assert(q.to_multiset().count(q[i]) > 0);
        assert(all.contains(q[i]));
        let k = all.index_of(q[i]);
        assert(all[k].chess_move == moves_of(text)[k]);
    }
}

/// What a search finds is legal, and a search during which the deadline does
/// not pass finds a score, and an action where there is a legal move.
pub proof fn law_search_answers<S: Score>(
    c: Setup<S>,
    w: World<S>,
    n: Node,
    limit: Option<nat>,
    alpha: S,
    beta: S,
    mg: S,
    eg: S,
)
    ensures
        ({
            let (found, after) = searched(c, w, n, limit, alpha, beta, mg, eg);
            &&& after.asked >= w.asked
            &&& is_legal(n.text, found.next_action)
            &&& !expired(limit, after.asked) ==> found.eval is Some
            &&& !expired(limit, after.asked) && n.depth > 0 && moves_of(n.text).len() > 0
                ==> found.next_action is Some
            &&& moves_of(n.text).len() == 0 ==> found.next_action is None
        }),
    decreases moves_left(n), 1nat, 0nat,
{
    if n.depth > 0 && moves_of(n.text).len() > 0 {
        lemma_queue_is_legal(c, w.table, n.text);
        lemma_explored_answers(
            c,
            w,
            n,
            limit,
            queue(c, w.table, n.text),
            0,
            Line { alpha, beta, mg, eg, best: nothing_known() },
        );
    }
}

proof fn lemma_explored_answers<S: Score>(
    c: Setup<S>,
    w: World<S>,
    n: Node,
    limit: Option<nat>,
    moves: Seq<CandidateView<S>>,
    i: nat,
    line: Line<S>,
)
    requires
        n.depth > 0,
        forall|j: int|
            0 <= j < moves.len() ==> moves_of(n.text).contains((#[trigger] moves[j]).chess_move),
        is_legal(n.text, line.best.next_action),
        line.best.eval is Some ==> line.best.next_action is Some,
    ensures
        ({
            let (found, after) = explored(c, w, n, limit, moves, i, line);
            &&& after.asked >= w.asked
            &&& is_legal(n.text, found.next_action)
            &&& !expired(limit, after.asked) && (i < moves.len() || line.best.eval is Some)
                ==> found.eval is Some && found.next_action is Some
        }),
    decreases moves_left(n), 0nat, moves.len() - i,
{
    if i < moves.len() && !expired(limit, w.asked) {
        let x = moves[i as int];
        let (found, after) = looked_at(c, w, n, limit, moves, i, line);
        if !known_deep_enough(n, x) {
            let begun = begun(w, n);
            law_search_answers(
                c,
                begun,
                child(c, n, moves.len(), x),
                limit,
                line.alpha,
                line.beta,
                line.mg,
                line.eg,
            );
        }
        assert(after.asked >= w.asked);
        assert(!expired(limit, after.asked) ==> found.eval is Some);
        let counted = visited(after);
        let (next, cut) = line_after(c, n, line, x.chess_move, found);
        if !cut {
            lemma_explored_answers(c, counted, n, limit, moves, i + 1, next);
        }
    }
}

/// Whether an action makes a legal move, and is there if and only if there is a
/// legal move.
pub open spec fn is_answer(text: Seq<char>, action: Option<Action>) -> bool {
    &&& is_legal(text, action)
    &&& action is Some <==> moves_of(text).len() > 0
}

/// A layer during which the deadline does not pass finds a legal move where
/// there is one.
pub proof fn law_layer_answers<S: Score>(
    c: Setup<S>,
    w: World<S>,
    text: Seq<char>,
    depth: u32,
    limit: Option<nat>,
)
    requires
        depth > 0,
        !expired(limit, layer(c, w, text, depth, limit).1.asked),
    ensures
        is_answer(text, layer(c, w, text, depth, limit).0.action),
{
    law_search_answers(
        c,
        World { stats: blank_stats(), ..w },
        root(text, depth),
        limit,
        S::min_value(),
        S::max_value(),
        S::of_int(0),
        S::of_int(0),
    );
}

/// Deepening keeps to layers that were searched to their end: where it starts
/// from an answer it ends with one.
pub proof fn law_deepening_answers<S: Score>(
    c: Setup<S>,
    w: World<S>,
    text: Seq<char>,
    depth: u32,
    best: Layer<S>,
    limit: Option<nat>,
)
    requires
        START_DEPTH < depth <= LAST_DEPTH + 1,
        is_answer(text, best.action),
    ensures
        is_answer(text, deepened(c, w, text, depth, best, limit).0.action),
        START_DEPTH <= deepened(c, w, text, depth, best, limit).1 <= LAST_DEPTH,
    decreases LAST_DEPTH + 1 - depth,
{
    if depth <= LAST_DEPTH {
        let (latest, after) = layer(c, w, text, depth, limit);
        if !expired(limit, after.asked) {
            law_layer_answers(c, w, text, depth, limit);
            let asked = World { asked: after.asked + 1, ..after };
            law_deepening_answers(c, asked, text, (depth + 1) as u32, latest, limit);
        }
    }
}

/// A decision is sound whenever the deadline passes: a move that is made is
/// legal and leads to a board that was played less than three times, which is
/// counted; a side resigns if and only if it is mated; and a draw is declared
/// in stalemate, or where a legal move leads to a board that was played three
/// times. The depth that is reported is that of a layer.
pub proof fn law_decision_is_sound<S: Score>(
    c: Setup<S>,
    w: World<S>,
    text: Seq<char>,
    limit: Option<nat>,
)
    ensures
        ({
            let decision = decided(c, w, text, limit);
            let counted = played_once_more(c.played, text);
            &&& START_DEPTH <= decision.stats.depth <= LAST_DEPTH
            &&& match decision.action {
                Action::MakeMove(chess_move) => {
                    &&& moves_of(text).contains(chess_move)
                    &&& count_of(counted, text_after(text, chess_move)) < 3
                    &&& decision.played == played_once_more(counted, text_after(text, chess_move))
                },
                Action::Resign(side) => {
                    &&& status_of(text) == BoardStatus::Checkmate
                    &&& side == side_of(text)
                    &&& decision.played == counted
                },
                Action::DeclareDraw => {
                    ||| status_of(text) == BoardStatus::Stalemate && decision.played == counted
                    ||| exists|chess_move: ChessMove| #[trigger]
                        moves_of(text).contains(chess_move) && count_of(
                            counted,
                            text_after(text, chess_move),
                        ) >= 3 && decision.played == played_once_more(
                            counted,
                            text_after(text, chess_move),
                        )
                },
            }
            &&& status_of(text) == BoardStatus::Checkmate ==> decision.action is Resign
            &&& status_of(text) == BoardStatus::Stalemate ==> decision.action is DeclareDraw
        }),
{
    let counted = Setup { played: played_once_more(c.played, text), ..c };
    let (first, begun) = layer(counted, World { asked: 0, ..w }, text, START_DEPTH, None);
    law_layer_answers(counted, World { asked: 0, ..w }, text, START_DEPTH, None);
    law_deepening_answers(
        counted,
        World { asked: w.asked, ..begun },
        text,
        (START_DEPTH + 1) as u32,
        first,
        limit,
    );
}

/// At least the first layer is searched: where the deadline has passed from the
/// start, what is decided is what the first layer finds, which is searched
/// without a deadline.
pub proof fn law_first_layer_is_guaranteed<S: Score>(
    c: Setup<S>,
    w: World<S>,
    text: Seq<char>,
    limit: Option<nat>,
)
    requires
        expired(limit, w.asked),
    ensures
        ({
            let decision = decided(c, w, text, limit);
            let counted = Setup { played: played_once_more(c.played, text), ..c };
            let (first, _) = layer(counted, World { asked: 0, ..w }, text, START_DEPTH, None);
            let chosen = match first.action {
                Some(action) => action,
                None => without_move(text),
            };
            &&& decision.stats.depth == START_DEPTH
            &&& decision.action == repetition_checked(counted.played, text, chosen).0
            &&& decision.analysis == first.analysis
            &&& decision.stats == (Stats {
                depth: START_DEPTH,
                tt_size: decision.stats.tt_size,
                progress_on_next_layer: decision.stats.progress_on_next_layer,
                ..first.stats
            })
        }),
{
    let counted = Setup { played: played_once_more(c.played, text), ..c };
    let (first, begun) = layer(counted, World { asked: 0, ..w }, text, START_DEPTH, None);
    let second = World { asked: w.asked, ..begun };
    let depth = (START_DEPTH + 1) as u32;
    let (latest, after) = layer(counted, second, text, depth, limit);
    law_search_answers(
        counted,
        World { stats: blank_stats(), ..second },
        root(text, depth),
        limit,
        S::min_value(),
        S::max_value(),
        S::of_int(0),
        S::of_int(0),
    );
    assert(expired(limit, after.asked));
    assert(deepened(counted, second, text, depth, first, limit).0.action == first.action);
}

/// A deadline does nothing but stop a search: a search during which it does not
/// pass finds, and leaves behind, what a search without a deadline does.
pub proof fn law_deadline_only_stops<S: Score>(
    c: Setup<S>,
    w: World<S>,
    n: Node,
    limit: Option<nat>,
    alpha: S,
    beta: S,
    mg: S,
    eg: S,
)
    ensures
        ({
            let timed = searched(c, w, n, limit, alpha, beta, mg, eg);
            &&& timed.1.asked >= w.asked
            &&& !expired(limit, timed.1.asked) ==> timed == searched(
                c,
                w,
                n,
                None,
                alpha,
                beta,
                mg,
                eg,
            )
        }),
    decreases moves_left(n), 1nat, 0nat,
{
    if n.depth > 0 && moves_of(n.text).len() > 0 {
        lemma_deadline_only_stops(
            c,
            w,
            n,
            limit,
            queue(c, w.table, n.text),
            0,
            Line { alpha, beta, mg, eg, best: nothing_known() },
        );
    }
}

proof fn lemma_deadline_only_stops<S: Score>(
    c: Setup<S>,
    w: World<S>,
    n: Node,
    limit: Option<nat>,
    moves: Seq<CandidateView<S>>,
    i: nat,
    line: Line<S>,
)
    requires
        n.depth > 0,
    ensures
        ({
            let timed = explored(c, w, n, limit, moves, i, line);
            &&& timed.1.asked >= w.asked
            &&& !expired(limit, timed.1.asked) ==> timed == explored(c, w, n, None, moves, i, line)
        }),
    decreases moves_left(n), 0nat, moves.len() - i,
{
    if i < moves.len() && !expired(limit, w.asked) {
        let x = moves[i as int];
        let (found, after) = looked_at(c, w, n, limit, moves, i, line);
        let begun = begun(w, n);
        if !known_deep_enough(n, x) {
            law_deadline_only_stops(
                c,
                begun,
                child(c, n, moves.len(), x),
                limit,
                line.alpha,
                line.beta,
                line.mg,
                line.eg,
            );
        }
        assert(after.asked >= w.asked);
        assert(!expired(limit, after.asked) ==> looked_at(c, w, n, None, moves, i, line) == (
            found,
            after,
        ));
        let counted = visited(after);
        let (next, cut) = line_after(c, n, line, x.chess_move, found);
        if !cut {
            lemma_deadline_only_stops(c, counted, n, limit, moves, i + 1, next);
        }
    }
}

/// With the table in use, a search during which the deadline does not pass is
/// remembered, at the leaves and from depth 3 on: the table then gives back the
/// score, the action and the depth of the search.
pub proof fn law_search_is_remembered<S: Score>(
    c: Setup<S>,
    w: World<S>,
    n: Node,
    limit: Option<nat>,
    alpha: S,
    beta: S,
    mg: S,
    eg: S,
)
    requires
        enabled(c.modules, TRANSPOSITION_TABLE),
        n.depth == 0 || n.depth >= 3 && moves_of(n.text).len() > 0,
        !expired(limit, searched(c, w, n, limit, alpha, beta, mg, eg).1.asked),
    ensures
        ({
            let (found, after) = searched(c, w, n, limit, alpha, beta, mg, eg);
            &&& found.eval is Some
            &&& looked_up(c, after.table, n.text) == Some(
                TranspositionEntry {
                    depth: n.depth,
                    eval: found.eval->Some_0,
                    next_action: found.next_action,
                },
            )
        }),
{
    law_search_answers(c, w, n, limit, alpha, beta, mg, eg);
    if n.depth > 0 {
        lemma_remembered(
            c,
            w,
            n,
            limit,
            queue(c, w.table, n.text),
            0,
            Line { alpha, beta, mg, eg, best: nothing_known() },
        );
    }
}

proof fn lemma_remembered<S: Score>(
    c: Setup<S>,
    w: World<S>,
    n: Node,
    limit: Option<nat>,
    moves: Seq<CandidateView<S>>,
    i: nat,
    line: Line<S>,
)
    requires
        enabled(c.modules, TRANSPOSITION_TABLE),
        n.depth >= 3,
        !expired(limit, explored(c, w, n, limit, moves, i, line).1.asked),
    ensures
        ({
            let (found, after) = explored(c, w, n, limit, moves, i, line);
            found.eval is Some ==> after.table.contains_key(n.text) && after.table[n.text] == (
            TranspositionEntry {
                depth: n.depth,
                eval: found.eval->Some_0,
                next_action: found.next_action,
            })
        }),
    decreases moves.len() - i,
{
    if i < moves.len() && !expired(limit, w.asked) {
        let (found, after) = looked_at(c, w, n, limit, moves, i, line);
        let counted = visited(after);
        let (next, cut) = line_after(c, n, line, moves[i as int].chess_move, found);
        if !cut {
            lemma_remembered(c, counted, n, limit, moves, i + 1, next);
        }
    }
}

/// Lines are bounded: each move leaves fewer for the line to take, and a line
/// is extended four times at most.
pub proof fn law_lines_are_bounded<S: Score>(
    c: Setup<S>,
    n: Node,
    move_count: nat,
    x: CandidateView<S>,
)
    requires
        n.depth > 0,
        n.extensions <= 4,
    ensures
        moves_left(child(c, n, move_count, x)) < moves_left(n),
        n.extensions <= child(c, n, move_count, x).extensions <= 4,
{
}

} // verus!
