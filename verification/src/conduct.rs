//! How a search treats boards, moves and lines.
use crate::algorithm::Algorithm;
use crate::bits::count_bits;
use crate::board::checkers_of;
use crate::board::moves_of;
use crate::board::side_of;
use crate::board::text_after;
use crate::board::Action;
use crate::board::ChessMove;
use crate::board::Color;
use crate::clock::answers;
use crate::clock::expired;
use crate::clock::Clock;
use crate::clock::Reading;
use crate::deepening::Decision;
use crate::effort::lemma_progress;
use crate::evaluation::pawn_shape;
use crate::evaluation::placement_of;
use crate::evaluation::table_sum;
use crate::evaluation::Weights;
use crate::laws::law_search_answers;
use crate::memory::MemoryView;
use crate::minimax::best_of_first;
use crate::minimax::carried_times;
use crate::minimax::law_minimax_is_best;
use crate::minimax::lemma_below;
use crate::minimax::lemma_worse;
use crate::minimax::minimax;
use crate::minimax::minimax_action;
use crate::minimax::worse;
use crate::modules::enabled;
use crate::modules::ALPHA_BETA;
use crate::modules::ANALYZE;
use crate::modules::NAIVE_PSQT;
use crate::modules::PAWN_STRUCTURE;
use crate::modules::SEARCH_EXTENSIONS;
use crate::modules::SKIP_BAD_MOVES;
use crate::modules::SQUARE_CONTROL_METRIC;
use crate::modules::TAPERED_EVERY_PESTO_PSQT;
use crate::modules::TAPERED_INCREMENTAL_PESTO_PSQT;
use crate::modules::TRANSPOSITION_TABLE;
use crate::move_order::goes_before;
use crate::move_order::law_order_is_sorted;
use crate::move_order::law_order_is_stable;
use crate::move_order::law_order_keeps_candidates;
use crate::move_order::tied;
use crate::move_order::CandidateView;
use crate::outcome::blank_stats;
use crate::outcome::Analysis;
use crate::outcome::Evaluation;
use crate::outcome::Stats;
use crate::outcome::TranspositionEntry;
use crate::score::Fixed;
use crate::score::Score;
use crate::search::child;
use crate::search::explored;
use crate::search::generated;
use crate::search::leaf_memo;
use crate::search::leaf_naive_memos;
use crate::search::leaf_score;
use crate::search::line_after;
use crate::search::looked_at;
use crate::search::maximises;
use crate::search::nothing_known;
use crate::search::queue;
use crate::search::reach;
use crate::search::searched;
use crate::search::share_searched;
use crate::search::visited;
use crate::search::Line;
use crate::search::Node;
use crate::search::Setup;
use crate::search::World;
use tokio::time::Instant;
use vstd::arithmetic::div_mod::lemma_div_denominator;
use vstd::arithmetic::div_mod::lemma_div_is_ordered_by_denominator;
use vstd::arithmetic::div_mod::lemma_div_multiples_vanish;
use vstd::prelude::*;

verus! {

/// The modules are switched on and off one by one: each is a bit of its own.
pub proof fn law_modules_are_independent(modules: u32, bit: u32)
    requires
        bit < 10,
    ensures
        ({
            let flags = seq![
                ANALYZE,
                ALPHA_BETA,
                TRANSPOSITION_TABLE,
                SKIP_BAD_MOVES,
                SEARCH_EXTENSIONS,
                SQUARE_CONTROL_METRIC,
                NAIVE_PSQT,
                TAPERED_EVERY_PESTO_PSQT,
                TAPERED_INCREMENTAL_PESTO_PSQT,
                PAWN_STRUCTURE,
            ];
            &&& enabled(modules | flags[bit as int], flags[bit as int])
            &&& !enabled(modules & !flags[bit as int], flags[bit as int])
            &&& forall|other: int|
                0 <= other < 10 && other != bit ==> enabled(
                    modules | flags[bit as int],
                    #[trigger] flags[other],
                ) == enabled(modules, flags[other]) && enabled(
                    modules & !flags[bit as int],
                    flags[other],
                ) == enabled(modules, flags[other])
        }),
{
    let flags = seq![
        ANALYZE,
        ALPHA_BETA,
        TRANSPOSITION_TABLE,
        SKIP_BAD_MOVES,
        SEARCH_EXTENSIONS,
        SQUARE_CONTROL_METRIC,
        NAIVE_PSQT,
        TAPERED_EVERY_PESTO_PSQT,
        TAPERED_INCREMENTAL_PESTO_PSQT,
        PAWN_STRUCTURE,
    ];
    assert forall|i: int| 0 <= i < 10 implies #[trigger] flags[i] == 1u32 << (i as u32) by {
        assert(1u32 << 0u32 == 1 && 1u32 << 1u32 == 2 && 1u32 << 2u32 == 4 && 1u32 << 3u32 == 8
            && 1u32 << 4u32 == 16 && 1u32 << 5u32 == 32 && 1u32 << 6u32 == 64 && 1u32 << 7u32
            == 128 && 1u32 << 8u32 == 256 && 1u32 << 9u32 == 512) by (bit_vector);
    }
    let flag = flags[bit as int];
    assert(flag == 1u32 << bit);
    assert((modules | (1u32 << bit)) & (1u32 << bit) != 0 && (modules & !(1u32 << bit)) & (1u32
        << bit) == 0) by (bit_vector)
        requires
            bit < 10,
    ;
    assert forall|other: int| 0 <= other < 10 && other != bit implies enabled(
        modules | flag,
        #[trigger] flags[other],
    ) == enabled(modules, flags[other]) && enabled(modules & !flag, flags[other]) == enabled(
        modules,
        flags[other],
    ) by {
        let o = other as u32;
        assert(flags[other] == 1u32 << o);
        assert((modules | (1u32 << bit)) & (1u32 << o) == modules & (1u32 << o) && (modules & !(1u32
            << bit)) & (1u32 << o) == modules & (1u32 << o)) by (bit_vector)
            requires
                bit < 10,
                o < 10,
                o != bit,
        ;
    }
}

/// Forced lines are searched deeper, at the root and below it: a move that is the
/// only one, or that gives check from two squares, costs no depth, four times in
/// a line. Every other move costs one, and all do without
/// [`SEARCH_EXTENSIONS`]. The board that a move leads to is counted in the line.
pub proof fn law_forced_lines_are_extended<S: Score>(
    c: Setup<S>,
    n: Node,
    move_count: nat,
    x: CandidateView<S>,
    other: Seq<char>,
)
    requires
        n.depth > 0,
    ensures
        ({
            let next = child(c, n, move_count, x);
            let forced = move_count == 1 || count_bits(checkers_of(x.text)) >= 2;
            &&& next.text == x.text
            &&& !next.original
            &&& if enabled(c.modules, SEARCH_EXTENSIONS) && n.extensions < 4 && forced {
                next.depth == n.depth && next.extensions == n.extensions + 1
            } else {
                next.depth == n.depth - 1 && next.extensions == n.extensions
            }
            &&& (next.predicted)(x.text) == (n.predicted)(x.text).wrapping_add(1)
            &&& other != x.text ==> (next.predicted)(other) == (n.predicted)(other)
        }),
{
}

/// A board on which the game goes on is a draw where the times that it was played
/// and the times that it occurs in the line are two together, and more, counted
/// modulo 2^32. Where they are fewer they do not matter: the score is that of a
/// board that never occurred. A game that has ended is scored whatever occurred.
pub proof fn law_repetition_adds_game_and_line<S: Score>(
    c: Setup<S>,
    text: Seq<char>,
    predicted: u32,
    mg: S,
    eg: S,
)
    ensures
        ({
            let played = if c.played.contains_key(text) {
                c.played[text] as int
            } else {
                0
            };
            let never = Setup { played: Map::<Seq<char>, u32>::empty(), ..c };
            let score = leaf_score(c, text, predicted, mg, eg);
            let times = (played + predicted) % 0x1_0000_0000;
            &&& moves_of(text).len() > 0 && 2 <= times ==> score == S::of_int(0)
            &&& moves_of(text).len() > 0 && times < 2 ==> score == leaf_score(
                never,
                text,
                0,
                mg,
                eg,
            )
            &&& moves_of(text).len() == 0 && checkers_of(text) == 0 ==> score == S::of_int(0)
            &&& moves_of(text).len() == 0 && checkers_of(text) != 0 ==> score == match side_of(
                text,
            ) {
                Color::White => S::min_value(),
                Color::Black => S::max_value(),
            }
        }),
{
}

/// A node without a legal move is worth the same however deep it is to be
/// searched: nothing in stalemate, the lowest score where White is mated, the
/// highest where Black is.
pub proof fn law_ended_games_are_worth_the_same_at_every_depth<S: Score>(
    c: Setup<S>,
    w: World<S>,
    n: Node,
    limit: Option<nat>,
    alpha: S,
    beta: S,
    mg: S,
    eg: S,
)
    requires
        moves_of(n.text).len() == 0,
    ensures
        ({
            let (found, after) = searched(c, w, n, limit, alpha, beta, mg, eg);
            &&& found.next_action is None
            &&& found.debug_data is None
            &&& n.depth > 0 ==> found.incremental_psqt_eval is None && after == w
            &&& checkers_of(n.text) == 0 ==> found.eval == Some(S::of_int(0))
            &&& checkers_of(n.text) != 0 && side_of(n.text) == Color::White ==> found.eval == Some(
                S::min_value(),
            )
            &&& checkers_of(n.text) != 0 && side_of(n.text) == Color::Black ==> found.eval == Some(
                S::max_value(),
            )
        }),
{
}

/// A leaf is scored as the board at hand, counted as one leaf and, with the
/// table, remembered at depth 0; a search of it asks no clock.
pub proof fn law_leaves_are_scored<S: Score>(
    c: Setup<S>,
    w: World<S>,
    n: Node,
    limit: Option<nat>,
    alpha: S,
    beta: S,
    mg: S,
    eg: S,
)
    requires
        n.depth == 0,
    ensures
        ({
            let (found, after) = searched(c, w, n, limit, alpha, beta, mg, eg);
            let times = (n.predicted)(n.text);
            let eval = leaf_score(c, n.text, times, mg, eg);
            let leaves = w.stats.leaves_visited.wrapping_add(1);
            let entries = w.stats.transposition_table_entries.wrapping_add(1);
            let scored = World {
                pawn_memo: leaf_memo(c, w.pawn_memo, n.text, times),
                naive_memos: leaf_naive_memos(c, w.naive_memos, n.text, times),
                stats: Stats { leaves_visited: leaves, ..w.stats },
                ..w
            };
            &&& found.eval == Some(eval)
            &&& found.next_action is None
            &&& found.debug_data is None
            &&& found.incremental_psqt_eval == Some(mg.plus(eg))
            &&& if enabled(c.modules, TRANSPOSITION_TABLE) {
                after == (World {
                    table: w.table.insert(
                        n.text,
                        TranspositionEntry { depth: 0, eval, next_action: None },
                    ),
                    stats: Stats { transposition_table_entries: entries, ..scored.stats },
                    ..scored
                })
            } else {
                after == scored
            }
        }),
{
}

/// What was computed to score a board is remembered, and nothing else: what the
/// shape of its pawns is worth, and the sums of the naive tables. A game that has
/// ended, or a draw by repetition, leaves what is remembered as it was.
pub proof fn law_what_is_computed_is_remembered<S: Score>(
    c: Setup<S>,
    w: World<S>,
    text: Seq<char>,
    predicted: u32,
)
    ensures
        ({
            let p = placement_of(text);
            let own = match p.side {
                Color::White => p.white,
                Color::Black => p.black,
            };
            let played = if c.played.contains_key(text) {
                c.played[text] as int
            } else {
                0
            };
            let summed = moves_of(text).len() > 0 && (played + predicted) % 0x1_0000_0000 < 2;
            let shapes = leaf_memo(c, w.pawn_memo, text, predicted);
            let sums = leaf_naive_memos(c, w.naive_memos, text, predicted);
            &&& if summed && enabled(c.modules, PAWN_STRUCTURE) {
                shapes == w.pawn_memo.insert(p.pawns & own, pawn_shape(p.pawns & own))
            } else {
                shapes == w.pawn_memo
            }
            &&& if summed && enabled(c.modules, NAIVE_PSQT) {
                &&& sums.pawns == with_entry(
                    w.naive_memos.pawns,
                    c.weights.naive_pawn@,
                    p.pawns & own,
                )
                &&& sums.knights == with_entry(
                    w.naive_memos.knights,
                    c.weights.naive_knight@,
                    p.knights & own,
                )
                &&& sums.bishops == with_entry(
                    w.naive_memos.bishops,
                    c.weights.naive_bishop@,
                    p.bishops & own,
                )
                &&& sums.rooks == with_entry(
                    w.naive_memos.rooks,
                    c.weights.naive_rook@,
                    p.rooks & own,
                )
                &&& sums.queens == with_entry(
                    w.naive_memos.queens,
                    c.weights.naive_queen@,
                    p.queens & own,
                )
                &&& sums.kings == with_entry(
                    w.naive_memos.kings,
                    c.weights.naive_king@,
                    p.kings & own,
                )
            } else {
                sums == w.naive_memos
            }
        }),
{
}

/// Remembered sums of a table with that of some squares.
pub open spec fn with_entry<S: Score>(memo: Map<u64, S>, table: Seq<S>, squares: u64) -> Map<
    u64,
    S,
> {
    memo.insert(squares, table_sum(table, squares, 64))
}

/// What is known of a board and not searched at least as deep as the node is to
/// be searched is not used: the move is answered as if nothing were known, by
/// searching the board that it leads to.
pub proof fn law_shallow_entries_are_not_used<S: Score>(
    c: Setup<S>,
    w: World<S>,
    n: Node,
    limit: Option<nat>,
    moves: Seq<CandidateView<S>>,
    i: nat,
    line: Line<S>,
)
    requires
        n.depth > 0,
        i < moves.len(),
        match moves[i as int].entry {
            None => true,
            Some(entry) => entry.depth < n.depth,
        },
    ensures
        ({
            let forgotten = CandidateView { entry: None, ..moves[i as int] };
            &&& looked_at(c, w, n, limit, moves, i, line) == looked_at(
                c,
                w,
                n,
                limit,
                moves.update(i as int, forgotten),
                i,
                line,
            )
            &&& looked_at(c, w, n, limit, moves, i, line) == searched(
                c,
                started(w, n),
                child(c, n, moves.len(), moves[i as int]),
                limit,
                line.alpha,
                line.beta,
                line.mg,
                line.eg,
            )
        }),
{
}

/// What a search leaves behind when it begins with a move of a node: the clock
/// was asked, and the largest depth is at least that of the node.
pub open spec fn started<S>(w: World<S>, n: Node) -> World<S> {
    World {
        asked: w.asked + 1,
        stats: Stats {
            max_depth: if w.stats.max_depth < n.depth {
                n.depth
            } else {
                w.stats.max_depth
            },
            ..w.stats
        },
        ..w
    }
}

/// What is known of a board that was searched at least as deep as the node is to
/// be searched answers the move: its score is taken, nothing is searched, and
/// nothing is changed but that the use is counted.
pub proof fn law_deep_entries_are_used<S: Score>(
    c: Setup<S>,
    w: World<S>,
    n: Node,
    limit: Option<nat>,
    moves: Seq<CandidateView<S>>,
    i: nat,
    line: Line<S>,
)
    requires
        n.depth > 0,
        i < moves.len(),
        moves[i as int].entry is Some,
        moves[i as int].entry->Some_0.depth >= n.depth,
    ensures
        ({
            let entry = moves[i as int].entry->Some_0;
            let (found, after) = looked_at(c, w, n, limit, moves, i, line);
            let before = started(w, n);
            &&& found.eval == Some(entry.eval)
            &&& found.next_action == entry.next_action
            &&& found.debug_data is None
            &&& after == (World {
                stats: Stats {
                    transposition_table_accesses:
                        before.stats.transposition_table_accesses.wrapping_add(1),
                    ..before.stats
                },
                ..before
            })
        }),
{
}

/// The legal moves are looked at once each, with what the table, where it is in
/// use, knows of the boards that they lead to; those with high scores first where
/// White is to move, those with low scores first where Black is, a board of which
/// nothing is known counting as 0. Moves with the same score keep their order.
pub proof fn law_moves_are_looked_at_by_their_scores<S: Score>(
    c: Setup<S>,
    table: Map<Seq<char>, TranspositionEntry<S>>,
    text: Seq<char>,
    i: int,
    j: int,
    score: S,
)
    requires
        0 <= i < j < moves_of(text).len(),
    ensures
        ({
            let moves = queue(c, table, text);
            let (early, late) = (known_score(moves[i]), known_score(moves[j]));
            let all = Seq::new(
                moves_of(text).len(),
                |k: int| known_candidate(c, table, text, moves_of(text)[k]),
            );
            let same = |x: CandidateView<S>|
                !known_score(x).below(score) && !score.below(known_score(x));
            &&& moves.len() == moves_of(text).len()
            &&& side_of(text) == Color::White ==> !early.below(late)
            &&& side_of(text) == Color::Black ==> !late.below(early)
            &&& moves.to_multiset() == all.to_multiset()
            &&& moves.filter(same) == all.filter(same)
        }),
{
    let count = moves_of(text).len();
    let all = generated(c, table, text, count);
    law_order_is_sorted(maximises(text), all);
    law_order_keeps_candidates(maximises(text), all);
    assert(all =~= Seq::new(
        count,
        |k: int| known_candidate(c, table, text, moves_of(text)[k]),
    ));
    law_order_is_stable(maximises(text), all, score);
    assert((|x: CandidateView<S>| tied(score, x)) =~= (|x: CandidateView<S>|
        !known_score(x).below(score) && !score.below(known_score(x))));
    let moves = queue(c, table, text);
    assert(!goes_before(maximises(text), moves[j], moves[i]));
}

/// The score that is known of the board that a move leads to, 0 where none is.
pub open spec fn known_score<S: Score>(x: CandidateView<S>) -> S {
    match x.entry {
        Some(entry) => entry.eval,
        None => S::of_int(0),
    }
}

/// A move with the board that it leads to and what the table, where it is in
/// use, knows of that board.
pub open spec fn known_candidate<S: Score>(
    c: Setup<S>,
    table: Map<Seq<char>, TranspositionEntry<S>>,
    text: Seq<char>,
    chess_move: ChessMove,
) -> CandidateView<S> {
    let next = text_after(text, chess_move);
    CandidateView {
        chess_move,
        text: next,
        entry: if enabled(c.modules, TRANSPOSITION_TABLE) && table.contains_key(next) {
            Some(table[next])
        } else {
            None
        },
    }
}

/// How a move of a node is answered: by what is known of the board that it leads
/// to, where that was searched deep enough, else by searching it.
pub open spec fn is_answer_to<S: Score>(
    c: Setup<S>,
    n: Node,
    limit: Option<nat>,
    move_count: nat,
    x: CandidateView<S>,
    alpha: S,
    beta: S,
    sums: (S, S),
    before: World<S>,
    answer: S,
    after: World<S>,
) -> bool {
    let begun = started(before, n);
    if x.entry is Some && x.entry->Some_0.depth >= n.depth {
        &&& answer == x.entry->Some_0.eval
        &&& after == (World {
            stats: Stats {
                nodes_visited: begun.stats.nodes_visited.wrapping_add(1),
                transposition_table_accesses: begun.stats.transposition_table_accesses.wrapping_add(
                    1,
                ),
                ..begun.stats
            },
            ..begun
        })
    } else {
        let (found, left) = searched(
            c,
            begun,
            child(c, n, move_count, x),
            limit,
            alpha,
            beta,
            sums.0,
            sums.1,
        );
        &&& found.eval == Some(answer)
        &&& after == (World {
            stats: Stats {
                nodes_visited: left.stats.nodes_visited.wrapping_add(1),
                ..left.stats
            },
            ..left
        })
    }
}

/// Whether no answer of the first `i` is better for a side than the `k`th, and
/// none before it is as good.
pub open spec fn is_first_best<S: Score>(side: Color, answers: Seq<S>, i: nat, k: int) -> bool {
    &&& forall|j: int|
        0 <= j < i ==> match side {
            Color::White => !answers[k].below(#[trigger] answers[j]),
            Color::Black => !answers[j].below(answers[k]),
        }
    &&& forall|j: int|
        0 <= j < k ==> match side {
            Color::White => (#[trigger] answers[j]).below(answers[k]),
            Color::Black => answers[k].below(answers[j]),
        }
}

proof fn lemma_first_best_of_prefix<S: Score>(
    side: Color,
    answers: Seq<S>,
    answer: S,
    i: nat,
    k: int,
)
    requires
        0 <= k < i <= answers.len(),
        is_first_best(side, answers, i, k),
    ensures
        is_first_best(side, answers.push(answer), i, k),
{
    let more = answers.push(answer);
    assert forall|j: int| 0 <= j < i implies match side {
        Color::White => !more[k].below(#[trigger] more[j]),
        Color::Black => !more[j].below(more[k]),
    } by {
        assert(more[j] == answers[j]);
    }
    assert forall|j: int| 0 <= j < k implies match side {
        Color::White => (#[trigger] more[j]).below(more[k]),
        Color::Black => more[k].below(more[j]),
    } by {
        assert(more[j] == answers[j]);
    }
}

/// Whether a score is the best of some answers for a side, and a move the first
/// that has it.
pub open spec fn is_best_answer<S: Score>(
    side: Color,
    answers: Seq<S>,
    moves: Seq<CandidateView<S>>,
    found: Evaluation<S>,
    k: int,
) -> bool {
    &&& 0 <= k < answers.len()
    &&& found.eval == Some(answers[k])
    &&& found.next_action == Some(Action::MakeMove(moves[k].chess_move))
    &&& is_first_best(side, answers, answers.len(), k)
}

/// Whether an analysis tells how the `k`th answer became the best: what it is,
/// and which one was the best before, where there was one.
pub open spec fn tells<S: Score>(
    modules: u32,
    side: Color,
    answers: Seq<S>,
    moves: Seq<CandidateView<S>>,
    k: int,
    analysis: Analysis<S>,
) -> bool {
    &&& analysis.modules == modules
    &&& analysis.maximise == (side == Color::White)
    &&& analysis.new_best_move == moves[k].chess_move
    &&& analysis.new_best_eval == Some(answers[k])
    &&& if k == 0 {
        analysis.best_eval is None && analysis.previous_best_move is None
    } else {
        exists|j: int| #[trigger]
            was_best_before(side, answers, moves, k, j, analysis)
    }
}

/// Whether the `j`th answer was the best before the `k`th.
pub open spec fn was_best_before<S: Score>(
    side: Color,
    answers: Seq<S>,
    moves: Seq<CandidateView<S>>,
    k: int,
    j: int,
    analysis: Analysis<S>,
) -> bool {
    &&& 0 <= j < k
    &&& is_first_best(side, answers, k as nat, j)
    &&& analysis.best_eval == Some(answers[j])
    &&& analysis.previous_best_move == Some(moves[j].chess_move)
}

/// Whether the search of a node is analysed as it should be: at the root with
/// [`ANALYZE`], and not otherwise.
pub open spec fn is_told<S: Score>(
    c: Setup<S>,
    n: Node,
    answers: Seq<S>,
    moves: Seq<CandidateView<S>>,
    k: int,
    debug_data: Option<Analysis<S>>,
    conclusion: Option<(Option<S>, ChessMove)>,
) -> bool {
    if n.original && enabled(c.modules, ANALYZE) {
        &&& debug_data is Some
        &&& tells(c.modules, side_of(n.text), answers, moves, k, debug_data->Some_0)
        &&& debug_data->Some_0.conclusion == conclusion
    } else {
        debug_data is None
    }
}

/// The sums that are reported of a node when they were carried along `i` moves.
pub open spec fn told_sums<S: Score>(c: Setup<S>, n: Node, i: nat, mg: S, eg: S) -> Option<S> {
    if i == 0 {
        None
    } else {
        let sums = carried_times(c, n, i, mg, eg);
        Some(sums.0.plus(sums.1))
    }
}

/// What a node leaves behind whose moves were answered: with the table, its score
/// is remembered from depth 3 on, and a window that the answers closed is counted.
pub open spec fn left_behind<S: Score>(
    c: Setup<S>,
    n: Node,
    last: World<S>,
    found: Evaluation<S>,
    closed: bool,
) -> World<S> {
    let kept = enabled(c.modules, TRANSPOSITION_TABLE) && n.depth >= 3;
    World {
        table: if kept {
            last.table.insert(
                n.text,
                TranspositionEntry {
                    depth: n.depth,
                    eval: found.eval->Some_0,
                    next_action: found.next_action,
                },
            )
        } else {
            last.table
        },
        stats: Stats {
            alpha_beta_breaks: if closed {
                last.stats.alpha_beta_breaks.wrapping_add(1)
            } else {
                last.stats.alpha_beta_breaks
            },
            transposition_table_entries: if kept {
                last.stats.transposition_table_entries.wrapping_add(1)
            } else {
                last.stats.transposition_table_entries
            },
            ..last.stats
        },
        ..last
    }
}

/// What is found at a node whose moves were answered, and what is left behind.
pub open spec fn is_outcome_of<S: Score>(
    c: Setup<S>,
    n: Node,
    moves: Seq<CandidateView<S>>,
    alpha: S,
    beta: S,
    mg: S,
    eg: S,
    answers: Seq<S>,
    worlds: Seq<World<S>>,
    k: int,
    found: Evaluation<S>,
    after: World<S>,
) -> bool {
    let count = answers.len();
    let closed = is_closed(
        enabled(c.modules, ALPHA_BETA),
        side_of(n.text),
        alpha,
        beta,
        answers,
        count,
    );
    &&& is_best_answer(side_of(n.text), answers, moves, found, k)
    &&& is_told(
        c,
        n,
        answers,
        moves,
        k,
        found.debug_data,
        Some((Some(answers[k]), moves[k].chess_move)),
    )
    &&& found.incremental_psqt_eval == told_sums(
        c,
        n,
        if closed {
            (count - 1) as nat
        } else {
            count
        },
        mg,
        eg,
    )
    &&& after == left_behind(c, n, worlds[count as int], found, closed)
}

/// The window when some moves of a node were answered: with [`ALPHA_BETA`] White
/// is sure of the highest answer and Black of the lowest.
pub open spec fn window_after<S: Score>(
    pruning: bool,
    side: Color,
    alpha: S,
    beta: S,
    answers: Seq<S>,
    i: nat,
) -> (S, S)
    decreases i,
{
    if !pruning || i == 0 {
        (alpha, beta)
    } else {
        let (low, high) = window_after(pruning, side, alpha, beta, answers, (i - 1) as nat);
        let answer = answers[i - 1];
        match side {
            Color::White => if low.below(answer) {
                (answer, high)
            } else {
                (low, high)
            },
            Color::Black => if answer.below(high) {
                (low, answer)
            } else {
                (low, high)
            },
        }
    }
}

/// Whether nothing is left of the window when some moves were answered.
pub open spec fn is_closed<S: Score>(
    pruning: bool,
    side: Color,
    alpha: S,
    beta: S,
    answers: Seq<S>,
    i: nat,
) -> bool {
    let (low, high) = window_after(pruning, side, alpha, beta, answers, i);
    pruning && high.below(low)
}

proof fn lemma_window_of_prefix<S: Score>(
    pruning: bool,
    side: Color,
    alpha: S,
    beta: S,
    answers: Seq<S>,
    answer: S,
    i: nat,
)
    requires
        i <= answers.len(),
    ensures
        window_after(pruning, side, alpha, beta, answers.push(answer), i) == window_after(
            pruning,
            side,
            alpha,
            beta,
            answers,
            i,
        ),
    decreases i,
{
    if i > 0 {
        lemma_window_of_prefix(pruning, side, alpha, beta, answers, answer, (i - 1) as nat);
    }
}

/// Whether the first moves of a node were answered one after the other, each in
/// the window that the answers before left, on what they left behind.
pub open spec fn are_answered<S: Score>(
    c: Setup<S>,
    n: Node,
    limit: Option<nat>,
    moves: Seq<CandidateView<S>>,
    alpha: S,
    beta: S,
    mg: S,
    eg: S,
    answers: Seq<S>,
    worlds: Seq<World<S>>,
) -> bool {
    let pruning = enabled(c.modules, ALPHA_BETA);
    let side = side_of(n.text);
    &&& answers.len() <= moves.len()
    &&& worlds.len() == answers.len() + 1
    &&& forall|j: int|
        0 <= j < answers.len() ==> {
            let (low, high) = window_after(pruning, side, alpha, beta, answers, j as nat);
            is_answer_to(
                c,
                n,
                limit,
                moves.len(),
                #[trigger] moves[j],
                low,
                high,
                carried_times(c, n, j as nat, mg, eg),
                worlds[j],
                answers[j],
                worlds[j + 1],
            )
        }
    &&& forall|j: int|
        0 < j < answers.len() ==> !#[trigger] is_closed(
            pruning,
            side,
            alpha,
            beta,
            answers,
            j as nat,
        )
}

/// The legal moves of a node are answered one after the other, in the order in
/// which they are looked at, and the best answer for the side to move is found,
/// with the first move that has it. All moves are answered without
/// [`ALPHA_BETA`]; with it the node ends early if and only if the answers have
/// closed the window. At the root [`ANALYZE`] tells how the best answer was found.
/// With the table the score is remembered from depth 3 on. All this holds where
/// the deadline does not pass.
pub proof fn law_moves_are_answered_until_the_window_closes<S: Score>(
    c: Setup<S>,
    w: World<S>,
    n: Node,
    limit: Option<nat>,
    alpha: S,
    beta: S,
    mg: S,
    eg: S,
) -> (r: (Seq<S>, Seq<World<S>>, int))
    requires
        n.depth > 0,
        moves_of(n.text).len() > 0,
        !expired(limit, searched(c, w, n, limit, alpha, beta, mg, eg).1.asked),
    ensures
        ({
            let (answers, worlds, k) = r;
            let moves = queue(c, w.table, n.text);
            let (found, after) = searched(c, w, n, limit, alpha, beta, mg, eg);
            let pruning = enabled(c.modules, ALPHA_BETA);
            let count = answers.len();
            &&& 0 < count <= moves_of(n.text).len()
            &&& worlds[0] == w
            &&& are_answered(c, n, limit, moves, alpha, beta, mg, eg, answers, worlds)
            &&& count < moves_of(n.text).len() ==> is_closed(
                pruning,
                side_of(n.text),
                alpha,
                beta,
                answers,
                count,
            )
            &&& is_outcome_of(c, n, moves, alpha, beta, mg, eg, answers, worlds, k, found, after)
        }),
{
    let moves = queue(c, w.table, n.text);
    law_order_keeps_candidates(
        maximises(n.text),
        generated(c, w.table, n.text, moves_of(n.text).len()),
    );
    lemma_answers(
        c,
        w,
        n,
        limit,
        moves,
        0,
        Line { alpha, beta, mg, eg, best: nothing_known() },
        alpha,
        beta,
        mg,
        eg,
        seq![],
        seq![w],
        0,
    )
}

proof fn lemma_told<S: Score>(
    c: Setup<S>,
    n: Node,
    answers: Seq<S>,
    moves: Seq<CandidateView<S>>,
    k: int,
    before: Option<Analysis<S>>,
    after: Option<Analysis<S>>,
)
    requires
        is_told(c, n, answers, moves, k, before, None),
        before is Some <==> after is Some,
        before is Some ==> after->Some_0 == (Analysis {
            conclusion: Some((Some(answers[k]), moves[k].chess_move)),
            ..before->Some_0
        }),
    ensures
        is_told(
            c,
            n,
            answers,
            moves,
            k,
            after,
            Some((Some(answers[k]), moves[k].chess_move)),
        ),
{
    if n.original && enabled(c.modules, ANALYZE) && k != 0 {
        let side = side_of(n.text);
        let j = choose|j: int| #[trigger]
            was_best_before(side, answers, moves, k, j, before->Some_0);
        assert(was_best_before(side, answers, moves, k, j, after->Some_0));
    }
}

#[verifier::rlimit(60)]
proof fn lemma_answers<S: Score>(
    c: Setup<S>,
    w: World<S>,
    n: Node,
    limit: Option<nat>,
    moves: Seq<CandidateView<S>>,
    i: nat,
    line: Line<S>,
    alpha: S,
    beta: S,
    mg: S,
    eg: S,
    answers: Seq<S>,
    worlds: Seq<World<S>>,
    k: int,
) -> (r: (Seq<S>, Seq<World<S>>, int))
    requires
        n.depth > 0,
        0 < moves.len(),
        i <= moves.len(),
        answers.len() == i,
        worlds[i as int] == w,
        (line.mg, line.eg) == carried_times(c, n, i, mg, eg),
        (line.alpha, line.beta) == window_after(
            enabled(c.modules, ALPHA_BETA),
            side_of(n.text),
            alpha,
            beta,
            answers,
            i,
        ),
        i > 0 ==> !is_closed(
            enabled(c.modules, ALPHA_BETA),
            side_of(n.text),
            alpha,
            beta,
            answers,
            i,
        ),
        i == 0 ==> line.best == nothing_known::<S>(),
        i > 0 ==> is_best_answer(side_of(n.text), answers, moves, line.best, k),
        i > 0 ==> is_told(c, n, answers, moves, k, line.best.debug_data, None),
        line.best.incremental_psqt_eval == told_sums(c, n, i, mg, eg),
        are_answered(c, n, limit, moves, alpha, beta, mg, eg, answers, worlds),
        !expired(limit, explored(c, w, n, limit, moves, i, line).1.asked),
    ensures
        ({
            let (all, left, best) = r;
            let (found, after) = explored(c, w, n, limit, moves, i, line);
            let count = all.len();
            &&& 0 < count <= moves.len()
            &&& left[0] == worlds[0]
            &&& are_answered(c, n, limit, moves, alpha, beta, mg, eg, all, left)
            &&& count < moves.len() ==> is_closed(
                enabled(c.modules, ALPHA_BETA),
                side_of(n.text),
                alpha,
                beta,
                all,
                count,
            )
            &&& is_outcome_of(c, n, moves, alpha, beta, mg, eg, all, left, best, found, after)
        }),
    decreases moves.len() - i,
{
    if i == moves.len() {
        let (told, _) = explored(c, w, n, limit, moves, i, line);
        lemma_told(c, n, answers, moves, k, line.best.debug_data, told.debug_data);
        (answers, worlds, k)
    } else {
        let pruning = enabled(c.modules, ALPHA_BETA);
        let side = side_of(n.text);
        let x = moves[i as int];
        let (found, after) = looked_at(c, w, n, limit, moves, i, line);
        lemma_asked_grows(c, w, n, limit, moves, i, line);
        let begun = started(w, n);
        law_search_answers(
            c,
            begun,
            child(c, n, moves.len(), x),
            limit,
            line.alpha,
            line.beta,
            line.mg,
            line.eg,
        );
        assert(found.eval is Some);
        let answer = found.eval->Some_0;
        let (next, cut) = line_after(c, n, line, x.chess_move, found);
        let left = visited(after);
        let better = i == 0 || worse(maximises(n.text), answers[k], answer);
        let best_at = if better {
            i as int
        } else {
            k
        };
        let more = answers.push(answer);
        lemma_worse(maximises(n.text), answer, answer, answer);
        assert forall|j: int| 0 <= j < i implies match side {
            Color::White => !more[best_at].below(#[trigger] more[j]),
            Color::Black => !more[j].below(more[best_at]),
        } by {
            assert(more[j] == answers[j]);
            lemma_worse(maximises(n.text), answers[j], answers[k], answer);
        }
        assert forall|j: int| 0 <= j < best_at implies match side {
            Color::White => (#[trigger] more[j]).below(more[best_at]),
            Color::Black => more[best_at].below(more[j]),
        } by {
            assert(more[j] == answers[j]);
            lemma_worse(maximises(n.text), answers[j], answers[k], answer);
        }
        let all = worlds.push(left);
        assert forall|j: int| 0 <= j < more.len() implies ({
            let (low, high) = window_after(pruning, side, alpha, beta, more, j as nat);
            is_answer_to(
                c,
                n,
                limit,
                moves.len(),
                #[trigger] moves[j],
                low,
                high,
                carried_times(c, n, j as nat, mg, eg),
                all[j],
                more[j],
                all[j + 1],
            )
        }) by {
            lemma_window_of_prefix(pruning, side, alpha, beta, answers, answer, j as nat);
            if j < i {
                assert(all[j] == worlds[j] && all[j + 1] == worlds[j + 1] && more[j] == answers[j]);
            }
        }
        assert forall|j: int| 0 < j < more.len() implies !#[trigger] is_closed(
            pruning,
            side,
            alpha,
            beta,
            more,
            j as nat,
        ) by {
            lemma_window_of_prefix(pruning, side, alpha, beta, answers, answer, j as nat);
            assert(!is_closed(pruning, side, alpha, beta, answers, j as nat));
        }
        lemma_window_of_prefix(pruning, side, alpha, beta, answers, answer, i);
        assert(window_after(pruning, side, alpha, beta, more, i + 1) == (next.alpha, next.beta));
        assert(are_answered(c, n, limit, moves, alpha, beta, mg, eg, more, all));
        assert(is_best_answer(side, more, moves, next.best, best_at));
        assert(is_told(c, n, more, moves, best_at, next.best.debug_data, None)) by {
            if n.original && enabled(c.modules, ANALYZE) {
                let analysis = next.best.debug_data->Some_0;
                if better && i > 0 {
                    lemma_first_best_of_prefix(side, answers, answer, i, k);
                    assert(was_best_before(side, more, moves, i as int, k, analysis));
                } else if i > 0 && k > 0 {
                    let j = choose|j: int| #[trigger]
                        was_best_before(side, answers, moves, k, j, analysis);
                    lemma_first_best_of_prefix(side, answers, answer, k as nat, j);
                    assert(was_best_before(side, more, moves, k, j, analysis));
                }
            }
        }
        if cut {
            let (told, _) = explored(c, w, n, limit, moves, i, line);
            lemma_told(c, n, more, moves, best_at, next.best.debug_data, told.debug_data);
            (more, all, best_at)
        } else {
            assert(carried_times(c, n, i + 1, mg, eg) == (next.mg, next.eg));
            lemma_answers(
                c,
                left,
                n,
                limit,
                moves,
                i + 1,
                next,
                alpha,
                beta,
                mg,
                eg,
                more,
                all,
                best_at,
            )
        }
    }
}

/// The clock is asked more and more often.
proof fn lemma_asked_grows<S: Score>(
    c: Setup<S>,
    w: World<S>,
    n: Node,
    limit: Option<nat>,
    moves: Seq<CandidateView<S>>,
    i: nat,
    line: Line<S>,
)
    requires
        n.depth > 0,
        i < moves.len(),
        !expired(limit, explored(c, w, n, limit, moves, i, line).1.asked),
    ensures
        !expired(limit, w.asked),
        !expired(limit, looked_at(c, w, n, limit, moves, i, line).1.asked),
{
    let (found, after) = looked_at(c, w, n, limit, moves, i, line);
    if !expired(limit, w.asked) {
        let (next, cut) = line_after(c, n, line, moves[i as int].chess_move, found);
        if !cut {
            lemma_progress(c, visited(after), n, limit, moves, i + 1, next);
        }
    }
}

/// White looks for the highest value and Black for the lowest: the minimax value
/// of a node is the value of the move that is chosen, no move of White has a
/// higher one and no move of Black a lower one.
pub proof fn law_white_maximises_and_black_minimises<S: Score>(
    c: Setup<S>,
    n: Node,
    mg: S,
    eg: S,
    i: nat,
)
    requires
        n.depth > 0,
        i < moves_of(n.text).len(),
    ensures
        ({
            let count = moves_of(n.text).len();
            let value = minimax(c, n, mg, eg);
            let sums = carried_times(c, n, i, mg, eg);
            let x = CandidateView {
                chess_move: moves_of(n.text)[i as int],
                text: text_after(n.text, moves_of(n.text)[i as int]),
                entry: None,
            };
            let other = minimax(c, child(c, n, count, x), sums.0, sums.1);
            &&& side_of(n.text) == Color::White ==> !value.below(other)
            &&& side_of(n.text) == Color::Black ==> !other.below(value)
            &&& minimax_action(c, n, mg, eg) == Some(
                Action::MakeMove(moves_of(n.text)[i as int]),
            ) && best_of_first(c, n, count, mg, eg)->Some_0.1 == i ==> value == other
        }),
{
    law_minimax_is_best(c, n, mg, eg, i);
}

/// With [`ALPHA_BETA`] an answer that the other side will not allow ends a node:
/// the other moves are not looked at, and a break is counted. White is not
/// allowed more than the upper bound, Black not less than the lower one.
pub proof fn law_refutations_end_a_node<S: Score>(
    c: Setup<S>,
    w: World<S>,
    n: Node,
    limit: Option<nat>,
    moves: Seq<CandidateView<S>>,
    i: nat,
    line: Line<S>,
)
    requires
        enabled(c.modules, ALPHA_BETA),
        n.depth > 0,
        i < moves.len(),
        !expired(limit, w.asked),
        !line.beta.below(line.alpha),
    ensures
        ({
            let (found, after) = looked_at(c, w, n, limit, moves, i, line);
            let (best, left) = explored(c, w, n, limit, moves, i, line);
            let refuted = match found.eval {
                None => false,
                Some(eval) => match side_of(n.text) {
                    Color::White => line.beta.below(eval),
                    Color::Black => eval.below(line.alpha),
                },
            };
            refuted ==> {
                &&& left.asked == after.asked
                &&& left.stats.leaves_visited == after.stats.leaves_visited
                &&& left.stats.nodes_visited == after.stats.nodes_visited.wrapping_add(1)
                &&& left.stats.alpha_beta_breaks == after.stats.alpha_beta_breaks.wrapping_add(1)
            }
        }),
{
    let (found, after) = looked_at(c, w, n, limit, moves, i, line);
    if found.eval is Some {
        let eval = found.eval->Some_0;
        lemma_below(line.alpha, line.beta, eval);
        lemma_below(eval, line.beta, line.alpha);
        lemma_below(line.beta, line.alpha, eval);
        lemma_below(eval, line.alpha, line.beta);
        lemma_below(line.beta, eval, line.alpha);
    }
}

/// A deadline that has passed stops a node, at the root and below it, before its
/// next move: what was found so far is given back, and nothing changes but that
/// the clock was asked and the share of the moves that was searched.
pub proof fn law_a_passed_deadline_stops_a_node<S: Score>(
    c: Setup<S>,
    w: World<S>,
    n: Node,
    first: nat,
    moves: Seq<CandidateView<S>>,
    i: nat,
    line: Line<S>,
)
    requires
        n.depth > 0,
        i < moves.len(),
        first <= w.asked,
    ensures
        explored(c, w, n, Some(first), moves, i, line) == (
            line.best,
            World {
                asked: w.asked + 1,
                stats: Stats {
                    progress_on_next_layer: share_searched(
                        w.stats.progress_on_next_layer,
                        i,
                        moves.len(),
                    ),
                    ..w.stats
                },
                ..w
            },
        ),
{
}

/// A move that was not answered, because the deadline passed, changes nothing that
/// is known of the node: the next move is looked at, or the search is stopped,
/// with the same best move, score and window.
pub proof fn law_moves_without_an_answer_do_not_count<S: Score>(
    c: Setup<S>,
    w: World<S>,
    n: Node,
    limit: Option<nat>,
    moves: Seq<CandidateView<S>>,
    i: nat,
    line: Line<S>,
)
    requires
        n.depth > 0,
        i < moves.len(),
        !expired(limit, w.asked),
        looked_at(c, w, n, limit, moves, i, line).0.eval is None,
        enabled(c.modules, ALPHA_BETA) ==> !line.beta.below(line.alpha),
    ensures
        ({
            let left = looked_at(c, w, n, limit, moves, i, line).1;
            let sums = carried_times(c, n, 1, line.mg, line.eg);
            let next = Line {
                alpha: line.alpha,
                beta: line.beta,
                mg: sums.0,
                eg: sums.1,
                best: Evaluation {
                    eval: line.best.eval,
                    next_action: line.best.next_action,
                    debug_data: line.best.debug_data,
                    incremental_psqt_eval: Some(sums.0.plus(sums.1)),
                },
            };
            let counted = World {
                stats: Stats {
                    nodes_visited: left.stats.nodes_visited.wrapping_add(1),
                    ..left.stats
                },
                ..left
            };
            explored(c, w, n, limit, moves, i, line) == explored(
                c,
                counted,
                n,
                limit,
                moves,
                i + 1,
                next,
            )
        }),
{
    reveal_with_fuel(carried_times, 2);
}

/// What is known of a node when a move was answered that is better than what was
/// known, or not: the better move is kept, with how it was found where that is to
/// be told.
pub open spec fn kept<S: Score>(
    c: Setup<S>,
    n: Node,
    best: Evaluation<S>,
    chess_move: ChessMove,
    answer: S,
) -> Evaluation<S> {
    let better = match best.eval {
        None => true,
        Some(eval) => match side_of(n.text) {
            Color::White => eval.below(answer),
            Color::Black => answer.below(eval),
        },
    };
    if !better {
        best
    } else {
        Evaluation {
            eval: Some(answer),
            next_action: Some(Action::MakeMove(chess_move)),
            debug_data: if n.original && enabled(c.modules, ANALYZE) {
                Some(
                    Analysis {
                        modules: c.modules,
                        maximise: side_of(n.text) == Color::White,
                        best_eval: best.eval,
                        new_best_move: chess_move,
                        new_best_eval: Some(answer),
                        previous_best_move: match best.next_action {
                            Some(Action::MakeMove(previous)) => Some(previous),
                            _ => None,
                        },
                        conclusion: None,
                    },
                )
            } else {
                best.debug_data
            },
            incremental_psqt_eval: best.incremental_psqt_eval,
        }
    }
}

/// A move that was answered counts, even if the deadline passed meanwhile: the
/// better answer is kept, the window is narrowed by it, and the node ends if
/// nothing is left of the window; else the next move is looked at, or the search
/// is stopped before it.
pub proof fn law_every_answer_counts<S: Score>(
    c: Setup<S>,
    w: World<S>,
    n: Node,
    limit: Option<nat>,
    moves: Seq<CandidateView<S>>,
    i: nat,
    line: Line<S>,
)
    requires
        n.depth > 0,
        i < moves.len(),
        !expired(limit, w.asked),
        looked_at(c, w, n, limit, moves, i, line).0.eval is Some,
    ensures
        ({
            let (found, left) = looked_at(c, w, n, limit, moves, i, line);
            let answer = found.eval->Some_0;
            let pruning = enabled(c.modules, ALPHA_BETA);
            let (low, high) = window_after(
                pruning,
                side_of(n.text),
                line.alpha,
                line.beta,
                seq![answer],
                1,
            );
            let best = kept(c, n, line.best, moves[i as int].chess_move, answer);
            let sums = carried_times(c, n, 1, line.mg, line.eg);
            let counted = World {
                stats: Stats {
                    nodes_visited: left.stats.nodes_visited.wrapping_add(1),
                    ..left.stats
                },
                ..left
            };
            let (result, after) = explored(c, w, n, limit, moves, i, line);
            if pruning && high.below(low) {
                &&& result.eval == best.eval
                &&& result.next_action == best.next_action
                &&& after == left_behind(c, n, counted, best, true)
            } else {
                let next = Line {
                    alpha: low,
                    beta: high,
                    mg: sums.0,
                    eg: sums.1,
                    best: Evaluation { incremental_psqt_eval: Some(sums.0.plus(sums.1)), ..best },
                };
                (result, after) == explored(c, counted, n, limit, moves, i + 1, next)
            }
        }),
{
    reveal_with_fuel(carried_times, 2);
    reveal_with_fuel(window_after, 2);
}

/// Behind its last move a node ends with the best that is known of it, which from
/// depth 3 on the table remembers where there is a score.
pub proof fn law_a_node_ends_behind_its_last_move<S: Score>(
    c: Setup<S>,
    w: World<S>,
    n: Node,
    limit: Option<nat>,
    moves: Seq<CandidateView<S>>,
    line: Line<S>,
)
    ensures
        ({
            let (result, after) = explored(c, w, n, limit, moves, moves.len(), line);
            let remembers = enabled(c.modules, TRANSPOSITION_TABLE) && n.depth >= 3;
            &&& result.eval == line.best.eval
            &&& result.next_action == line.best.next_action
            &&& result.incremental_psqt_eval == line.best.incremental_psqt_eval
            &&& line.best.eval is Some ==> after == left_behind(c, n, w, line.best, false)
            &&& line.best.eval is None ==> after.table == w.table && after.asked == w.asked
                && after.pawn_memo == w.pawn_memo && after.naive_memos == w.naive_memos
            &&& !remembers ==> after == w
        }),
{
}

/// The share of a layer that was searched is that of the moves that were looked
/// at to their end, and of the share that was searched of the move at hand: of
/// `n` moves each counts for an `n`th, rounded down to whole steps.
pub proof fn law_shares_add_up(below: Fixed, i: nat, n: nat)
    requires
        0 <= below.steps <= 78000,
        i <= n,
        0 < n <= 0x1_0000,
    ensures
        share_searched(below, i, n).steps == (below.steps * (78000int / n as int)) / 78000 + (if i
            == 0 {
            0
        } else {
            (i - 1) * 78000
        }) / n as int,
{
    let done = if i == 0 {
        0
    } else {
        i - 1
    };
    let part = 78000int / n as int;
    lemma_div_denominator(6084000000, 78000, n as int);
    lemma_div_denominator(done * 78000 * 78000, 78000, n as int);
    lemma_div_multiples_vanish(78000, 78000);
    lemma_div_multiples_vanish(done * 78000, 78000);
    assert(78000 * (done * 78000) == done * 78000 * 78000);
    lemma_div_is_ordered_by_denominator(78000, 1, n as int);
    lemma_div_is_ordered_by_denominator(done * 78000, 1, n as int);
    let b = below.steps as int;
    assert(0 <= b * part <= 78000 * 78000) by (nonlinear_arith)
        requires
            0 <= b <= 78000,
            0 <= part <= 78000,
    ;
    let one = Fixed::of_int(1).over(Fixed::of_int(n as i64));
    assert(one.steps == part);
    assert(below.times(one).steps == (b * part) / 78000);
    assert(Fixed::of_int(done as i64).over(Fixed::of_int(n as i64)).steps == (done * 78000)
        / n as int);
}

/// A search starts from what the engine remembers, its settings and the boards
/// that were played.
pub proof fn law_searches_start_from_what_is_remembered<S: Score>(
    engine: Algorithm<S>,
    stats: Stats<S>,
    asked: nat,
)
    ensures
        engine.setup().modules == engine.modules,
        engine.setup().weights == engine.memory@.weights,
        engine.setup().played == engine.memory@.played,
        engine.world(stats, asked).table == engine.memory@.table,
        engine.world(stats, asked).pawn_memo == engine.memory@.pawn_memo,
        engine.world(stats, asked).naive_memos == engine.memory@.naive_memos,
        engine.world(stats, asked).asked == asked,
        engine.world(stats, asked).stats == (Stats { time_for_transposition_access: 0, ..stats }),
{
}

/// What an engine returns and keeps is what was decided, down to every counter
/// but the time that was measured.
pub proof fn law_decisions_are_returned_and_kept<S: Score>(
    engine: Algorithm<S>,
    r: (Action, Option<Analysis<S>>, Stats<S>),
    clock: Clock,
    decision: Decision<S>,
)
    requires
        engine.has_decided(r, clock, decision),
    ensures
        r.0 == decision.action,
        r.1 == decision.analysis,
        r.2.leaves_visited == decision.stats.leaves_visited,
        r.2.nodes_visited == decision.stats.nodes_visited,
        r.2.alpha_beta_breaks == decision.stats.alpha_beta_breaks,
        r.2.transposition_table_entries == decision.stats.transposition_table_entries,
        r.2.transposition_table_accesses == decision.stats.transposition_table_accesses,
        r.2.max_depth == decision.stats.max_depth,
        r.2.depth == decision.stats.depth,
        r.2.progress_on_next_layer == decision.stats.progress_on_next_layer,
        r.2.tt_size == decision.stats.tt_size,
        engine.memory@.played == decision.played,
        engine.memory@.table == decision.world.table,
        engine.memory@.pawn_memo == decision.world.pawn_memo,
        engine.memory@.naive_memos == decision.world.naive_memos,
        clock.asked() == decision.world.asked,
{
    let world = engine.world(blank_stats(), clock.asked());
    assert(world.table == decision.world.table);
    assert(r.2.timeless() == decision.stats);
}

/// An engine that is new or was reset knows its weights and nothing else.
pub proof fn law_a_blank_memory_is_empty<S: Score>(
    weights: Weights<S>,
    text: Seq<char>,
    bits: u64,
)
    ensures
        ({
            let memory = MemoryView::blank(weights);
            &&& memory.weights == weights
            &&& !memory.table.contains_key(text)
            &&& !memory.played.contains_key(text)
            &&& !memory.pawn_memo.contains_key(bits)
            &&& !memory.naive_memos.pawns.contains_key(bits)
            &&& !memory.naive_memos.knights.contains_key(bits)
            &&& !memory.naive_memos.bishops.contains_key(bits)
            &&& !memory.naive_memos.rooks.contains_key(bits)
            &&& !memory.naive_memos.queens.contains_key(bits)
            &&& !memory.naive_memos.kings.contains_key(bits)
        }),
{
}

/// The answer of a clock is that of a reading of its own deadline.
pub proof fn law_answers_are_readings(
    reading: Option<Reading>,
    deadline: Option<Instant>,
    answer: bool,
)
    ensures
        answers(reading, deadline, answer) <==> exists|taken: Reading|
            reading == Some(taken) && deadline == Some(#[trigger] taken.of()) && taken.says_passed()
                == answer,
{
}

/// A search can make as many moves as its depth, and with [`SEARCH_EXTENSIONS`]
/// one more for each of four extensions that is left.
pub proof fn law_extensions_lengthen_the_reach(modules: u32, depth: u32, extensions: u32)
    ensures
        reach(modules, depth, extensions) == depth + if !enabled(modules, SEARCH_EXTENSIONS)
            || extensions >= 4 {
            0
        } else {
            4 - extensions
        },
{
}

} // verus!
