//! Which layer decides, and what it decides.
use crate::board::checkers_of;
use crate::board::moves_of;
use crate::board::side_of;
use crate::board::text_after;
use crate::board::Action;
use crate::clock::expired;
use crate::counts::count_of;
use crate::counts::counts;
use crate::deepening::decided;
use crate::deepening::deepened;
use crate::deepening::layer;
use crate::deepening::root;
use crate::deepening::Layer;
use crate::laws::law_deadline_only_stops;
use crate::laws::law_deepening_answers;
use crate::laws::law_layer_answers;
use crate::laws::law_search_answers;
use crate::move_order::CandidateView;
use crate::outcome::blank_stats;
use crate::outcome::Evaluation;
use crate::outcome::Stats;
use crate::score::Score;
use crate::search::begun;
use crate::search::child;
use crate::search::explored;
use crate::search::known_deep_enough;
use crate::search::line_after;
use crate::search::looked_at;
use crate::search::moves_left;
use crate::search::nothing_known;
use crate::search::queue;
use crate::search::searched;
use crate::search::visited;
use crate::search::Line;
use crate::search::Node;
use crate::search::Setup;
use crate::search::World;
use vstd::prelude::*;

verus! {

/// A search of a board to a depth, from its root, between the scores of the
/// mates, with counters that start at 0.
pub open spec fn timed_search<S: Score>(
    c: Setup<S>,
    w: World<S>,
    text: Seq<char>,
    depth: nat,
    limit: Option<nat>,
) -> (Evaluation<S>, World<S>) {
    searched(
        c,
        World {
            stats: Stats {
                leaves_visited: 0,
                nodes_visited: 0,
                alpha_beta_breaks: 0,
                transposition_table_entries: 0,
                transposition_table_accesses: 0,
                max_depth: 0,
                depth: 0,
                progress_on_next_layer: S::of_int(0),
                tt_size: 0,
                time_for_transposition_access: 0,
            },
            ..w
        },
        Node {
            text,
            depth: depth as u32,
            original: true,
            extensions: 0,
            predicted: |board: Seq<char>| 0u32,
        },
        limit,
        S::min_value(),
        S::max_value(),
        S::of_int(0),
        S::of_int(0),
    )
}

/// Such a search without a deadline.
pub open spec fn untimed_search<S: Score>(
    c: Setup<S>,
    w: World<S>,
    text: Seq<char>,
    depth: nat,
) -> (Evaluation<S>, World<S>) {
    timed_search(c, w, text, depth, None)
}

/// Whether a search of the layer behind the last complete one was cancelled, and
/// the share of it that was searched is reported.
pub open spec fn cancelled<S: Score>(
    c: Setup<S>,
    before: World<S>,
    after: World<S>,
    text: Seq<char>,
    depth: nat,
    limit: Option<nat>,
    asked: nat,
    progress: S,
) -> bool {
    let left = timed_search(c, World { asked, ..before }, text, depth, limit).1;
    &&& after.asked == left.asked + 1
    &&& same_memory(after, left)
    &&& progress == left.stats.progress_on_next_layer
}

/// What the layers up to a depth leave behind, searched one after the other
/// without a deadline.
pub open spec fn layers_up_to<S: Score>(
    c: Setup<S>,
    w: World<S>,
    text: Seq<char>,
    depth: nat,
) -> World<S>
    decreases depth,
{
    if depth == 0 {
        w
    } else {
        untimed_search(c, layers_up_to(c, w, text, (depth - 1) as nat), text, depth).1
    }
}

/// What the layer at a depth finds after the layers before it, without a
/// deadline.
pub open spec fn layer_at<S: Score>(
    c: Setup<S>,
    w: World<S>,
    text: Seq<char>,
    depth: nat,
) -> (Evaluation<S>, World<S>) {
    untimed_search(c, layers_up_to(c, w, text, (depth - 1) as nat), text, depth)
}

/// How often the clock was asked when the layers from the second up to a depth
/// were searched to their end, once behind each of them included.
pub open spec fn checks_up_to<S: Score>(
    c: Setup<S>,
    w: World<S>,
    text: Seq<char>,
    depth: nat,
) -> int {
    w.asked + (layers_up_to(c, w, text, depth).asked - layers_up_to(c, w, text, 1).asked) + (depth
        - 1)
}

/// Whether the same is remembered.
pub open spec fn same_memory<S>(a: World<S>, b: World<S>) -> bool {
    a.table == b.table && a.pawn_memo == b.pawn_memo && a.naive_memos == b.naive_memos
}

/// However often the clock was asked before, a search without a deadline finds
/// and leaves behind the same, and asks as often.
pub proof fn law_earlier_checks_do_not_matter<S: Score>(
    c: Setup<S>,
    w: World<S>,
    v: World<S>,
    n: Node,
    alpha: S,
    beta: S,
    mg: S,
    eg: S,
)
    requires
        same_memory(w, v),
        w.stats == v.stats,
    ensures
        ({
            let (found, after) = searched(c, w, n, None, alpha, beta, mg, eg);
            let (again, later) = searched(c, v, n, None, alpha, beta, mg, eg);
            &&& found == again
            &&& same_memory(after, later)
            &&& after.stats == later.stats
            &&& after.asked - w.asked == later.asked - v.asked
        }),
    decreases moves_left(n), 1nat, 0nat,
{
    if n.depth > 0 && moves_of(n.text).len() > 0 {
        lemma_earlier_checks(
            c,
            w,
            v,
            n,
            queue(c, w.table, n.text),
            0,
            Line { alpha, beta, mg, eg, best: nothing_known() },
        );
    }
}

proof fn lemma_earlier_checks<S: Score>(
    c: Setup<S>,
    w: World<S>,
    v: World<S>,
    n: Node,
    moves: Seq<CandidateView<S>>,
    i: nat,
    line: Line<S>,
)
    requires
        same_memory(w, v),
        w.stats == v.stats,
        n.depth > 0,
    ensures
        ({
            let (found, after) = explored(c, w, n, None, moves, i, line);
            let (again, later) = explored(c, v, n, None, moves, i, line);
            &&& found == again
            &&& same_memory(after, later)
            &&& after.stats == later.stats
            &&& after.asked - w.asked == later.asked - v.asked
        }),
    decreases moves_left(n), 0nat, moves.len() - i,
{
    if i < moves.len() {
        let x = moves[i as int];
        if !known_deep_enough(n, x) {
            law_earlier_checks_do_not_matter(
                c,
                begun(w, n),
                begun(v, n),
                child(c, n, moves.len(), x),
                line.alpha,
                line.beta,
                line.mg,
                line.eg,
            );
        }
        let (found, after) = looked_at(c, w, n, None, moves, i, line);
        let (again, later) = looked_at(c, v, n, None, moves, i, line);
        assert(found == again && same_memory(after, later) && after.stats == later.stats);
        assert(after.asked - w.asked == later.asked - v.asked);
        let (next, cut) = line_after(c, n, line, x.chess_move, found);
        if !cut {
            lemma_earlier_checks(c, visited(after), visited(later), n, moves, i + 1, next);
        }
    }
}

/// A layer is a search from the root with counters of its own, between the scores
/// of the mates, to any depth and with any deadline: its move and its analysis are
/// those of that search, and so is what it leaves behind but for the counters.
pub proof fn law_a_layer_is_a_search_from_the_root<S: Score>(
    c: Setup<S>,
    w: World<S>,
    text: Seq<char>,
    depth: u32,
    limit: Option<nat>,
)
    ensures
        ({
            let (found, after) = timed_search(c, w, text, depth as nat, limit);
            let (l, later) = layer(c, w, text, depth, limit);
            &&& l.action == found.next_action
            &&& l.analysis == found.debug_data
            &&& l.stats == after.stats
            &&& same_memory(after, later)
            &&& later.asked == after.asked
        }),
{
    let empty = counts(Map::<Seq<char>, u32>::empty());
    assert(empty =~= (|board: Seq<char>| 0u32));
}

/// A layer during which the deadline does not pass is an untimed search.
proof fn lemma_layer<S: Score>(
    c: Setup<S>,
    w: World<S>,
    v: World<S>,
    text: Seq<char>,
    depth: u32,
    limit: Option<nat>,
)
    requires
        same_memory(w, v),
        !expired(limit, layer(c, w, text, depth, limit).1.asked),
    ensures
        ({
            let (found, after) = untimed_search(c, v, text, depth as nat);
            let (l, later) = layer(c, w, text, depth, limit);
            &&& l == (Layer {
                action: found.next_action,
                analysis: found.debug_data,
                stats: after.stats,
            })
            &&& same_memory(after, later)
            &&& later.asked - w.asked == after.asked - v.asked
        }),
{
    let empty = counts(Map::<Seq<char>, u32>::empty());
    assert(empty =~= (|board: Seq<char>| 0u32));
    let zero = S::of_int(0);
    let (low, high) = (S::min_value(), S::max_value());
    let blank = blank_stats::<S>();
    let start = World { stats: blank, ..w };
    let other = World { stats: blank, ..v };
    law_deadline_only_stops(c, start, root(text, depth), limit, low, high, zero, zero);
    law_earlier_checks_do_not_matter(c, start, other, root(text, depth), low, high, zero, zero);
}

proof fn lemma_deepening_follows_the_layers<S: Score>(
    c: Setup<S>,
    w: World<S>,
    first: World<S>,
    text: Seq<char>,
    depth: u32,
    best: Layer<S>,
    limit: Option<nat>,
)
    requires
        2 <= depth <= 11,
        same_memory(w, layers_up_to(c, first, text, (depth - 1) as nat)),
        w.asked == checks_up_to(c, first, text, (depth - 1) as nat),
        ({
            let (found, after) = layer_at(c, first, text, (depth - 1) as nat);
            best == (Layer {
                action: found.next_action,
                analysis: found.debug_data,
                stats: after.stats,
            })
        }),
    ensures
        ({
            let (deepest, reached, after) = deepened(c, w, text, depth, best, limit);
            let (found, left) = layer_at(c, first, text, reached as nat);
            &&& depth - 1 <= reached <= 10
            &&& deepest.action == found.next_action
            &&& deepest.analysis == found.debug_data
            &&& deepest.stats == (Stats {
                progress_on_next_layer: deepest.stats.progress_on_next_layer,
                ..left.stats
            })
            &&& reached == 10 ==> same_memory(after, left) && deepest.stats == left.stats
            &&& reached < 10 ==> after.asked > 0 && expired(limit, (after.asked - 1) as nat)
            &&& reached < 10 ==> cancelled(
                c,
                layers_up_to(c, first, text, reached as nat),
                after,
                text,
                (reached + 1) as nat,
                limit,
                checks_up_to(c, first, text, reached as nat) as nat,
                deepest.stats.progress_on_next_layer,
            )
            &&& reached == 10 ==> after.asked == checks_up_to(c, first, text, 10)
            &&& reached >= depth ==> checks_up_to(c, first, text, reached as nat) > 0 && !expired(
                limit,
                (checks_up_to(c, first, text, reached as nat) - 1) as nat,
            )
            &&& reached == 10 && depth <= 10 ==> after.asked > 0 && !expired(
                limit,
                (after.asked - 1) as nat,
            )
        }),
    decreases 11 - depth,
{
    let before = layers_up_to(c, first, text, (depth - 1) as nat);
    if depth <= 10 {
        let (latest, after) = layer(c, w, text, depth, limit);
        law_search_answers(
            c,
            World { stats: blank_stats(), ..w },
            root(text, depth),
            limit,
            S::min_value(),
            S::max_value(),
            S::of_int(0),
            S::of_int(0),
        );
        if expired(limit, after.asked) {
            let empty = counts(Map::<Seq<char>, u32>::empty());
            assert(empty =~= (|board: Seq<char>| 0u32));
            assert(cancelled(
                c,
                before,
                World { asked: after.asked + 1, ..after },
                text,
                depth as nat,
                limit,
                w.asked,
                latest.stats.progress_on_next_layer,
            ));
        } else {
            lemma_layer(c, w, before, text, depth, limit);
            let asked = World { asked: after.asked + 1, ..after };
            assert(layers_up_to(c, first, text, depth as nat) == untimed_search(
                c,
                before,
                text,
                depth as nat,
            ).1);
            lemma_deepening_follows_the_layers(
                c,
                asked,
                first,
                text,
                (depth + 1) as u32,
                latest,
                limit,
            );
        }
    }
}

/// A decision is that of the deepest of ten layers that is searched to its end.
///
/// Depth 10 is reported if and only if the last check of the clock found the
/// deadline not passed, and without a deadline always. What is done is what the
/// layer of the reported depth finds, searched after the layers before it without
/// a deadline: its move is made, unless the board that it leads to was played
/// three times, when a draw is declared; without a move the side to move resigns
/// in checkmate and declares a draw in stalemate. The board is counted once more,
/// and then the board that the move leads to. No check up to the one behind that
/// layer found the deadline passed, the first layer being searched without checks.
/// Below depth 10 the next layer was begun and cancelled, and the share of it that
/// was searched is reported.
pub proof fn law_the_deepest_complete_layer_decides<S: Score>(
    c: Setup<S>,
    w: World<S>,
    text: Seq<char>,
    limit: Option<nat>,
)
    ensures
        ({
            let decision = decided(c, w, text, limit);
            let depth = decision.stats.depth;
            let times = if c.played.contains_key(text) {
                c.played[text]
            } else {
                0
            };
            let counted = Setup {
                played: c.played.insert(text, times.wrapping_add(1)),
                ..c
            };
            let (found, left) = layer_at(counted, w, text, depth as nat);
            let checks = checks_up_to(counted, w, text, depth as nat);
            &&& 1 <= depth <= 10
            &&& decision.world.asked > w.asked
            &&& match limit {
                None => depth == 10,
                Some(first) => depth == 10 <==> decision.world.asked <= first,
            }
            &&& match found.next_action {
                Some(Action::MakeMove(chess_move)) => {
                    let next = text_after(text, chess_move);
                    let before = if counted.played.contains_key(next) {
                        counted.played[next]
                    } else {
                        0
                    };
                    &&& decision.action == if before >= 3 {
                        Action::DeclareDraw
                    } else {
                        Action::MakeMove(chess_move)
                    }
                    &&& decision.played == counted.played.insert(next, before.wrapping_add(1))
                },
                _ => {
                    &&& decision.action == if moves_of(text).len() == 0 && checkers_of(text) != 0 {
                        Action::Resign(side_of(text))
                    } else {
                        Action::DeclareDraw
                    }
                    &&& decision.played == counted.played
                },
            }
            &&& decision.analysis == found.debug_data
            &&& decision.stats == (Stats {
                depth,
                tt_size: decision.world.table.len() as u32,
                progress_on_next_layer: decision.stats.progress_on_next_layer,
                ..left.stats
            })
            &&& depth < 10 ==> cancelled(
                counted,
                layers_up_to(counted, w, text, depth as nat),
                decision.world,
                text,
                (depth + 1) as nat,
                limit,
                checks as nat,
                decision.stats.progress_on_next_layer,
            )
            &&& depth == 10 ==> same_memory(decision.world, left) && decision.world.asked == checks
                && decision.stats.progress_on_next_layer == left.stats.progress_on_next_layer
            &&& match limit {
                None => true,
                Some(first) => depth > 1 ==> checks <= first,
            }
        }),
{
    let times = count_of(c.played, text);
    let counted = Setup { played: c.played.insert(text, times.wrapping_add(1)), ..c };
    let start = World { asked: 0, ..w };
    let (first, begun) = layer(counted, start, text, 1, None);
    lemma_layer(counted, start, w, text, 1, None);
    assert(layers_up_to(counted, w, text, 0) == w);
    assert(layers_up_to(counted, w, text, 1) == untimed_search(counted, w, text, 1).1);
    let second = World { asked: w.asked, ..begun };
    lemma_deepening_follows_the_layers(counted, second, w, text, 2, first, limit);
    lemma_checks_grow(counted, second, text, 2, first, limit);
    law_layer_answers(counted, start, text, 1, None);
    law_deepening_answers(counted, second, text, 2, first, limit);
}

proof fn lemma_checks_grow<S: Score>(
    c: Setup<S>,
    w: World<S>,
    text: Seq<char>,
    depth: u32,
    best: Layer<S>,
    limit: Option<nat>,
)
    requires
        2 <= depth <= 11,
    ensures
        deepened(c, w, text, depth, best, limit).2.asked >= w.asked,
        depth <= 10 ==> deepened(c, w, text, depth, best, limit).2.asked > w.asked,
    decreases 11 - depth,
{
    if depth <= 10 {
        let (latest, after) = layer(c, w, text, depth, limit);
        law_search_answers(
            c,
            World { stats: blank_stats(), ..w },
            root(text, depth),
            limit,
            S::min_value(),
            S::max_value(),
            S::of_int(0),
            S::of_int(0),
        );
        let asked = World { asked: after.asked + 1, ..after };
        if !expired(limit, after.asked) {
            lemma_checks_grow(c, asked, text, (depth + 1) as u32, latest, limit);
        }
    }
}

} // verus!
