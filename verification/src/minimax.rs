//! The minimax value of a board, and that the search finds it.
use crate::board::moves_of;
use crate::board::text_after;
use crate::board::Action;
use crate::clock::expired;
use crate::counts::played_once_more;
use crate::deepening::decided;
use crate::deepening::deepened;
use crate::deepening::layer;
use crate::deepening::repetition_checked;
use crate::deepening::root;
use crate::deepening::without_move;
use crate::deepening::Layer;
use crate::deepening::LAST_DEPTH;
use crate::deepening::START_DEPTH;
use crate::evaluation::carried;
use crate::evaluation::material;
use crate::evaluation::placement_of;
use crate::modules::enabled;
use crate::modules::ALPHA_BETA;
use crate::modules::NAIVE_PSQT;
use crate::modules::PAWN_STRUCTURE;
use crate::modules::SEARCH_EXTENSIONS;
use crate::modules::SQUARE_CONTROL_METRIC;
use crate::modules::TAPERED_EVERY_PESTO_PSQT;
use crate::modules::TAPERED_INCREMENTAL_PESTO_PSQT;
use crate::modules::TRANSPOSITION_TABLE;
use crate::move_order::goes_before;
use crate::move_order::ordered;
use crate::move_order::CandidateView;
use crate::outcome::blank_stats;
use crate::outcome::Evaluation;
use crate::outcome::TranspositionEntry;
use crate::score::Fixed;
use crate::score::Score;
use crate::search::candidate;
use crate::search::begun;
use crate::search::child;
use crate::search::ended_score;
use crate::search::explored;
use crate::search::generated;
use crate::search::leaf_score;
use crate::search::line_after;
use crate::search::looked_at;
use crate::search::maximises;
use crate::search::moves_left;
use crate::search::nothing_known;
use crate::search::queue;
use crate::search::reported;
use crate::search::searched;
use crate::search::visited;
use crate::search::Line;
use crate::search::Node;
use crate::search::Setup;
use crate::search::World;
use vstd::prelude::*;

verus! {

/// The sums carried along the line when `i` moves of a node were looked at.
pub open spec fn carried_times<S: Score>(c: Setup<S>, n: Node, i: nat, mg: S, eg: S) -> (S, S)
    decreases i,
{
    if i == 0 || !enabled(c.modules, TAPERED_INCREMENTAL_PESTO_PSQT) {
        (mg, eg)
    } else {
        let (before_mg, before_eg) = carried_times(c, n, (i - 1) as nat, mg, eg);
        carried(c.weights, placement_of(n.text), before_mg, before_eg)
    }
}

/// Whether the first of two scores is worse for a side.
pub open spec fn worse<S: Score>(maximise: bool, a: S, b: S) -> bool {
    if maximise {
        a.below(b)
    } else {
        b.below(a)
    }
}

/// The `i`th legal move with what it leads to, nothing being remembered.
pub open spec fn plain_candidate<S>(n: Node, i: int) -> CandidateView<S> {
    CandidateView {
        chess_move: moves_of(n.text)[i],
        text: text_after(n.text, moves_of(n.text)[i]),
        entry: None,
    }
}

/// The minimax value of a node: that of the board where there is nothing to
/// look ahead or no legal move, else the best value, for the side to move, of
/// the nodes that the legal moves lead to.
pub open spec fn minimax<S: Score>(c: Setup<S>, n: Node, mg: S, eg: S) -> S
    decreases moves_left(n), 1nat, 0nat,
{
    if n.depth == 0 {
        leaf_score(c, n.text, (n.predicted)(n.text), mg, eg)
    } else if moves_of(n.text).len() == 0 {
        ended_score(n.text)
    } else {
        best_of_first(c, n, moves_of(n.text).len(), mg, eg)->Some_0.0
    }
}

/// The value of the node that the `i`th move leads to.
pub open spec fn move_value<S: Score>(c: Setup<S>, n: Node, i: nat, mg: S, eg: S) -> S
    decreases moves_left(n), 0nat, i + 1,
{
    if n.depth == 0 {
        S::of_int(0)
    } else {
        let (here_mg, here_eg) = carried_times(c, n, i, mg, eg);
        minimax(
            c,
            child(c, n, moves_of(n.text).len(), plain_candidate::<S>(n, i as int)),
            here_mg,
            here_eg,
        )
    }
}

/// The best value among the first `k` moves, with the first move that has it.
pub open spec fn best_of_first<S: Score>(
    c: Setup<S>,
    n: Node,
    k: nat,
    mg: S,
    eg: S,
) -> Option<(S, nat)>
    decreases moves_left(n), 0nat, k + 1,
{
    if k == 0 {
        None
    } else {
        let last = (k - 1) as nat;
        let value = move_value(c, n, last, mg, eg);
        match best_of_first(c, n, last, mg, eg) {
            None => Some((value, last)),
            Some(best) => if worse(maximises(n.text), best.0, value) {
                Some((value, last))
            } else {
                Some(best)
            },
        }
    }
}

/// The move that has the minimax value, the first where there are several.
pub open spec fn minimax_action<S: Score>(c: Setup<S>, n: Node, mg: S, eg: S) -> Option<Action> {
    if n.depth == 0 || moves_of(n.text).len() == 0 {
        None
    } else {
        let k = best_of_first(c, n, moves_of(n.text).len(), mg, eg)->Some_0.1;
        Some(Action::MakeMove(moves_of(n.text)[k as int]))
    }
}

/// The minimax value of a node with legal moves is the value of one of them,
/// that of [`minimax_action`]; no move has a better one for the side to move,
/// and no earlier move one as good.
pub proof fn law_minimax_is_best<S: Score>(c: Setup<S>, n: Node, mg: S, eg: S, i: nat)
    requires
        n.depth > 0,
        i < moves_of(n.text).len(),
    ensures
        ({
            let value = minimax(c, n, mg, eg);
            let k = best_of_first(c, n, moves_of(n.text).len(), mg, eg)->Some_0.1;
            &&& k < moves_of(n.text).len()
            &&& minimax_action(c, n, mg, eg) == Some(
                Action::MakeMove(moves_of(n.text)[k as int]),
            )
            &&& value == move_value(c, n, k, mg, eg)
            &&& !worse(maximises(n.text), value, move_value(c, n, i, mg, eg))
            &&& i < k ==> worse(maximises(n.text), move_value(c, n, i, mg, eg), value)
        }),
{
    lemma_best_of_first(c, n, moves_of(n.text).len(), mg, eg, i);
}

proof fn lemma_best_of_first<S: Score>(c: Setup<S>, n: Node, k: nat, mg: S, eg: S, i: nat)
    requires
        i < k,
    ensures
        ({
            let best = best_of_first(c, n, k, mg, eg)->Some_0;
            &&& best_of_first(c, n, k, mg, eg) is Some
            &&& best.1 < k
            &&& best.0 == move_value(c, n, best.1, mg, eg)
            &&& !worse(maximises(n.text), best.0, move_value(c, n, i, mg, eg))
            &&& i < best.1 ==> worse(maximises(n.text), move_value(c, n, i, mg, eg), best.0)
        }),
    decreases k,
{
    let maximise = maximises(n.text);
    let last = (k - 1) as nat;
    let value = move_value(c, n, last, mg, eg);
    let here = move_value(c, n, i, mg, eg);
    lemma_worse(maximise, value, value, value);
    if last > 0 {
        if i < last {
            lemma_best_of_first(c, n, last, mg, eg, i);
        } else {
            lemma_best_of_first(c, n, last, mg, eg, 0);
        }
        let before = best_of_first(c, n, last, mg, eg)->Some_0;
        lemma_worse(maximise, before.0, here, value);
        lemma_worse(maximise, here, before.0, value);
    }
}

/// Being worse is a strict weak order.
pub proof fn lemma_worse<S: Score>(maximise: bool, a: S, b: S, c: S)
    ensures
        worse(maximise, a, b) ==> !worse(maximise, b, a),
        worse(maximise, b, c) ==> !worse(maximise, c, b),
        worse(maximise, a, c) ==> !worse(maximise, c, a),
        worse(maximise, a, c) ==> worse(maximise, a, b) || worse(maximise, b, c),
        worse(maximise, c, a) ==> worse(maximise, c, b) || worse(maximise, b, a),
        worse(maximise, a, b) ==> worse(maximise, a, c) || worse(maximise, c, b),
        worse(maximise, b, a) ==> worse(maximise, b, c) || worse(maximise, c, a),
        worse(maximise, b, c) ==> worse(maximise, b, a) || worse(maximise, a, c),
        worse(maximise, c, b) ==> worse(maximise, c, a) || worse(maximise, a, b),
{
    lemma_below(a, b, c);
    lemma_below(a, c, b);
    lemma_below(b, a, c);
    lemma_below(b, c, a);
    lemma_below(c, a, b);
    lemma_below(c, b, a);
}

pub proof fn lemma_below<S: Score>(a: S, b: S, c: S)
    ensures
        a.below(c) ==> a.below(b) || b.below(c),
        a.below(c) ==> !c.below(a),
{
    if a.below(c) {
        S::below_is_cotransitive(a, b, c);
        S::below_is_asymmetric(a, c);
    }
}

/// Whether what a search of a window finds tells the true value: where that is
/// in the window it is found, and where it is not, the search tells on which
/// side it lies and does not go beyond it. Without [`ALPHA_BETA`] the value is
/// found whatever the window.
pub open spec fn tells<S: Score>(
    modules: u32,
    alpha: S,
    beta: S,
    value: S,
    eval: Option<S>,
) -> bool {
    match eval {
        None => false,
        Some(eval) => if !enabled(modules, ALPHA_BETA) {
            eval == value
        } else {
            &&& value.below(alpha) ==> eval.below(alpha) && !eval.below(value)
            &&& beta.below(value) ==> beta.below(eval) && !value.below(eval)
            &&& !value.below(alpha) && !beta.below(value) ==> eval == value
        },
    }
}

/// [`tells`] as the side to move sees it, which is sure of `own` and will not
/// be let beyond `other`.
spec fn faithful<S: Score>(maximise: bool, own: S, other: S, value: S, eval: S) -> bool {
    &&& worse(maximise, value, own) ==> worse(maximise, eval, own) && !worse(maximise, eval, value)
    &&& worse(maximise, other, value) ==> worse(maximise, other, eval) && !worse(
        maximise,
        value,
        eval,
    )
    &&& !worse(maximise, value, own) && !worse(maximise, other, value) ==> eval == value
}

/// How the best score found is related to the best value after some moves, when
/// `own` has been raised to `now`.
spec fn in_step<S: Score>(
    maximise: bool,
    own: S,
    now: S,
    value: Option<S>,
    eval: Option<S>,
) -> bool {
    match value {
        None => eval is None && now == own,
        Some(value) => match eval {
            None => false,
            Some(eval) => if worse(maximise, value, own) {
                worse(maximise, eval, own) && !worse(maximise, eval, value) && now == own
            } else {
                eval == value && !worse(maximise, now, value) && !worse(maximise, value, now)
            },
        },
    }
}

spec fn better_of<S: Score>(maximise: bool, best: Option<S>, value: S) -> S {
    match best {
        None => value,
        Some(best) => if worse(maximise, best, value) {
            value
        } else {
            best
        },
    }
}

proof fn lemma_one_more_move<S: Score>(
    maximise: bool,
    own: S,
    other: S,
    now: S,
    best_value: Option<S>,
    best_eval: Option<S>,
    value: S,
    eval: S,
)
    requires
        in_step(maximise, own, now, best_value, best_eval),
        !worse(maximise, other, now),
        faithful(maximise, now, other, value, eval),
    ensures
        ({
            let raised = if worse(maximise, now, eval) {
                eval
            } else {
                now
            };
            let next_value = better_of(maximise, best_value, value);
            let next_eval = better_of(maximise, best_eval, eval);
            if worse(maximise, other, raised) {
                &&& next_eval == eval
                &&& worse(maximise, other, eval)
                &&& worse(maximise, other, value)
                &&& !worse(maximise, value, eval)
            } else {
                &&& in_step(maximise, own, raised, Some(next_value), Some(next_eval))
                &&& !worse(maximise, next_value, own) ==> {
                    &&& (best_value is None || worse(maximise, best_value->Some_0, value)) == (
                    best_eval is None || worse(maximise, best_eval->Some_0, eval))
                    &&& best_value is Some && !worse(maximise, best_value->Some_0, value)
                        ==> !worse(maximise, best_value->Some_0, own)
                }
            }
        }),
{
    lemma_worse(maximise, now, other, value);
    lemma_worse(maximise, now, other, eval);
    lemma_worse(maximise, now, value, eval);
    lemma_worse(maximise, other, value, eval);
    lemma_worse(maximise, own, value, eval);
    lemma_worse(maximise, own, now, eval);
    lemma_worse(maximise, own, now, value);
    lemma_worse(maximise, own, now, other);
    if best_value is Some {
        let best_value = best_value->Some_0;
        let best_eval = best_eval->Some_0;
        lemma_worse(maximise, best_value, best_eval, value);
        lemma_worse(maximise, best_value, best_eval, eval);
        lemma_worse(maximise, best_value, value, eval);
        lemma_worse(maximise, best_eval, value, eval);
        lemma_worse(maximise, best_value, now, value);
        lemma_worse(maximise, best_value, now, eval);
        lemma_worse(maximise, best_eval, now, eval);
        lemma_worse(maximise, best_eval, now, value);
        lemma_worse(maximise, best_eval, now, other);
        lemma_worse(maximise, best_eval, other, eval);
        lemma_worse(maximise, best_value, own, value);
        lemma_worse(maximise, best_value, own, eval);
        lemma_worse(maximise, best_eval, own, eval);
        lemma_worse(maximise, best_eval, own, value);
    }
}

/// Candidates of which nothing is remembered keep their order.
proof fn lemma_order_without_table<S: Score>(maximise: bool, s: Seq<CandidateView<S>>)
    requires
        forall|i: int| 0 <= i < s.len() ==> (#[trigger] s[i]).entry is None,
    ensures
        ordered(maximise, s) == s,
    decreases s.len(),
{
    if s.len() > 0 {
        let rest = s.drop_last();
        assert forall|i: int| 0 <= i < rest.len() implies (#[trigger] rest[i]).entry is None by {
            assert(rest[i] == s[i]);
        }
        lemma_order_without_table(maximise, rest);
        lemma_below(S::of_int(0), S::of_int(0), S::of_int(0));
        if rest.len() > 0 {
            assert(rest.last() == s[rest.len() - 1]);
            assert(!goes_before(maximise, s.last(), rest.last()));
        }
        assert(rest.push(s.last()) =~= s);
    }
}

/// Without the table the legal moves are looked at in the order in which they
/// are generated, and nothing is remembered of the boards that they lead to.
pub proof fn law_moves_keep_their_order_without_table<S: Score>(
    c: Setup<S>,
    table: Map<Seq<char>, TranspositionEntry<S>>,
    n: Node,
)
    requires
        !enabled(c.modules, TRANSPOSITION_TABLE),
    ensures
        queue(c, table, n.text).len() == moves_of(n.text).len(),
        forall|i: int|
            0 <= i < moves_of(n.text).len() ==> #[trigger] queue(c, table, n.text)[i]
                == plain_candidate::<S>(n, i),
{
    let all = generated(c, table, n.text, moves_of(n.text).len());
    assert forall|i: int| 0 <= i < all.len() implies (#[trigger] all[i]).entry is None by {
        assert(all[i] == candidate(c, table, n.text, moves_of(n.text)[i]));
    }
    lemma_order_without_table(maximises(n.text), all);
}

/// What is known at a node agrees with the values of the moves that were looked
/// at, in a search of the window from `alpha` to `beta`.
spec fn line_in_step<S: Score>(
    c: Setup<S>,
    n: Node,
    i: nat,
    alpha: S,
    beta: S,
    mg: S,
    eg: S,
    line: Line<S>,
) -> bool {
    let best = best_of_first(c, n, i, mg, eg);
    let value = match best {
        None => None,
        Some(best) => Some(best.0),
    };
    let action = match best {
        None => None,
        Some(best) => Some(Action::MakeMove(moves_of(n.text)[best.1 as int])),
    };
    &&& (line.mg, line.eg) == carried_times(c, n, i, mg, eg)
    &&& if !enabled(c.modules, ALPHA_BETA) {
        line.best.eval == value && line.best.next_action == action
    } else {
        let maximise = maximises(n.text);
        let own = if maximise {
            alpha
        } else {
            beta
        };
        let now = if maximise {
            line.alpha
        } else {
            line.beta
        };
        &&& if maximise {
            line.beta == beta
        } else {
            line.alpha == alpha
        }
        &&& !line.beta.below(line.alpha)
        &&& in_step(maximise, own, now, value, line.best.eval)
        &&& value is Some && !worse(maximise, value->Some_0, own) ==> line.best.next_action
            == action
    }
}

/// Whether a search of a window has found the minimax value and its move, as
/// far as they lie in the window.
pub open spec fn finds_minimax<S: Score>(
    c: Setup<S>,
    n: Node,
    alpha: S,
    beta: S,
    mg: S,
    eg: S,
    found: Evaluation<S>,
) -> bool {
    let value = minimax(c, n, mg, eg);
    &&& tells(c.modules, alpha, beta, value, found.eval)
    &&& !enabled(c.modules, ALPHA_BETA) || (!value.below(alpha) && !beta.below(value))
        ==> found.next_action == minimax_action(c, n, mg, eg)
}

/// A search during which the deadline does not pass finds the minimax value,
/// with or without [`ALPHA_BETA`]: leaving out the moves that it leaves out
/// changes neither the value nor the move, as long as the value lies in the
/// window that is searched.
///
/// This is without [`TRANSPOSITION_TABLE`], under which what a board is worth
/// depends on what was searched before. Without [`ALPHA_BETA`] the window is not
/// used.
pub proof fn law_search_is_minimax<S: Score>(
    c: Setup<S>,
    w: World<S>,
    n: Node,
    limit: Option<nat>,
    alpha: S,
    beta: S,
    mg: S,
    eg: S,
)
    requires
        !enabled(c.modules, TRANSPOSITION_TABLE),
        enabled(c.modules, ALPHA_BETA) ==> !beta.below(alpha),
    ensures
        ({
            let (found, after) = searched(c, w, n, limit, alpha, beta, mg, eg);
            &&& after.asked >= w.asked
            &&& !expired(limit, after.asked) ==> finds_minimax(c, n, alpha, beta, mg, eg, found)
        }),
    decreases moves_left(n), 1nat, 0nat,
{
    let value = minimax(c, n, mg, eg);
    lemma_below(value, value, value);
    if n.depth > 0 && moves_of(n.text).len() > 0 {
        let line = Line { alpha, beta, mg, eg, best: nothing_known() };
        law_moves_keep_their_order_without_table(c, w.table, n);
        lemma_explored_is_minimax(
            c,
            w,
            n,
            limit,
            queue(c, w.table, n.text),
            0,
            alpha,
            beta,
            mg,
            eg,
            line,
        );
    }
}

proof fn lemma_explored_is_minimax<S: Score>(
    c: Setup<S>,
    w: World<S>,
    n: Node,
    limit: Option<nat>,
    moves: Seq<CandidateView<S>>,
    i: nat,
    alpha: S,
    beta: S,
    mg: S,
    eg: S,
    line: Line<S>,
)
    requires
        !enabled(c.modules, TRANSPOSITION_TABLE),
        n.depth > 0,
        i <= moves.len(),
        0 < moves.len() == moves_of(n.text).len(),
        forall|j: int| 0 <= j < moves.len() ==> #[trigger] moves[j] == plain_candidate::<S>(n, j),
        enabled(c.modules, ALPHA_BETA) ==> !beta.below(alpha),
        enabled(c.modules, ALPHA_BETA) ==> !line.beta.below(line.alpha),
    ensures
        ({
            let (found, after) = explored(c, w, n, limit, moves, i, line);
            &&& after.asked >= w.asked
            &&& !expired(limit, after.asked) && line_in_step(c, n, i, alpha, beta, mg, eg, line)
                ==> finds_minimax(c, n, alpha, beta, mg, eg, found)
        }),
    decreases moves_left(n), 0nat, moves.len() - i,
{
    let maximise = maximises(n.text);
    if i == moves.len() {
        if line_in_step(c, n, i, alpha, beta, mg, eg, line) {
            lemma_best_of_first(c, n, i, mg, eg, 0);
            let value = best_of_first(c, n, i, mg, eg)->Some_0.0;
            let eval = line.best.eval->Some_0;
            lemma_worse(maximise, value, line.alpha, line.beta);
        }
    } else if !expired(limit, w.asked) {
        let x = moves[i as int];
        assert(x == plain_candidate::<S>(n, i as int));
        let (found, after) = looked_at(c, w, n, limit, moves, i, line);
        let begun = begun(w, n);
        law_search_is_minimax(
            c,
            begun,
            child(c, n, moves.len(), x),
            limit,
            line.alpha,
            line.beta,
            line.mg,
            line.eg,
        );
        assert(after.asked >= w.asked);
        let counted = visited(after);
        let (next, cut) = line_after(c, n, line, x.chess_move, found);
        if line_in_step(c, n, i, alpha, beta, mg, eg, line) && !expired(limit, after.asked) {
            lemma_line_stays_in_step(c, n, i, alpha, beta, mg, eg, line, found);
        }
        if !cut {
            lemma_explored_is_minimax(
                c,
                counted,
                n,
                limit,
                moves,
                i + 1,
                alpha,
                beta,
                mg,
                eg,
                next,
            );
        }
    }
}

proof fn lemma_line_stays_in_step<S: Score>(
    c: Setup<S>,
    n: Node,
    i: nat,
    alpha: S,
    beta: S,
    mg: S,
    eg: S,
    line: Line<S>,
    found: Evaluation<S>,
)
    requires
        n.depth > 0,
        i < moves_of(n.text).len(),
        enabled(c.modules, ALPHA_BETA) ==> !beta.below(alpha),
        line_in_step(c, n, i, alpha, beta, mg, eg, line),
        tells(c.modules, line.alpha, line.beta, move_value(c, n, i, mg, eg), found.eval),
    ensures
        ({
            let (next, cut) = line_after(c, n, line, moves_of(n.text)[i as int], found);
            if cut {
                finds_minimax(c, n, alpha, beta, mg, eg, reported(next.best))
            } else {
                line_in_step(c, n, i + 1, alpha, beta, mg, eg, next)
            }
        }),
{
    let maximise = maximises(n.text);
    let value = move_value(c, n, i, mg, eg);
    let eval = found.eval->Some_0;
    let best = best_of_first(c, n, i, mg, eg);
    assert(best_of_first(c, n, i + 1, mg, eg) == match best {
        None => Some((value, i)),
        Some(best) => if worse(maximise, best.0, value) {
            Some((value, i))
        } else {
            Some(best)
        },
    });
    assert(carried_times(c, n, i + 1, mg, eg) == if enabled(
        c.modules,
        TAPERED_INCREMENTAL_PESTO_PSQT,
    ) {
        carried(c.weights, placement_of(n.text), line.mg, line.eg)
    } else {
        (line.mg, line.eg)
    });
    if enabled(c.modules, ALPHA_BETA) {
        let (own, now, other) = if maximise {
            (alpha, line.alpha, beta)
        } else {
            (beta, line.beta, alpha)
        };
        let best_value = match best {
            None => None,
            Some(best) => Some(best.0),
        };
        assert(faithful(maximise, now, other, value, eval));
        lemma_one_more_move(
            maximise,
            own,
            other,
            now,
            best_value,
            line.best.eval,
            value,
            eval,
        );
        let (next, cut) = line_after(c, n, line, moves_of(n.text)[i as int], found);
        if cut {
            lemma_best_of_first(c, n, moves_of(n.text).len(), mg, eg, i);
            let whole = minimax(c, n, mg, eg);
            lemma_worse(maximise, other, value, whole);
            lemma_worse(maximise, other, eval, whole);
            lemma_worse(maximise, value, eval, whole);
            lemma_worse(maximise, own, other, whole);
            lemma_worse(maximise, own, now, other);
            assert(next.best.eval == Some(eval));
            assert(worse(maximise, other, whole));
        }
    }
}

/// Whether a value lies between the scores of the two mates, which bound the
/// window that is searched from the root.
pub open spec fn within_mates<S: Score>(value: S) -> bool {
    !value.below(S::min_value()) && !S::max_value().below(value)
}

/// The minimax value of a board, looking `depth` moves ahead.
pub open spec fn root_value<S: Score>(c: Setup<S>, text: Seq<char>, depth: u32) -> S {
    minimax(c, root(text, depth), S::of_int(0), S::of_int(0))
}

/// The move that has the minimax value of a board, looking `depth` moves ahead.
pub open spec fn root_action<S: Score>(c: Setup<S>, text: Seq<char>, depth: u32) -> Option<Action> {
    minimax_action(c, root(text, depth), S::of_int(0), S::of_int(0))
}

/// A layer during which the deadline does not pass finds the minimax move.
pub proof fn law_layer_is_minimax<S: Score>(
    c: Setup<S>,
    w: World<S>,
    text: Seq<char>,
    depth: u32,
    limit: Option<nat>,
)
    requires
        !enabled(c.modules, TRANSPOSITION_TABLE),
        within_mates(root_value(c, text, depth)),
        !expired(limit, layer(c, w, text, depth, limit).1.asked),
    ensures
        layer(c, w, text, depth, limit).0.action == root_action(c, text, depth),
{
    let value = root_value(c, text, depth);
    lemma_worse(true, S::min_value(), value, S::max_value());
    law_search_is_minimax(
        c,
        World { stats: blank_stats(), ..w },
        root(text, depth),
        limit,
        S::min_value(),
        S::max_value(),
        S::of_int(0),
        S::of_int(0),
    );
}

/// Deepening that starts from the minimax move of the layer before ends with
/// that of the last layer that was searched to its end.
pub proof fn law_deepening_is_minimax<S: Score>(
    c: Setup<S>,
    w: World<S>,
    text: Seq<char>,
    depth: u32,
    best: Layer<S>,
    limit: Option<nat>,
)
    requires
        !enabled(c.modules, TRANSPOSITION_TABLE),
        forall|d: u32| within_mates(#[trigger] root_value(c, text, d)),
        START_DEPTH < depth <= LAST_DEPTH + 1,
        best.action == root_action(c, text, (depth - 1) as u32),
    ensures
        ({
            let (deepest, reached, _) = deepened(c, w, text, depth, best, limit);
            deepest.action == root_action(c, text, reached)
        }),
    decreases LAST_DEPTH + 1 - depth,
{
    if depth <= LAST_DEPTH {
        let (latest, after) = layer(c, w, text, depth, limit);
        if !expired(limit, after.asked) {
            assert(within_mates(root_value(c, text, depth)));
            law_layer_is_minimax(c, w, text, depth, limit);
            let asked = World { asked: after.asked + 1, ..after };
            law_deepening_is_minimax(c, asked, text, (depth + 1) as u32, latest, limit);
        }
    }
}

/// What is decided is the minimax move of the depth that is reported, whenever
/// the deadline passes, but for the rule on repetition and for boards without a
/// legal move.
pub proof fn law_decision_is_minimax<S: Score>(
    c: Setup<S>,
    w: World<S>,
    text: Seq<char>,
    limit: Option<nat>,
)
    requires
        !enabled(c.modules, TRANSPOSITION_TABLE),
        forall|d: u32|
            within_mates(
                #[trigger] root_value(
                    Setup { played: played_once_more(c.played, text), ..c },
                    text,
                    d,
                ),
            ),
    ensures
        ({
            let decision = decided(c, w, text, limit);
            let counted = Setup { played: played_once_more(c.played, text), ..c };
            let chosen = match root_action(counted, text, decision.stats.depth) {
                Some(action) => action,
                None => without_move(text),
            };
            decision.action == repetition_checked(counted.played, text, chosen).0
        }),
{
    let counted = Setup { played: played_once_more(c.played, text), ..c };
    let (first, begun) = layer(counted, World { asked: 0, ..w }, text, START_DEPTH, None);
    assert(within_mates(root_value(counted, text, START_DEPTH)));
    law_layer_is_minimax(counted, World { asked: 0, ..w }, text, START_DEPTH, None);
    law_deepening_is_minimax(
        counted,
        World { asked: w.asked, ..begun },
        text,
        (START_DEPTH + 1) as u32,
        first,
        limit,
    );
}

/// Every fixed-point score lies between those of the mates, so that the laws on
/// the root hold of such scores without a condition on the values.
pub proof fn law_fixed_scores_lie_within_mates(value: Fixed)
    ensures
        within_mates(value),
{
}

/// Whether boards are scored by the material alone.
pub open spec fn scores_material_only(modules: u32) -> bool {
    &&& !enabled(modules, SQUARE_CONTROL_METRIC)
    &&& !enabled(modules, NAIVE_PSQT)
    &&& !enabled(modules, PAWN_STRUCTURE)
    &&& !enabled(modules, TAPERED_EVERY_PESTO_PSQT)
    &&& !enabled(modules, TAPERED_INCREMENTAL_PESTO_PSQT)
}

/// Where boards are scored by the material alone, all values lie between those
/// of the mates, whatever the scores are.
pub proof fn law_material_lies_within_mates<S: Score>(c: Setup<S>, n: Node, mg: S, eg: S)
    requires
        scores_material_only(c.modules),
    ensures
        within_mates(minimax(c, n, mg, eg)),
    decreases moves_left(n),
{
    S::whole_numbers_lie_between(0);
    lemma_below(S::min_value(), S::min_value(), S::min_value());
    lemma_below(S::max_value(), S::max_value(), S::max_value());
    if n.depth == 0 {
        let p = placement_of(n.text);
        let values = c.weights.piece_values;
        let balance = material(values, p, p.white) - material(values, p, p.black);
        S::zero_has_no_parts(20);
        S::zero_adds_nothing(balance as i64);
        S::whole_numbers_lie_between(balance as i64);
    } else if moves_of(n.text).len() > 0 {
        let count = moves_of(n.text).len();
        lemma_best_of_first(c, n, count, mg, eg, 0);
        let k = best_of_first(c, n, count, mg, eg)->Some_0.1;
        let (here_mg, here_eg) = carried_times(c, n, k, mg, eg);
        law_material_lies_within_mates(
            c,
            child(c, n, count, plain_candidate::<S>(n, k as int)),
            here_mg,
            here_eg,
        );
    }
}

/// Whether two settings differ in [`ALPHA_BETA`] at most.
pub open spec fn same_but_for_pruning<S>(c: Setup<S>, d: Setup<S>) -> bool {
    &&& c.weights == d.weights
    &&& c.played == d.played
    &&& c.modules & !ALPHA_BETA == d.modules & !ALPHA_BETA
}

pub proof fn lemma_other_modules_agree<S>(c: Setup<S>, d: Setup<S>, module: u32)
    requires
        same_but_for_pruning(c, d),
        module & ALPHA_BETA == 0,
    ensures
        enabled(c.modules, module) == enabled(d.modules, module),
{
    let a = c.modules;
    let b = d.modules;
    assert((a & module != 0) == (b & module != 0)) by (bit_vector)
        requires
            a & !ALPHA_BETA == b & !ALPHA_BETA,
            module & ALPHA_BETA == 0,
    ;
}

/// The minimax value and its move do not depend on [`ALPHA_BETA`].
pub proof fn law_minimax_ignores_pruning<S: Score>(
    c: Setup<S>,
    d: Setup<S>,
    n: Node,
    mg: S,
    eg: S,
)
    requires
        same_but_for_pruning(c, d),
    ensures
        minimax(c, n, mg, eg) == minimax(d, n, mg, eg),
        minimax_action(c, n, mg, eg) == minimax_action(d, n, mg, eg),
    decreases moves_left(n), 1nat, 0nat,
{
    assert(NAIVE_PSQT & ALPHA_BETA == 0) by (bit_vector);
    assert(PAWN_STRUCTURE & ALPHA_BETA == 0) by (bit_vector);
    assert(SQUARE_CONTROL_METRIC & ALPHA_BETA == 0) by (bit_vector);
    assert(TAPERED_EVERY_PESTO_PSQT & ALPHA_BETA == 0) by (bit_vector);
    assert(TAPERED_INCREMENTAL_PESTO_PSQT & ALPHA_BETA == 0) by (bit_vector);
    lemma_other_modules_agree(c, d, NAIVE_PSQT);
    lemma_other_modules_agree(c, d, PAWN_STRUCTURE);
    lemma_other_modules_agree(c, d, SQUARE_CONTROL_METRIC);
    lemma_other_modules_agree(c, d, TAPERED_EVERY_PESTO_PSQT);
    lemma_other_modules_agree(c, d, TAPERED_INCREMENTAL_PESTO_PSQT);
    if n.depth > 0 {
        lemma_best_ignores_pruning(c, d, n, moves_of(n.text).len(), mg, eg);
    }
}

proof fn lemma_best_ignores_pruning<S: Score>(
    c: Setup<S>,
    d: Setup<S>,
    n: Node,
    k: nat,
    mg: S,
    eg: S,
)
    requires
        same_but_for_pruning(c, d),
        n.depth > 0,
    ensures
        best_of_first(c, n, k, mg, eg) == best_of_first(d, n, k, mg, eg),
    decreases moves_left(n), 0nat, k,
{
    if k > 0 {
        let last = (k - 1) as nat;
        lemma_best_ignores_pruning(c, d, n, last, mg, eg);
        assert(SEARCH_EXTENSIONS & ALPHA_BETA == 0) by (bit_vector);
        lemma_other_modules_agree(c, d, SEARCH_EXTENSIONS);
        lemma_carried_ignores_pruning(c, d, n, last, mg, eg);
        let (here_mg, here_eg) = carried_times(c, n, last, mg, eg);
        let x = plain_candidate::<S>(n, last as int);
        let next = child(c, n, moves_of(n.text).len(), x);
        assert(next == child(d, n, moves_of(n.text).len(), x));
        law_minimax_ignores_pruning(c, d, next, here_mg, here_eg);
        assert(move_value(c, n, last, mg, eg) == move_value(d, n, last, mg, eg));
    }
}

proof fn lemma_carried_ignores_pruning<S: Score>(
    c: Setup<S>,
    d: Setup<S>,
    n: Node,
    i: nat,
    mg: S,
    eg: S,
)
    requires
        same_but_for_pruning(c, d),
    ensures
        carried_times(c, n, i, mg, eg) == carried_times(d, n, i, mg, eg),
    decreases i,
{
    assert(TAPERED_INCREMENTAL_PESTO_PSQT & ALPHA_BETA == 0) by (bit_vector);
    lemma_other_modules_agree(c, d, TAPERED_INCREMENTAL_PESTO_PSQT);
    if i > 0 {
        lemma_carried_ignores_pruning(c, d, n, (i - 1) as nat, mg, eg);
    }
}

/// Pruning changes neither the value nor the move: two searches of a window that
/// holds the minimax value, which differ in [`ALPHA_BETA`] at most and during
/// which the deadline does not pass, find the same.
pub proof fn law_pruning_keeps_value_and_move<S: Score>(
    c: Setup<S>,
    d: Setup<S>,
    w: World<S>,
    v: World<S>,
    n: Node,
    limit: Option<nat>,
    other_limit: Option<nat>,
    alpha: S,
    beta: S,
    mg: S,
    eg: S,
)
    requires
        same_but_for_pruning(c, d),
        !enabled(c.modules, TRANSPOSITION_TABLE),
        !minimax(c, n, mg, eg).below(alpha),
        !beta.below(minimax(c, n, mg, eg)),
        !expired(limit, searched(c, w, n, limit, alpha, beta, mg, eg).1.asked),
        !expired(other_limit, searched(d, v, n, other_limit, alpha, beta, mg, eg).1.asked),
    ensures
        ({
            let found = searched(c, w, n, limit, alpha, beta, mg, eg).0;
            let other = searched(d, v, n, other_limit, alpha, beta, mg, eg).0;
            &&& found.eval == Some(minimax(c, n, mg, eg))
            &&& other.eval == found.eval
            &&& other.next_action == found.next_action
        }),
{
    assert(TRANSPOSITION_TABLE & ALPHA_BETA == 0) by (bit_vector);
    lemma_other_modules_agree(c, d, TRANSPOSITION_TABLE);
    lemma_worse(true, alpha, minimax(c, n, mg, eg), beta);
    law_minimax_ignores_pruning(c, d, n, mg, eg);
    law_search_is_minimax(c, w, n, limit, alpha, beta, mg, eg);
    law_search_is_minimax(d, v, n, other_limit, alpha, beta, mg, eg);
}

/// Pruning keeps the choice: two layers that differ in [`ALPHA_BETA`] at most,
/// and during which the deadline does not pass, find the same move.
pub proof fn law_pruning_keeps_the_choice<S: Score>(
    c: Setup<S>,
    d: Setup<S>,
    w: World<S>,
    v: World<S>,
    text: Seq<char>,
    depth: u32,
    limit: Option<nat>,
    other_limit: Option<nat>,
)
    requires
        same_but_for_pruning(c, d),
        !enabled(c.modules, TRANSPOSITION_TABLE),
        within_mates(root_value(c, text, depth)),
        !expired(limit, layer(c, w, text, depth, limit).1.asked),
        !expired(other_limit, layer(d, v, text, depth, other_limit).1.asked),
    ensures
        layer(c, w, text, depth, limit).0.action == layer(
            d,
            v,
            text,
            depth,
            other_limit,
        ).0.action,
{
    assert(TRANSPOSITION_TABLE & ALPHA_BETA == 0) by (bit_vector);
    lemma_other_modules_agree(c, d, TRANSPOSITION_TABLE);
    law_minimax_ignores_pruning(c, d, root(text, depth), S::of_int(0), S::of_int(0));
    law_layer_is_minimax(c, w, text, depth, limit);
    law_layer_is_minimax(d, v, text, depth, other_limit);
}

} // verus!
