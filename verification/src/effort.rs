//! How much a search looks at, how deep it goes and how far it gets.
use crate::board::moves_of;
use crate::clock::expired;
use crate::counts::played_once_more;
use crate::deepening::decided;
use crate::deepening::deepened;
use crate::deepening::layer;
use crate::deepening::root;
use crate::deepening::Layer;
use crate::deepening::LAST_DEPTH;
use crate::deepening::START_DEPTH;
use crate::minimax::law_material_lies_within_mates;
use crate::minimax::law_moves_keep_their_order_without_table;
use crate::minimax::law_pruning_keeps_value_and_move;
use crate::minimax::lemma_other_modules_agree;
use crate::minimax::plain_candidate;
use crate::minimax::same_but_for_pruning;
use crate::minimax::scores_material_only;
use crate::modules::enabled;
use crate::modules::ALPHA_BETA;
use crate::modules::SEARCH_EXTENSIONS;
use crate::modules::TRANSPOSITION_TABLE;
use crate::move_order::law_order_keeps_candidates;
use crate::move_order::CandidateView;
use crate::outcome::blank_stats;
use crate::score::magnitude;
use crate::score::Fixed;
use crate::score::Score;
use crate::score::STEPS_PER_PAWN;
use crate::search::begun;
use crate::search::child;
use crate::search::explored;
use crate::search::generated;
use crate::search::known_deep_enough;
use crate::search::line_after;
use crate::search::looked_at;
use crate::search::maximises;
use crate::search::moves_left;
use crate::search::nothing_known;
use crate::search::queue;
use crate::search::searched;
use crate::search::share_searched;
use crate::search::visited;
use crate::search::Line;
use crate::search::Node;
use crate::search::Setup;
use crate::search::World;
use crate::traces::law_modules_leave_their_own_traces;
use vstd::arithmetic::div_mod::lemma_fundamental_div_mod;
use vstd::arithmetic::div_mod::lemma_mod_bound;
use vstd::prelude::*;

verus! {

/// The size of the tree below a node that is searched without leaving out
/// anything.
pub struct TreeSize {
    /// The boards that are scored without looking ahead.
    pub leaves: nat,
    /// The moves that are looked at.
    pub nodes: nat,
}

/// The size of the tree below a node.
pub open spec fn tree_size<S: Score>(c: Setup<S>, n: Node) -> TreeSize
    decreases moves_left(n), 1nat, 0nat,
{
    if n.depth == 0 {
        TreeSize { leaves: 1, nodes: 0 }
    } else {
        size_from(c, n, 0)
    }
}

/// The size of the tree below the moves of a node from the `i`th on.
pub open spec fn size_from<S: Score>(c: Setup<S>, n: Node, i: nat) -> TreeSize
    decreases moves_left(n), 0nat, moves_of(n.text).len() - i,
{
    let count = moves_of(n.text).len();
    if n.depth == 0 || i >= count {
        TreeSize { leaves: 0, nodes: 0 }
    } else {
        let here = tree_size(c, child(c, n, count, plain_candidate::<S>(n, i as int)));
        let others = size_from(c, n, i + 1);
        TreeSize { leaves: here.leaves + others.leaves, nodes: here.nodes + 1 + others.nodes }
    }
}

/// Whether the counters of a search can count a tree.
pub open spec fn can_count<S>(w: World<S>, size: TreeSize) -> bool {
    &&& w.stats.leaves_visited + size.leaves <= u64::MAX
    &&& w.stats.nodes_visited + size.nodes <= u64::MAX
}

/// Whether a search counted at most a tree, or all of it.
pub open spec fn counted_within<S>(
    before: World<S>,
    after: World<S>,
    size: TreeSize,
    whole: bool,
) -> bool {
    &&& before.stats.leaves_visited <= after.stats.leaves_visited
    &&& after.stats.leaves_visited <= before.stats.leaves_visited + size.leaves
    &&& before.stats.nodes_visited <= after.stats.nodes_visited
    &&& after.stats.nodes_visited <= before.stats.nodes_visited + size.nodes
    &&& whole ==> after.stats.leaves_visited == before.stats.leaves_visited + size.leaves
        && after.stats.nodes_visited == before.stats.nodes_visited + size.nodes
}

/// A search without the table visits no more than the tree below its node, and
/// without [`ALPHA_BETA`] all of it where the deadline does not pass. This is as
/// far as the counters reach.
pub proof fn law_search_visits_the_tree<S: Score>(
    c: Setup<S>,
    w: World<S>,
    n: Node,
    limit: Option<nat>,
    alpha: S,
    beta: S,
    mg: S,
    eg: S,
)
    requires
        !enabled(c.modules, TRANSPOSITION_TABLE),
        can_count(w, tree_size(c, n)),
    ensures
        ({
            let after = searched(c, w, n, limit, alpha, beta, mg, eg).1;
            &&& after.asked >= w.asked
            &&& counted_within(
                w,
                after,
                tree_size(c, n),
                !enabled(c.modules, ALPHA_BETA) && !expired(limit, after.asked),
            )
        }),
    decreases moves_left(n), 1nat, 0nat,
{
    if n.depth > 0 && moves_of(n.text).len() > 0 {
        law_moves_keep_their_order_without_table(c, w.table, n);
        lemma_visits(
            c,
            w,
            n,
            limit,
            queue(c, w.table, n.text),
            0,
            Line { alpha, beta, mg, eg, best: nothing_known() },
        );
    }
}

proof fn lemma_visits<S: Score>(
    c: Setup<S>,
    w: World<S>,
    n: Node,
    limit: Option<nat>,
    moves: Seq<CandidateView<S>>,
    i: nat,
    line: Line<S>,
)
    requires
        !enabled(c.modules, TRANSPOSITION_TABLE),
        n.depth > 0,
        i <= moves.len(),
        moves.len() == moves_of(n.text).len(),
        forall|j: int| 0 <= j < moves.len() ==> #[trigger] moves[j] == plain_candidate::<S>(n, j),
        can_count(w, size_from(c, n, i)),
    ensures
        ({
            let after = explored(c, w, n, limit, moves, i, line).1;
            &&& after.asked >= w.asked
            &&& counted_within(
                w,
                after,
                size_from(c, n, i),
                !enabled(c.modules, ALPHA_BETA) && !expired(limit, after.asked),
            )
        }),
    decreases moves_left(n), 0nat, moves.len() - i,
{
    if i < moves.len() && !expired(limit, w.asked) {
        let x = moves[i as int];
        assert(x == plain_candidate::<S>(n, i as int));
        let next_node = child(c, n, moves.len(), x);
        law_search_visits_the_tree(
            c,
            begun(w, n),
            next_node,
            limit,
            line.alpha,
            line.beta,
            line.mg,
            line.eg,
        );
        let (found, after) = looked_at(c, w, n, limit, moves, i, line);
        assert(counted_within(
            w,
            after,
            tree_size(c, next_node),
            !enabled(c.modules, ALPHA_BETA) && !expired(limit, after.asked),
        ));
        let (next, cut) = line_after(c, n, line, x.chess_move, found);
        if !cut {
            lemma_visits(c, visited(after), n, limit, moves, i + 1, next);
        }
    }
}

/// The size of the tree does not depend on [`ALPHA_BETA`].
pub proof fn law_tree_ignores_pruning<S: Score>(c: Setup<S>, d: Setup<S>, n: Node)
    requires
        same_but_for_pruning(c, d),
    ensures
        tree_size(c, n) == tree_size(d, n),
    decreases moves_left(n), 1nat, 0nat,
{
    if n.depth > 0 {
        lemma_sizes_agree(c, d, n, 0);
    }
}

proof fn lemma_sizes_agree<S: Score>(c: Setup<S>, d: Setup<S>, n: Node, i: nat)
    requires
        same_but_for_pruning(c, d),
        n.depth > 0,
    ensures
        size_from(c, n, i) == size_from(d, n, i),
    decreases moves_left(n), 0nat, moves_of(n.text).len() - i,
{
    let count = moves_of(n.text).len();
    if i < count {
        assert(SEARCH_EXTENSIONS & ALPHA_BETA == 0) by (bit_vector);
        lemma_other_modules_agree(c, d, SEARCH_EXTENSIONS);
        let next = child(c, n, count, plain_candidate::<S>(n, i as int));
        assert(next == child(d, n, count, plain_candidate::<S>(n, i as int)));
        law_tree_ignores_pruning(c, d, next);
        lemma_sizes_agree(c, d, n, i + 1);
    }
}

/// Pruning saves work: a search with [`ALPHA_BETA`] visits no more leaves and no
/// more nodes than one without it during which the deadline does not pass.
pub proof fn law_pruning_saves_work<S: Score>(
    c: Setup<S>,
    d: Setup<S>,
    w: World<S>,
    v: World<S>,
    n: Node,
    limit: Option<nat>,
    other_limit: Option<nat>,
    alpha: S,
    beta: S,
    mg: S,
    eg: S,
)
    requires
        same_but_for_pruning(c, d),
        !enabled(c.modules, ALPHA_BETA),
        !enabled(c.modules, TRANSPOSITION_TABLE),
        w.stats == v.stats,
        can_count(w, tree_size(c, n)),
        !expired(limit, searched(c, w, n, limit, alpha, beta, mg, eg).1.asked),
    ensures
        ({
            let whole = searched(c, w, n, limit, alpha, beta, mg, eg).1.stats;
            let pruned = searched(d, v, n, other_limit, alpha, beta, mg, eg).1.stats;
            &&& pruned.leaves_visited <= whole.leaves_visited
            &&& pruned.nodes_visited <= whole.nodes_visited
        }),
{
    assert(TRANSPOSITION_TABLE & ALPHA_BETA == 0) by (bit_vector);
    lemma_other_modules_agree(c, d, TRANSPOSITION_TABLE);
    law_tree_ignores_pruning(c, d, n);
    law_search_visits_the_tree(c, w, n, limit, alpha, beta, mg, eg);
    law_search_visits_the_tree(d, v, n, other_limit, alpha, beta, mg, eg);
}

/// Pruning changes only the work: where boards are scored by the material alone,
/// two searches from the window between the mates that differ in [`ALPHA_BETA`]
/// find the same value and the same move, and the one with it visits no more
/// leaves and nodes. The one without it has no breaks.
pub proof fn law_pruning_changes_only_the_work<S: Score>(
    c: Setup<S>,
    d: Setup<S>,
    w: World<S>,
    v: World<S>,
    n: Node,
    mg: S,
    eg: S,
)
    requires
        same_but_for_pruning(c, d),
        !enabled(c.modules, ALPHA_BETA),
        !enabled(c.modules, TRANSPOSITION_TABLE),
        scores_material_only(c.modules),
        w.stats == v.stats,
        can_count(w, tree_size(c, n)),
    ensures
        ({
            let (low, high) = (S::min_value(), S::max_value());
            let (found, after) = searched(c, w, n, None, low, high, mg, eg);
            let (pruned, later) = searched(d, v, n, None, low, high, mg, eg);
            &&& pruned.eval == found.eval
            &&& pruned.next_action == found.next_action
            &&& later.stats.leaves_visited <= after.stats.leaves_visited
            &&& later.stats.nodes_visited <= after.stats.nodes_visited
            &&& after.stats.alpha_beta_breaks == w.stats.alpha_beta_breaks
        }),
{
    let (low, high) = (S::min_value(), S::max_value());
    law_material_lies_within_mates(c, n, mg, eg);
    law_pruning_keeps_value_and_move(c, d, w, v, n, None, None, low, high, mg, eg);
    law_pruning_saves_work(c, d, w, v, n, None, None, low, high, mg, eg);
    law_modules_leave_their_own_traces(c, w, n, None, low, high, mg, eg);
}

/// The larger of two depths.
pub open spec fn deeper(a: u32, b: u32) -> u32 {
    if b > a {
        b
    } else {
        a
    }
}

/// The largest depth becomes that of the node where a move of it is looked at,
/// if it was smaller, and else stays as it was: no node below is deeper.
pub proof fn law_largest_depth_is_that_of_the_node<S: Score>(
    c: Setup<S>,
    w: World<S>,
    n: Node,
    limit: Option<nat>,
    alpha: S,
    beta: S,
    mg: S,
    eg: S,
)
    ensures
        searched(c, w, n, limit, alpha, beta, mg, eg).1.stats.max_depth == if n.depth > 0
            && moves_of(n.text).len() > 0 && !expired(limit, w.asked) {
            deeper(w.stats.max_depth, n.depth)
        } else {
            w.stats.max_depth
        },
    decreases moves_left(n), 1nat, 0nat,
{
    if n.depth > 0 && moves_of(n.text).len() > 0 {
        law_order_keeps_candidates(
            maximises(n.text),
            generated(c, w.table, n.text, moves_of(n.text).len()),
        );
        lemma_largest_depth(
            c,
            w,
            n,
            limit,
            queue(c, w.table, n.text),
            0,
            Line { alpha, beta, mg, eg, best: nothing_known() },
        );
    }
}

proof fn lemma_largest_depth<S: Score>(
    c: Setup<S>,
    w: World<S>,
    n: Node,
    limit: Option<nat>,
    moves: Seq<CandidateView<S>>,
    i: nat,
    line: Line<S>,
)
    requires
        n.depth > 0,
    ensures
        explored(c, w, n, limit, moves, i, line).1.stats.max_depth == if i < moves.len()
            && !expired(limit, w.asked) {
            deeper(w.stats.max_depth, n.depth)
        } else {
            w.stats.max_depth
        },
    decreases moves_left(n), 0nat, moves.len() - i,
{
    if i < moves.len() && !expired(limit, w.asked) {
        let x = moves[i as int];
        if !known_deep_enough(n, x) {
            law_largest_depth_is_that_of_the_node(
                c,
                begun(w, n),
                child(c, n, moves.len(), x),
                limit,
                line.alpha,
                line.beta,
                line.mg,
                line.eg,
            );
        }
        let (found, after) = looked_at(c, w, n, limit, moves, i, line);
        let (next, cut) = line_after(c, n, line, x.chess_move, found);
        if !cut {
            lemma_largest_depth(c, visited(after), n, limit, moves, i + 1, next);
        }
    }
}

/// The share of a layer that was searched is reported only where the deadline
/// has passed: a search during which it does not pass leaves it as it was.
pub proof fn law_progress_is_for_stopped_searches<S: Score>(
    c: Setup<S>,
    w: World<S>,
    n: Node,
    limit: Option<nat>,
    alpha: S,
    beta: S,
    mg: S,
    eg: S,
)
    ensures
        ({
            let after = searched(c, w, n, limit, alpha, beta, mg, eg).1;
            &&& after.asked >= w.asked
            &&& !expired(limit, after.asked) ==> after.stats.progress_on_next_layer
                == w.stats.progress_on_next_layer
        }),
    decreases moves_left(n), 1nat, 0nat,
{
    if n.depth > 0 && moves_of(n.text).len() > 0 {
        lemma_progress(
            c,
            w,
            n,
            limit,
            queue(c, w.table, n.text),
            0,
            Line { alpha, beta, mg, eg, best: nothing_known() },
        );
    }
}

pub proof fn lemma_progress<S: Score>(
    c: Setup<S>,
    w: World<S>,
    n: Node,
    limit: Option<nat>,
    moves: Seq<CandidateView<S>>,
    i: nat,
    line: Line<S>,
)
    requires
        n.depth > 0,
    ensures
        ({
            let after = explored(c, w, n, limit, moves, i, line).1;
            &&& after.asked >= w.asked
            &&& !expired(limit, after.asked) ==> after.stats.progress_on_next_layer
                == w.stats.progress_on_next_layer
        }),
    decreases moves_left(n), 0nat, moves.len() - i,
{
    if i < moves.len() && !expired(limit, w.asked) {
        let x = moves[i as int];
        if !known_deep_enough(n, x) {
            law_progress_is_for_stopped_searches(
                c,
                begun(w, n),
                child(c, n, moves.len(), x),
                limit,
                line.alpha,
                line.beta,
                line.mg,
                line.eg,
            );
        }
        let (found, after) = looked_at(c, w, n, limit, moves, i, line);
        let (next, cut) = line_after(c, n, line, x.chess_move, found);
        if !cut {
            lemma_progress(c, visited(after), n, limit, moves, i + 1, next);
        }
    }
}

/// Whether a fixed-point score is a share: at least 0 and less than 1.
pub open spec fn is_share(score: Fixed) -> bool {
    0 <= score.steps < STEPS_PER_PAWN
}

proof fn lemma_quotient(x: int, d: int) -> (q: int)
    requires
        0 <= x,
        d > 0,
    ensures
        q == x / d,
        0 <= q,
        q * d <= x,
{
    lemma_fundamental_div_mod(x, d);
    lemma_mod_bound(x, d);
    let q = x / d;
    assert(q * d <= x) by (nonlinear_arith)
        requires
            x == d * q + x % d,
            0 <= x % d,
    ;
    assert(0 <= q) by (nonlinear_arith)
        requires
            0 <= x == d * q + x % d,
            x % d < d,
            d > 0,
    ;
    q
}

/// The share of a layer that was searched is a share, where fixed-point scores
/// can hold the number of moves.
proof fn lemma_share(below: Fixed, i: nat, n: nat)
    requires
        is_share(below),
        i < n <= u32::MAX,
    ensures
        is_share(share_searched(below, i, n)),
{
    let one = STEPS_PER_PAWN as int;
    let b = below.steps as int;
    let before = if i == 0 {
        0int
    } else {
        i - 1
    };
    let q = lemma_quotient(one * one, n * one);
    assert(q * n <= one) by (nonlinear_arith)
        requires
            q * (n * one) <= one * one,
            one == 78000,
    ;
    assert(q <= one) by (nonlinear_arith)
        requires
            q * n <= one,
            n >= 1,
            q >= 0,
    ;
    assert(b * q >= 0) by (nonlinear_arith)
        requires
            b >= 0,
            q >= 0,
    ;
    let p = lemma_quotient(b * q, one);
    assert(p * n <= b) by (nonlinear_arith)
        requires
            p * one <= b * q,
            q * n <= one,
            b >= 0,
            n >= 1,
            one == 78000,
    ;
    assert((before * one) * one >= 0) by (nonlinear_arith)
        requires
            before >= 0,
            one == 78000,
    ;
    let t = lemma_quotient((before * one) * one, n * one);
    assert(t * n <= before * one) by (nonlinear_arith)
        requires
            t * (n * one) <= (before * one) * one,
            one == 78000,
    ;
    assert(p + t < one) by (nonlinear_arith)
        requires
            p * n <= b,
            t * n <= before * one,
            b < one,
            before <= n - 1,
            before + 1 < n || before == 0,
            n >= 1,
            one == 78000,
            t >= 0,
            p >= 0,
    ;
    assert(magnitude(one) == one && magnitude(n * one) == n * one && magnitude(b) == b && magnitude(
        q,
    ) == q && magnitude(before * one) == before * one);
    let unit = Fixed::of_int(1).over(Fixed::of_int(n as i64));
    assert(unit.steps == q);
    assert(below.times(unit).steps == p);
    assert(Fixed::of_int(before as i64).over(Fixed::of_int(n as i64)).steps == t);
}

/// The share of a layer that was searched is at least 0 and less than 1, with
/// fixed-point scores, where these can hold the numbers of moves.
pub proof fn law_progress_is_a_share(
    c: Setup<Fixed>,
    w: World<Fixed>,
    n: Node,
    limit: Option<nat>,
    alpha: Fixed,
    beta: Fixed,
    mg: Fixed,
    eg: Fixed,
)
    requires
        is_share(w.stats.progress_on_next_layer),
        forall|text: Seq<char>| #[trigger] moves_of(text).len() <= u32::MAX,
    ensures
        is_share(
            searched(c, w, n, limit, alpha, beta, mg, eg).1.stats.progress_on_next_layer,
        ),
    decreases moves_left(n), 1nat, 0nat,
{
    if n.depth > 0 && moves_of(n.text).len() > 0 {
        law_order_keeps_candidates(
            maximises(n.text),
            generated(c, w.table, n.text, moves_of(n.text).len()),
        );
        lemma_progress_is_a_share(
            c,
            w,
            n,
            limit,
            queue(c, w.table, n.text),
            0,
            Line { alpha, beta, mg, eg, best: nothing_known() },
        );
    }
}

proof fn lemma_progress_is_a_share(
    c: Setup<Fixed>,
    w: World<Fixed>,
    n: Node,
    limit: Option<nat>,
    moves: Seq<CandidateView<Fixed>>,
    i: nat,
    line: Line<Fixed>,
)
    requires
        n.depth > 0,
        moves.len() <= u32::MAX,
        is_share(w.stats.progress_on_next_layer),
        forall|text: Seq<char>| #[trigger] moves_of(text).len() <= u32::MAX,
    ensures
        is_share(
            explored(c, w, n, limit, moves, i, line).1.stats.progress_on_next_layer,
        ),
    decreases moves_left(n), 0nat, moves.len() - i,
{
    if i < moves.len() {
        if expired(limit, w.asked) {
            lemma_share(w.stats.progress_on_next_layer, i, moves.len());
        } else {
            let x = moves[i as int];
            if !known_deep_enough(n, x) {
                law_progress_is_a_share(
                    c,
                    begun(w, n),
                    child(c, n, moves.len(), x),
                    limit,
                    line.alpha,
                    line.beta,
                    line.mg,
                    line.eg,
                );
            }
            let (found, after) = looked_at(c, w, n, limit, moves, i, line);
            let (next, cut) = line_after(c, n, line, x.chess_move, found);
            if !cut {
                lemma_progress_is_a_share(c, visited(after), n, limit, moves, i + 1, next);
            }
        }
    }
}

proof fn lemma_layer_progress(
    c: Setup<Fixed>,
    w: World<Fixed>,
    text: Seq<char>,
    depth: u32,
    limit: Option<nat>,
)
    requires
        forall|text: Seq<char>| #[trigger] moves_of(text).len() <= u32::MAX,
    ensures
        is_share(layer(c, w, text, depth, limit).0.stats.progress_on_next_layer),
{
    law_progress_is_a_share(
        c,
        World { stats: blank_stats(), ..w },
        root(text, depth),
        limit,
        Fixed::min_value(),
        Fixed::max_value(),
        Fixed::of_int(0),
        Fixed::of_int(0),
    );
}

proof fn lemma_deepening_progress(
    c: Setup<Fixed>,
    w: World<Fixed>,
    text: Seq<char>,
    depth: u32,
    best: Layer<Fixed>,
    limit: Option<nat>,
)
    requires
        START_DEPTH < depth <= LAST_DEPTH + 1,
        is_share(best.stats.progress_on_next_layer),
        forall|text: Seq<char>| #[trigger] moves_of(text).len() <= u32::MAX,
    ensures
        is_share(
            deepened(c, w, text, depth, best, limit).0.stats.progress_on_next_layer,
        ),
    decreases LAST_DEPTH + 1 - depth,
{
    if depth <= LAST_DEPTH {
        let (latest, after) = layer(c, w, text, depth, limit);
        lemma_layer_progress(c, w, text, depth, limit);
        if !expired(limit, after.asked) {
            let asked = World { asked: after.asked + 1, ..after };
            lemma_deepening_progress(c, asked, text, (depth + 1) as u32, latest, limit);
        }
    }
}

/// The share of the next layer that a decision reports is at least 0 and less
/// than 1, with fixed-point scores, where these can hold the numbers of moves.
pub proof fn law_decision_reports_a_share(
    c: Setup<Fixed>,
    w: World<Fixed>,
    text: Seq<char>,
    limit: Option<nat>,
)
    requires
        forall|text: Seq<char>| #[trigger] moves_of(text).len() <= u32::MAX,
    ensures
        is_share(decided(c, w, text, limit).stats.progress_on_next_layer),
{
    let counted = Setup { played: played_once_more(c.played, text), ..c };
    let start = World { asked: 0, ..w };
    let (first, begun) = layer(counted, start, text, START_DEPTH, None);
    lemma_layer_progress(counted, start, text, START_DEPTH, None);
    lemma_deepening_progress(
        counted,
        World { asked: w.asked, ..begun },
        text,
        (START_DEPTH + 1) as u32,
        first,
        limit,
    );
}

} // verus!
