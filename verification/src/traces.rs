//! What the modules change, and what they leave alone.
use crate::board::moves_of;
use crate::clock::expired;
use crate::counts::played_once_more;
use crate::deepening::decided;
use crate::deepening::deepened;
use crate::deepening::layer;
use crate::deepening::root;
use crate::deepening::Layer;
use crate::deepening::LAST_DEPTH;
use crate::deepening::START_DEPTH;
use crate::laws::law_search_answers;
use crate::minimax::law_moves_keep_their_order_without_table;
use crate::modules::enabled;
use crate::modules::ALPHA_BETA;
use crate::modules::ANALYZE;
use crate::modules::NAIVE_PSQT;
use crate::modules::PAWN_STRUCTURE;
use crate::modules::SEARCH_EXTENSIONS;
use crate::modules::SKIP_BAD_MOVES;
use crate::modules::SQUARE_CONTROL_METRIC;
use crate::modules::TAPERED_EVERY_PESTO_PSQT;
use crate::modules::TAPERED_INCREMENTAL_PESTO_PSQT;
use crate::modules::TRANSPOSITION_TABLE;
use crate::move_order::CandidateView;
use crate::outcome::blank_stats;
use crate::outcome::Evaluation;
use crate::score::Score;
use crate::search::begun;
use crate::search::child;
use crate::search::explored;
use crate::search::generated;
use crate::search::known_deep_enough;
use crate::search::line_after;
use crate::search::looked_at;
use crate::search::moves_left;
use crate::search::nothing_known;
use crate::search::queue;
use crate::search::searched;
use crate::search::visited;
use crate::search::Line;
use crate::search::Node;
use crate::search::Setup;
use crate::search::World;
use vstd::prelude::*;

verus! {

/// Whether a search left alone what only modules change that are switched off.
pub open spec fn only_own_traces<S>(modules: u32, before: World<S>, after: World<S>) -> bool {
    &&& !enabled(modules, TRANSPOSITION_TABLE) ==> {
        &&& after.table == before.table
        &&& after.stats.transposition_table_entries == before.stats.transposition_table_entries
        &&& after.stats.transposition_table_accesses == before.stats.transposition_table_accesses
    }
    &&& !enabled(modules, PAWN_STRUCTURE) ==> after.pawn_memo == before.pawn_memo
    &&& !enabled(modules, NAIVE_PSQT) ==> after.naive_memos == before.naive_memos
    &&& !enabled(modules, ALPHA_BETA) ==> after.stats.alpha_beta_breaks
        == before.stats.alpha_beta_breaks
}

/// Each module leaves only its own traces: without the table the table and its
/// counters stay as they were, without the pawn structure and the naive tables
/// what is remembered of them, and without pruning the number of breaks.
pub proof fn law_modules_leave_their_own_traces<S: Score>(
    c: Setup<S>,
    w: World<S>,
    n: Node,
    limit: Option<nat>,
    alpha: S,
    beta: S,
    mg: S,
    eg: S,
)
    ensures
        only_own_traces(c.modules, w, searched(c, w, n, limit, alpha, beta, mg, eg).1),
    decreases moves_left(n), 1nat, 0nat,
{
    if n.depth > 0 && moves_of(n.text).len() > 0 {
        if !enabled(c.modules, TRANSPOSITION_TABLE) {
            law_moves_keep_their_order_without_table(c, w.table, n);
        }
        lemma_traces(
            c,
            w,
            n,
            limit,
            queue(c, w.table, n.text),
            0,
            Line { alpha, beta, mg, eg, best: nothing_known() },
        );
    }
}

proof fn lemma_traces<S: Score>(
    c: Setup<S>,
    w: World<S>,
    n: Node,
    limit: Option<nat>,
    moves: Seq<CandidateView<S>>,
    i: nat,
    line: Line<S>,
)
    requires
        n.depth > 0,
        !enabled(c.modules, TRANSPOSITION_TABLE) ==> forall|j: int|
            0 <= j < moves.len() ==> (#[trigger] moves[j]).entry is None,
    ensures
        only_own_traces(c.modules, w, explored(c, w, n, limit, moves, i, line).1),
    decreases moves_left(n), 0nat, moves.len() - i,
{
    if i < moves.len() && !expired(limit, w.asked) {
        let x = moves[i as int];
        let (found, after) = looked_at(c, w, n, limit, moves, i, line);
        if !known_deep_enough(n, x) {
            law_modules_leave_their_own_traces(
                c,
                begun(w, n),
                child(c, n, moves.len(), x),
                limit,
                line.alpha,
                line.beta,
                line.mg,
                line.eg,
            );
        }
        assert(only_own_traces(c.modules, w, after));
        let (next, cut) = line_after(c, n, line, x.chess_move, found);
        if !cut {
            lemma_traces(c, visited(after), n, limit, moves, i + 1, next);
        }
    }
}

/// Without the table a search without a deadline repeats its answer and its
/// statistics, whatever is remembered and however often the clock was asked.
pub proof fn law_search_repeats<S: Score>(
    c: Setup<S>,
    w: World<S>,
    v: World<S>,
    n: Node,
    alpha: S,
    beta: S,
    mg: S,
    eg: S,
)
    requires
        !enabled(c.modules, TRANSPOSITION_TABLE),
        w.stats == v.stats,
    ensures
        ({
            let (found, after) = searched(c, w, n, None, alpha, beta, mg, eg);
            let (again, later) = searched(c, v, n, None, alpha, beta, mg, eg);
            found == again && after.stats == later.stats
        }),
    decreases moves_left(n), 1nat, 0nat,
{
    if n.depth > 0 && moves_of(n.text).len() > 0 {
        law_moves_keep_their_order_without_table(c, w.table, n);
        law_moves_keep_their_order_without_table(c, v.table, n);
        assert(queue(c, w.table, n.text) =~= queue(c, v.table, n.text));
        lemma_repeats(
            c,
            w,
            v,
            n,
            queue(c, w.table, n.text),
            0,
            Line { alpha, beta, mg, eg, best: nothing_known() },
        );
    }
}

proof fn lemma_repeats<S: Score>(
    c: Setup<S>,
    w: World<S>,
    v: World<S>,
    n: Node,
    moves: Seq<CandidateView<S>>,
    i: nat,
    line: Line<S>,
)
    requires
        !enabled(c.modules, TRANSPOSITION_TABLE),
        w.stats == v.stats,
        n.depth > 0,
    ensures
        ({
            let (found, after) = explored(c, w, n, None, moves, i, line);
            let (again, later) = explored(c, v, n, None, moves, i, line);
            found == again && after.stats == later.stats
        }),
    decreases moves_left(n), 0nat, moves.len() - i,
{
    if i < moves.len() {
        let x = moves[i as int];
        if !known_deep_enough(n, x) {
            law_search_repeats(
                c,
                begun(w, n),
                begun(v, n),
                child(c, n, moves.len(), x),
                line.alpha,
                line.beta,
                line.mg,
                line.eg,
            );
        }
        let (found, after) = looked_at(c, w, n, None, moves, i, line);
        let (again, later) = looked_at(c, v, n, None, moves, i, line);
        assert(found == again && after.stats == later.stats);
        let (next, cut) = line_after(c, n, line, x.chess_move, found);
        if !cut {
            lemma_repeats(c, visited(after), visited(later), n, moves, i + 1, next);
        }
    }
}

/// Without the modules that remember, a layer leaves what the engine remembers
/// as it was, and without a deadline a second one finds the same.
pub proof fn law_layer_without_memory_repeats<S: Score>(
    c: Setup<S>,
    w: World<S>,
    text: Seq<char>,
    depth: u32,
)
    requires
        !enabled(c.modules, TRANSPOSITION_TABLE),
        !enabled(c.modules, PAWN_STRUCTURE),
        !enabled(c.modules, NAIVE_PSQT),
    ensures
        ({
            let (first, after) = layer(c, w, text, depth, None);
            &&& after.table == w.table
            &&& after.pawn_memo == w.pawn_memo
            &&& after.naive_memos == w.naive_memos
            &&& layer(c, after, text, depth, None).0 == first
        }),
{
    let (first, after) = layer(c, w, text, depth, None);
    let zero = S::of_int(0);
    let (low, high) = (S::min_value(), S::max_value());
    let start = World { stats: blank_stats(), ..w };
    let again = World { stats: blank_stats(), ..after };
    law_modules_leave_their_own_traces(
        c,
        start,
        root(text, depth),
        None,
        low,
        high,
        zero,
        zero,
    );
    law_search_repeats(c, start, again, root(text, depth), low, high, zero, zero);
}

/// Whether two settings differ in [`ANALYZE`] and [`SKIP_BAD_MOVES`] at most.
pub open spec fn same_but_for_bystanders<S>(c: Setup<S>, d: Setup<S>) -> bool {
    &&& c.weights == d.weights
    &&& c.played == d.played
    &&& c.modules & !(ANALYZE | SKIP_BAD_MOVES) == d.modules & !(ANALYZE | SKIP_BAD_MOVES)
}

/// Whether two evaluations differ in the analysis at most.
pub open spec fn same_but_for_analysis<S>(a: Evaluation<S>, b: Evaluation<S>) -> bool {
    a == (Evaluation { debug_data: a.debug_data, ..b })
}

proof fn lemma_others_agree<S>(c: Setup<S>, d: Setup<S>)
    requires
        same_but_for_bystanders(c, d),
    ensures
        enabled(c.modules, ALPHA_BETA) == enabled(d.modules, ALPHA_BETA),
        enabled(c.modules, TRANSPOSITION_TABLE) == enabled(d.modules, TRANSPOSITION_TABLE),
        enabled(c.modules, SEARCH_EXTENSIONS) == enabled(d.modules, SEARCH_EXTENSIONS),
        enabled(c.modules, SQUARE_CONTROL_METRIC) == enabled(d.modules, SQUARE_CONTROL_METRIC),
        enabled(c.modules, NAIVE_PSQT) == enabled(d.modules, NAIVE_PSQT),
        enabled(c.modules, TAPERED_EVERY_PESTO_PSQT) == enabled(
            d.modules,
            TAPERED_EVERY_PESTO_PSQT,
        ),
        enabled(c.modules, TAPERED_INCREMENTAL_PESTO_PSQT) == enabled(
            d.modules,
            TAPERED_INCREMENTAL_PESTO_PSQT,
        ),
        enabled(c.modules, PAWN_STRUCTURE) == enabled(d.modules, PAWN_STRUCTURE),
{
    let a = c.modules;
    let b = d.modules;
    assert({
        &&& (a & ALPHA_BETA != 0) == (b & ALPHA_BETA != 0)
        &&& (a & TRANSPOSITION_TABLE != 0) == (b & TRANSPOSITION_TABLE != 0)
        &&& (a & SEARCH_EXTENSIONS != 0) == (b & SEARCH_EXTENSIONS != 0)
        &&& (a & SQUARE_CONTROL_METRIC != 0) == (b & SQUARE_CONTROL_METRIC != 0)
        &&& (a & NAIVE_PSQT != 0) == (b & NAIVE_PSQT != 0)
        &&& (a & TAPERED_EVERY_PESTO_PSQT != 0) == (b & TAPERED_EVERY_PESTO_PSQT != 0)
        &&& (a & TAPERED_INCREMENTAL_PESTO_PSQT != 0) == (b & TAPERED_INCREMENTAL_PESTO_PSQT != 0)
        &&& (a & PAWN_STRUCTURE != 0) == (b & PAWN_STRUCTURE != 0)
    }) by (bit_vector)
        requires
            a & !(ANALYZE | SKIP_BAD_MOVES) == b & !(ANALYZE | SKIP_BAD_MOVES),
    ;
}

/// [`ANALYZE`] and [`SKIP_BAD_MOVES`] change neither what a search finds, but
/// for the analysis, nor what it counts and leaves behind.
pub proof fn law_bystanders_change_nothing<S: Score>(
    c: Setup<S>,
    d: Setup<S>,
    w: World<S>,
    n: Node,
    limit: Option<nat>,
    alpha: S,
    beta: S,
    mg: S,
    eg: S,
)
    requires
        same_but_for_bystanders(c, d),
    ensures
        ({
            let (found, after) = searched(c, w, n, limit, alpha, beta, mg, eg);
            let (other, later) = searched(d, w, n, limit, alpha, beta, mg, eg);
            same_but_for_analysis(found, other) && after == later
        }),
    decreases moves_left(n), 1nat, 0nat,
{
    lemma_others_agree(c, d);
    if n.depth > 0 && moves_of(n.text).len() > 0 {
        let count = moves_of(n.text).len();
        assert(generated(c, w.table, n.text, count) =~= generated(d, w.table, n.text, count));
        let line = Line { alpha, beta, mg, eg, best: nothing_known() };
        lemma_bystanders(c, d, w, n, limit, queue(c, w.table, n.text), 0, line, line);
    }
}

proof fn lemma_bystanders<S: Score>(
    c: Setup<S>,
    d: Setup<S>,
    w: World<S>,
    n: Node,
    limit: Option<nat>,
    moves: Seq<CandidateView<S>>,
    i: nat,
    line: Line<S>,
    other_line: Line<S>,
)
    requires
        same_but_for_bystanders(c, d),
        n.depth > 0,
        line == (Line { best: line.best, ..other_line }),
        same_but_for_analysis(line.best, other_line.best),
    ensures
        ({
            let (found, after) = explored(c, w, n, limit, moves, i, line);
            let (other, later) = explored(d, w, n, limit, moves, i, other_line);
            same_but_for_analysis(found, other) && after == later
        }),
    decreases moves_left(n), 0nat, moves.len() - i,
{
    lemma_others_agree(c, d);
    if i < moves.len() && !expired(limit, w.asked) {
        let x = moves[i as int];
        if !known_deep_enough(n, x) {
            law_bystanders_change_nothing(
                c,
                d,
                begun(w, n),
                child(c, n, moves.len(), x),
                limit,
                line.alpha,
                line.beta,
                line.mg,
                line.eg,
            );
            assert(child(c, n, moves.len(), x) == child(d, n, moves.len(), x));
        }
        let (found, after) = looked_at(c, w, n, limit, moves, i, line);
        let (other, later) = looked_at(d, w, n, limit, moves, i, other_line);
        assert(same_but_for_analysis(found, other) && after == later);
        let (next, cut) = line_after(c, n, line, x.chess_move, found);
        let (other_next, other_cut) = line_after(d, n, other_line, x.chess_move, other);
        assert(cut == other_cut);
        assert(same_but_for_analysis(next.best, other_next.best));
        if !cut {
            lemma_bystanders(c, d, visited(after), n, limit, moves, i + 1, next, other_next);
        }
    }
}

/// A layer during which the deadline does not pass is analysed if and only if
/// [`ANALYZE`] is switched on, it looks ahead and there is a legal move.
pub proof fn law_layer_is_analysed<S: Score>(
    c: Setup<S>,
    w: World<S>,
    text: Seq<char>,
    depth: u32,
    limit: Option<nat>,
)
    requires
        !expired(limit, layer(c, w, text, depth, limit).1.asked),
    ensures
        layer(c, w, text, depth, limit).0.analysis is Some <==> enabled(c.modules, ANALYZE) && depth
            > 0 && moves_of(text).len() > 0,
{
    let n = root(text, depth);
    let start = World { stats: blank_stats(), ..w };
    let zero = S::of_int(0);
    let (low, high) = (S::min_value(), S::max_value());
    law_search_answers(c, start, n, limit, low, high, zero, zero);
    if depth > 0 && moves_of(text).len() > 0 {
        lemma_analysed(
            c,
            start,
            n,
            limit,
            queue(c, w.table, text),
            0,
            Line { alpha: low, beta: high, mg: zero, eg: zero, best: nothing_known() },
        );
    }
}

proof fn lemma_analysed<S: Score>(
    c: Setup<S>,
    w: World<S>,
    n: Node,
    limit: Option<nat>,
    moves: Seq<CandidateView<S>>,
    i: nat,
    line: Line<S>,
)
    requires
        n.original,
        n.depth > 0,
        line.best.debug_data is Some <==> enabled(c.modules, ANALYZE) && line.best.eval is Some,
        line.best.eval is Some ==> line.best.next_action is Some
            && line.best.next_action->Some_0 is MakeMove,
    ensures
        ({
            let (found, _) = explored(c, w, n, limit, moves, i, line);
            found.debug_data is Some <==> enabled(c.modules, ANALYZE) && found.eval is Some
        }),
    decreases moves.len() - i,
{
    if i < moves.len() && !expired(limit, w.asked) {
        let (found, after) = looked_at(c, w, n, limit, moves, i, line);
        let (next, cut) = line_after(c, n, line, moves[i as int].chess_move, found);
        if !cut {
            lemma_analysed(c, visited(after), n, limit, moves, i + 1, next);
        }
    }
}

proof fn lemma_deepening_is_analysed<S: Score>(
    c: Setup<S>,
    w: World<S>,
    text: Seq<char>,
    depth: u32,
    best: Layer<S>,
    limit: Option<nat>,
)
    requires
        START_DEPTH < depth <= LAST_DEPTH + 1,
        best.analysis is Some <==> enabled(c.modules, ANALYZE) && moves_of(text).len() > 0,
    ensures
        deepened(c, w, text, depth, best, limit).0.analysis is Some <==> enabled(
            c.modules,
            ANALYZE,
        ) && moves_of(text).len() > 0,
    decreases LAST_DEPTH + 1 - depth,
{
    if depth <= LAST_DEPTH {
        let (latest, after) = layer(c, w, text, depth, limit);
        if !expired(limit, after.asked) {
            law_layer_is_analysed(c, w, text, depth, limit);
            let asked = World { asked: after.asked + 1, ..after };
            lemma_deepening_is_analysed(c, asked, text, (depth + 1) as u32, latest, limit);
        }
    }
}

/// A decision is analysed if and only if [`ANALYZE`] is switched on and there is
/// a legal move, whenever the deadline passes.
pub proof fn law_decision_is_analysed<S: Score>(
    c: Setup<S>,
    w: World<S>,
    text: Seq<char>,
    limit: Option<nat>,
)
    ensures
        decided(c, w, text, limit).analysis is Some <==> enabled(c.modules, ANALYZE) && moves_of(
            text,
        ).len() > 0,
{
    let counted = Setup { played: played_once_more(c.played, text), ..c };
    let start = World { asked: 0, ..w };
    let (first, begun) = layer(counted, start, text, START_DEPTH, None);
    law_layer_is_analysed(counted, start, text, START_DEPTH, None);
    lemma_deepening_is_analysed(
        counted,
        World { asked: w.asked, ..begun },
        text,
        (START_DEPTH + 1) as u32,
        first,
        limit,
    );
}

} // verus!
