//! The order in which the moves of a node are looked at.
use crate::board::Board;
use crate::board::ChessMove;
use crate::outcome::TranspositionEntry;
use crate::score::Score;
use vstd::prelude::*;

verus! {

/// A move with the board that it leads to and what is remembered of that board.
pub struct Candidate<S> {
    pub chess_move: ChessMove,
    pub board: Board,
    pub entry: Option<TranspositionEntry<S>>,
}

/// What a [`Candidate`] stands for.
pub struct CandidateView<S> {
    pub chess_move: ChessMove,
    pub text: Seq<char>,
    pub entry: Option<TranspositionEntry<S>>,
}

impl<S> View for Candidate<S> {
    type V = CandidateView<S>;

    open spec fn view(&self) -> CandidateView<S> {
        CandidateView { chess_move: self.chess_move, text: self.board@, entry: self.entry }
    }
}

/// The candidates that a sequence stands for.
pub open spec fn candidates<S>(s: Seq<Candidate<S>>) -> Seq<CandidateView<S>> {
    s.map_values(|c: Candidate<S>| c@)
}

/// The score that a candidate is ordered by: the one that is remembered, else 0.
pub open spec fn rank<S: Score>(c: CandidateView<S>) -> S {
    match c.entry {
        Some(entry) => entry.eval,
        None => S::of_int(0),
    }
}

/// Whether one candidate is to be looked at before another: high scores come
/// first for the side that wants a high score, low scores for the other.
pub open spec fn goes_before<S: Score>(
    maximise: bool,
    a: CandidateView<S>,
    b: CandidateView<S>,
) -> bool {
    if maximise {
        rank(b).below(rank(a))
    } else {
        rank(a).below(rank(b))
    }
}

/// An ordered sequence with one more candidate, behind those that it does not
/// go before.
pub open spec fn placed<S: Score>(
    maximise: bool,
    s: Seq<CandidateView<S>>,
    x: CandidateView<S>,
) -> Seq<CandidateView<S>>
    decreases s.len(),
{
    if s.len() == 0 || !goes_before(maximise, x, s.last()) {
        s.push(x)
    } else {
        placed(maximise, s.drop_last(), x).push(s.last())
    }
}

/// The candidates in the order in which they are looked at.
pub open spec fn ordered<S: Score>(
    maximise: bool,
    s: Seq<CandidateView<S>>,
) -> Seq<CandidateView<S>>
    decreases s.len(),
{
    if s.len() == 0 {
        s
    } else {
        placed(maximise, ordered(maximise, s.drop_last()), s.last())
    }
}

/// Placing a candidate inserts it before those that it goes before.
proof fn lemma_placed_is_insert<S: Score>(
    maximise: bool,
    s: Seq<CandidateView<S>>,
    x: CandidateView<S>,
    at: int,
)
    requires
        0 <= at <= s.len(),
        forall|j: int| at <= j < s.len() ==> goes_before(maximise, x, #[trigger] s[j]),
        at == 0 || !goes_before(maximise, x, s[at - 1]),
    ensures
        placed(maximise, s, x) == s.insert(at, x),
    decreases s.len(),
{
    if at == s.len() {
        assert(s.insert(at, x) =~= s.push(x));
    } else {
        assert(goes_before(maximise, x, s[s.len() - 1]));
        lemma_placed_is_insert(maximise, s.drop_last(), x, at);
        assert(s.insert(at, x) =~= s.drop_last().insert(at, x).push(s.last()));
    }
}

fn rank_of<S: Score>(c: &Candidate<S>) -> (r: S)
    ensures
        r == rank(c@),
{
    match c.entry {
        Some(entry) => entry.eval,
        None => S::from_int(0),
    }
}

fn comes_before<S: Score>(maximise: bool, a: &Candidate<S>, b: &Candidate<S>) -> (r: bool)
    ensures
        r == goes_before(maximise, a@, b@),
{
    if maximise {
        rank_of(b).less_than(rank_of(a))
    } else {
        rank_of(a).less_than(rank_of(b))
    }
}

/// Puts a candidate in its place among ordered ones.
pub fn place<S: Score>(maximise: bool, v: &mut Vec<Candidate<S>>, x: Candidate<S>)
    ensures
        candidates(final(v)@) == placed(maximise, candidates(old(v)@), x@),
        exists|at: int|
            0 <= at <= old(v)@.len() && final(v)@ == #[trigger] old(v)@.insert(at, x),
{
    let mut at: usize = v.len();
    while at > 0 && comes_before(maximise, &x, &v[at - 1])
        invariant
            at <= v@.len(),
            v@ == old(v)@,
            forall|j: int| at <= j < v@.len() ==> goes_before(maximise, x@, #[trigger] v@[j]@),
        ensures
            at <= v@.len(),
            v@ == old(v)@,
            forall|j: int| at <= j < v@.len() ==> goes_before(maximise, x@, #[trigger] v@[j]@),
            at == 0 || !goes_before(maximise, x@, v@[at - 1]@),
        decreases at,
    {
        at = at - 1;
    }
    let ghost view = x@;
    proof {
        let s = candidates(v@);
        assert forall|j: int| at <= j < s.len() implies goes_before(
            maximise,
            x@,
            #[trigger] s[j],
        ) by {
            assert(s[j] == v@[j]@);
        }
        lemma_placed_is_insert(maximise, s, x@, at as int);
    }
    let ghost placed_at = old(v)@.insert(at as int, x);
    v.insert(at, x);
    assert(v@ == placed_at);
    assert(candidates(v@) =~= candidates(old(v)@).insert(at as int, view));
}

/// A placed candidate stands behind those that it does not go before and ahead
/// of the others, which keep their order.
proof fn lemma_placed<S: Score>(
    maximise: bool,
    s: Seq<CandidateView<S>>,
    x: CandidateView<S>,
) -> (at: int)
    ensures
        0 <= at <= s.len(),
        placed(maximise, s, x) == s.insert(at, x),
        forall|j: int| at <= j < s.len() ==> goes_before(maximise, x, #[trigger] s[j]),
        at == 0 || !goes_before(maximise, x, s[at - 1]),
    decreases s.len(),
{
    if s.len() == 0 || !goes_before(maximise, x, s.last()) {
        assert(s.push(x) =~= s.insert(s.len() as int, x));
        s.len() as int
    } else {
        let rest = s.drop_last();
        let at = lemma_placed(maximise, rest, x);
        assert(rest.insert(at, x).push(s.last()) =~= s.insert(at, x));
        assert forall|j: int| at <= j < s.len() implies goes_before(
            maximise,
            x,
            #[trigger] s[j],
        ) by {
            if j < rest.len() {
                assert(s[j] == rest[j]);
            }
        }
        at
    }
}

/// Every legal move is looked at as often as it was generated: ordering the
/// candidates adds none and leaves none out.
pub proof fn law_order_keeps_candidates<S: Score>(maximise: bool, s: Seq<CandidateView<S>>)
    ensures
        ordered(maximise, s).len() == s.len(),
        ordered(maximise, s).to_multiset() == s.to_multiset(),
    decreases s.len(),
{
    broadcast use vstd::seq_lib::group_to_multiset_ensures;

    if s.len() > 0 {
        let rest = s.drop_last();
        law_order_keeps_candidates(maximise, rest);
        let o = ordered(maximise, rest);
        let at = lemma_placed(maximise, o, s.last());
        let with = o.insert(at, s.last());
        assert(with.remove(at) =~= o);
        assert(with[at] == s.last());
        assert(with.contains(s.last()));
        vstd::seq_lib::to_multiset_remove(with, at);
        assert(with.to_multiset() =~= o.to_multiset().insert(s.last()));
        assert(rest.push(s.last()) =~= s);
    }
}

/// No candidate is looked at after one that it goes before: the best scores
/// that are remembered come first.
pub proof fn law_order_is_sorted<S: Score>(maximise: bool, s: Seq<CandidateView<S>>)
    ensures
        forall|i: int, j: int|
            0 <= i < j < s.len() ==> !goes_before(
                maximise,
                #[trigger] ordered(maximise, s)[j],
                #[trigger] ordered(maximise, s)[i],
            ),
    decreases s.len(),
{
    if s.len() > 0 {
        let rest = s.drop_last();
        law_order_is_sorted(maximise, rest);
        law_order_keeps_candidates(maximise, rest);
        let o = ordered(maximise, rest);
        let x = s.last();
        let at = lemma_placed(maximise, o, x);
        let with = o.insert(at, x);
        assert forall|i: int, j: int| 0 <= i < j < s.len() implies !goes_before(
            maximise,
            #[trigger] with[j],
            #[trigger] with[i],
        ) by {
            if goes_before(maximise, with[j], with[i]) {
                let (low, high) = if maximise {
                    (rank(with[i]), rank(with[j]))
                } else {
                    (rank(with[j]), rank(with[i]))
                };
                if j == at {
                    // What stands before `at` goes no later than the last of it.
                    let last = rank(o[at - 1]);
                    S::below_is_cotransitive(low, last, high);
                    assert(with[i] == o[i]);
                    assert(!goes_before(maximise, x, o[at - 1]));
                    if i < at - 1 {
                        assert(!goes_before(maximise, o[at - 1], o[i]));
                    }
                } else if i == at {
                    assert(with[j] == o[j - 1]);
                    assert(goes_before(maximise, x, o[j - 1]));
                    S::below_is_asymmetric(low, high);
                } else {
                    let a = if i < at {
                        i
                    } else {
                        i - 1
                    };
                    let b = if j < at {
                        j
                    } else {
                        j - 1
                    };
                    assert(with[i] == o[a] && with[j] == o[b]);
                    assert(!goes_before(maximise, o[b], o[a]));
                }
            }
        }
    }
}

/// Whether a candidate is ordered by a score that is neither above nor below
/// the one given.
pub open spec fn tied<S: Score>(score: S, c: CandidateView<S>) -> bool {
    !rank(c).below(score) && !score.below(rank(c))
}

proof fn lemma_placed_after_ties<S: Score>(
    maximise: bool,
    s: Seq<CandidateView<S>>,
    x: CandidateView<S>,
    score: S,
)
    ensures
        placed(maximise, s, x).filter(|c: CandidateView<S>| tied(score, c)) == if tied(score, x) {
            s.filter(|c: CandidateView<S>| tied(score, c)).push(x)
        } else {
            s.filter(|c: CandidateView<S>| tied(score, c))
        },
    decreases s.len(),
{
    reveal(Seq::filter);
    if s.len() == 0 || !goes_before(maximise, x, s.last()) {
        assert(s.push(x).drop_last() =~= s);
    } else {
        let rest = s.drop_last();
        lemma_placed_after_ties(maximise, rest, x, score);
        assert(placed(maximise, rest, x).push(s.last()).drop_last() =~= placed(maximise, rest, x));
        if tied(score, x) && tied(score, s.last()) {
            if maximise {
                S::below_is_cotransitive(rank(s.last()), score, rank(x));
            } else {
                S::below_is_cotransitive(rank(x), score, rank(s.last()));
            }
        }
    }
}

/// Candidates with the same score are looked at in the order in which they were
/// generated.
pub proof fn law_order_is_stable<S: Score>(maximise: bool, s: Seq<CandidateView<S>>, score: S)
    ensures
        ordered(maximise, s).filter(|c: CandidateView<S>| tied(score, c)) == s.filter(
            |c: CandidateView<S>| tied(score, c),
        ),
    decreases s.len(),
{
    reveal(Seq::filter);
    if s.len() > 0 {
        law_order_is_stable(maximise, s.drop_last(), score);
        lemma_placed_after_ties(maximise, ordered(maximise, s.drop_last()), s.last(), score);
    }
}

} // verus!
