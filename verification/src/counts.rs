//! How often boards occur.
use crate::board::Board;
use vstd::hash_map::StringHashMap;
use vstd::prelude::*;

verus! {

/// How often a board is counted.
pub open spec fn count_of(counts: Map<Seq<char>, u32>, text: Seq<char>) -> u32 {
    if counts.contains_key(text) {
        counts[text]
    } else {
        0
    }
}

/// The counts with one more occurrence of a board.
pub open spec fn played_once_more(
    played: Map<Seq<char>, u32>,
    text: Seq<char>,
) -> Map<Seq<char>, u32> {
    played.insert(text, count_of(played, text).wrapping_add(1))
}

/// The counts as a function of the board.
pub open spec fn counts(counts: Map<Seq<char>, u32>) -> spec_fn(Seq<char>) -> u32 {
    |text: Seq<char>| count_of(counts, text)
}

/// The counts with one more occurrence of a board.
pub open spec fn counted_once_more(
    predicted: spec_fn(Seq<char>) -> u32,
    board: Seq<char>,
) -> spec_fn(Seq<char>) -> u32 {
    |text: Seq<char>|
        if text == board {
            predicted(text).wrapping_add(1)
        } else {
            predicted(text)
        }
}

/// Whether a board is counted once more.
pub open spec fn counted_more(
    before: Map<Seq<char>, u32>,
    after: Map<Seq<char>, u32>,
    text: Seq<char>,
) -> bool {
    count_of(after, text) == count_of(before, text).wrapping_add(1)
}

/// Whether of all boards only one, and another where it is given, are counted
/// once more.
pub open spec fn counts_only(
    before: Map<Seq<char>, u32>,
    after: Map<Seq<char>, u32>,
    text: Seq<char>,
    next: Option<Seq<char>>,
) -> bool {
    forall|board: Seq<char>|
        if board == text || Some(board) == next {
            counted_more(before, after, board)
        } else {
            #[trigger] count_of(after, board) == count_of(before, board)
        }
}

/// Counts of boards. A count starts again at 0 after its largest value.
pub struct BoardCounts {
    counts: StringHashMap<u32>,
}

impl View for BoardCounts {
    type V = Map<Seq<char>, u32>;

    closed spec fn view(&self) -> Map<Seq<char>, u32> {
        self.counts@
    }
}

impl BoardCounts {
    /// Counts in which no board occurs.
    pub fn new() -> (r: BoardCounts)
        ensures
            r@ == Map::<Seq<char>, u32>::empty(),
    {
        BoardCounts { counts: StringHashMap::new() }
    }

    /// How often a board occurs.
    pub fn times(&self, board: &Board) -> (r: u32)
        ensures
            r == count_of(self@, board@),
    {
        match self.counts.get(board.fen()) {
            Some(count) => *count,
            None => 0,
        }
    }

    /// Counts a board once more and gives the count from before.
    pub fn count(&mut self, board: &Board) -> (r: u32)
        ensures
            r == count_of(old(self)@, board@),
            final(self)@ == played_once_more(old(self)@, board@),
            counts(final(self)@) == counted_once_more(counts(old(self)@), board@),
    {
        let times: u32 = self.times(board);
        self.counts.insert(board.copy().into_fen(), times.wrapping_add(1));
        assert(counts(self@) =~= counted_once_more(counts(old(self)@), board@));
        times
    }

    /// Counts a board once less.
    pub fn take_back(&mut self, board: &Board)
        ensures
            final(self)@ == old(self)@.insert(
                board@,
                count_of(old(self)@, board@).wrapping_sub(1),
            ),
    {
        let times: u32 = self.times(board);
        self.counts.insert(board.copy().into_fen(), times.wrapping_sub(1));
    }
}

/// Taking back an occurrence gives the counts from before it was counted.
pub proof fn law_take_back_restores(
    before: Map<Seq<char>, u32>,
    during: Map<Seq<char>, u32>,
    board: Seq<char>,
)
    requires
        counts(during) == counted_once_more(counts(before), board),
    ensures
        counts(during.insert(board, count_of(during, board).wrapping_sub(1))) == counts(before),
{
    let after = during.insert(board, count_of(during, board).wrapping_sub(1));
    assert forall|text: Seq<char>| #[trigger] count_of(after, text) == count_of(before, text) by {
        let middle = counts(during);
        let earlier = counts(before);
        let between = counted_once_more(earlier, board);
        assert(middle(text) == count_of(during, text));
        assert(earlier(text) == count_of(before, text));
        assert(middle(text) == between(text));
    }
    assert(counts(after) =~= counts(before));
}

} // verus!
