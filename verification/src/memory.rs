//! What an engine knows: the numbers that boards are scored with, the boards
//! that were played, and what it remembers of its searches.
use crate::board::Board;
use crate::counts::count_of;
use crate::counts::played_once_more;
use crate::counts::BoardCounts;
use crate::evaluation::in_hash_map;
use crate::evaluation::naive_psqt;
use crate::evaluation::pawn_shape;
use crate::evaluation::pawn_shape_calc;
use crate::evaluation::shapes_coherent;
use crate::evaluation::with_shelter;
use crate::evaluation::NaiveMemos;
use crate::evaluation::Placement;
use crate::evaluation::Weights;
use crate::outcome::TranspositionEntry;
use crate::score::Score;
use crate::search::own_pawns;
use crate::search::pawn_score;
use std::collections::HashMap;
use vstd::hash_map::StringHashMap;
use vstd::prelude::*;

verus! {

broadcast use vstd::std_specs::hash::group_hash_axioms;

/// What an engine knows.
#[verifier::reject_recursive_types(S)]
pub struct Memory<S> {
    weights: Weights<S>,
    transposition_table: StringHashMap<TranspositionEntry<S>>,
    board_played_times: BoardCounts,
    pawn_hash: HashMap<u64, S>,
    naive_psqt_pawn_hash: HashMap<u64, S>,
    naive_psqt_rook_hash: HashMap<u64, S>,
    naive_psqt_king_hash: HashMap<u64, S>,
    naive_psqt_queen_hash: HashMap<u64, S>,
    naive_psqt_knight_hash: HashMap<u64, S>,
    naive_psqt_bishop_hash: HashMap<u64, S>,
}

/// What a [`Memory`] stands for.
#[verifier::ext_equal]
pub struct MemoryView<S> {
    /// The numbers that the evaluation works with.
    pub weights: Weights<S>,
    /// What is remembered of boards.
    pub table: Map<Seq<char>, TranspositionEntry<S>>,
    /// How often each board has been played.
    pub played: Map<Seq<char>, u32>,
    /// What shapes of pawns are worth, as far as it is remembered.
    pub pawn_memo: Map<u64, S>,
    /// The sums of the naive tables that are remembered.
    pub naive_memos: NaiveMemos<S>,
}

impl<S: Score> MemoryView<S> {
    /// The memory of an engine that has not done anything.
    pub open spec fn blank(weights: Weights<S>) -> MemoryView<S> {
        MemoryView {
            weights,
            table: Map::empty(),
            played: Map::empty(),
            pawn_memo: Map::empty(),
            naive_memos: NaiveMemos::empty(),
        }
    }

    /// What is remembered of the evaluation is right.
    pub open spec fn wf(self) -> bool {
        &&& self.naive_memos.coherent(self.weights)
        &&& shapes_coherent(self.pawn_memo)
    }
}

impl<S> View for Memory<S> {
    type V = MemoryView<S>;

    closed spec fn view(&self) -> MemoryView<S> {
        MemoryView {
            weights: self.weights,
            table: self.transposition_table@,
            played: self.board_played_times@,
            pawn_memo: self.pawn_hash@,
            naive_memos: NaiveMemos {
                pawns: self.naive_psqt_pawn_hash@,
                knights: self.naive_psqt_knight_hash@,
                bishops: self.naive_psqt_bishop_hash@,
                rooks: self.naive_psqt_rook_hash@,
                queens: self.naive_psqt_queen_hash@,
                kings: self.naive_psqt_king_hash@,
            },
        }
    }
}

impl<S: Score> Memory<S> {
    /// The memory of an engine that has not done anything.
    pub fn new(weights: Weights<S>) -> (r: Self)
        ensures
            r@ == MemoryView::blank(weights),
    {
        Memory {
            weights,
            transposition_table: StringHashMap::with_capacity(45),
            board_played_times: BoardCounts::new(),
            pawn_hash: HashMap::new(),
            naive_psqt_pawn_hash: HashMap::new(),
            naive_psqt_rook_hash: HashMap::new(),
            naive_psqt_king_hash: HashMap::new(),
            naive_psqt_queen_hash: HashMap::new(),
            naive_psqt_knight_hash: HashMap::new(),
            naive_psqt_bishop_hash: HashMap::new(),
        }
    }

    /// Forgets everything but the numbers.
    pub fn reset(&mut self)
        ensures
            final(self)@ == MemoryView::blank(old(self)@.weights),
    {
        self.transposition_table = StringHashMap::new();
        self.board_played_times = BoardCounts::new();
        self.pawn_hash = HashMap::new();
        self.naive_psqt_pawn_hash = HashMap::new();
        self.naive_psqt_king_hash = HashMap::new();
        self.naive_psqt_queen_hash = HashMap::new();
        self.naive_psqt_bishop_hash = HashMap::new();
        self.naive_psqt_rook_hash = HashMap::new();
        self.naive_psqt_knight_hash = HashMap::new();
    }

    /// The numbers that the evaluation works with.
    pub fn weights(&self) -> (r: &Weights<S>)
        ensures
            *r == self@.weights,
    {
        &self.weights
    }

    /// The sum of the naive tables, each taken from the memory where it is there.
    pub fn naive_psqt_sum(&mut self, p: &Placement) -> (r: S)
        requires
            old(self)@.wf(),
        ensures
            r == naive_psqt(old(self)@.weights, *p),
            final(self)@ == (MemoryView {
                naive_memos: old(self)@.naive_memos.with(old(self)@.weights, *p),
                ..old(self)@
            }),
            final(self)@.wf(),
    {
        let own: u64 = p.own();
        let pawns: S = in_hash_map(
            p.pawns,
            own,
            &self.weights.naive_pawn,
            &mut self.naive_psqt_pawn_hash,
        );
        let rooks: S = in_hash_map(
            p.rooks,
            own,
            &self.weights.naive_rook,
            &mut self.naive_psqt_rook_hash,
        );
        let kings: S = in_hash_map(
            p.kings,
            own,
            &self.weights.naive_king,
            &mut self.naive_psqt_king_hash,
        );
        let queens: S = in_hash_map(
            p.queens,
            own,
            &self.weights.naive_queen,
            &mut self.naive_psqt_queen_hash,
        );
        let bishops: S = in_hash_map(
            p.bishops,
            own,
            &self.weights.naive_bishop,
            &mut self.naive_psqt_bishop_hash,
        );
        let knights: S = in_hash_map(
            p.knights,
            own,
            &self.weights.naive_knight,
            &mut self.naive_psqt_knight_hash,
        );
        S::from_int(0).sum(pawns).sum(rooks).sum(kings).sum(queens).sum(bishops).sum(knights)
    }

    /// The score of the pawn structure. The worth of a shape is taken from the
    /// memory where it is there; the shelter is that of the board.
    pub fn pawn_structure_score(&mut self, p: &Placement) -> (r: S)
        requires
            old(self)@.wf(),
        ensures
            r == pawn_score::<S>(*p),
            final(self)@ == (MemoryView {
                pawn_memo: old(self)@.pawn_memo.insert(own_pawns(*p), pawn_shape(own_pawns(*p))),
                ..old(self)@
            }),
            final(self)@.wf(),
    {
        let key: u64 = p.pawns & p.own();
        let known: Option<S> = match self.pawn_hash.get(&key) {
            Some(shape) => Some(*shape),
            None => None,
        };
        let shape: S = match known {
            Some(shape) => {
                assert(self.pawn_hash@.insert(key, shape) =~= self.pawn_hash@);
                shape
            },
            None => {
                let shape: S = pawn_shape_calc(key);
                self.pawn_hash.insert(key, shape);
                shape
            },
        };
        with_shelter(shape, key, p.kings & p.own())
    }

    /// What is remembered of a board.
    pub fn entry(&self, board: &Board) -> (r: Option<TranspositionEntry<S>>)
        ensures
            r == if self@.table.contains_key(board@) {
                Some(self@.table[board@])
            } else {
                None
            },
    {
        match self.transposition_table.get(board.fen()) {
            Some(entry) => Some(*entry),
            None => None,
        }
    }

    /// Remembers a board.
    pub fn remember(&mut self, board: &Board, entry: TranspositionEntry<S>)
        ensures
            final(self)@ == (MemoryView {
                table: old(self)@.table.insert(board@, entry),
                ..old(self)@
            }),
    {
        self.transposition_table.insert(board.copy().into_fen(), entry);
    }

    /// How many boards are remembered.
    pub fn table_len(&self) -> (r: usize)
        ensures
            r == self@.table.len(),
    {
        self.transposition_table.len()
    }

    /// How often a board has been played.
    pub fn times_played(&self, board: &Board) -> (r: u32)
        ensures
            r == count_of(self@.played, board@),
    {
        self.board_played_times.times(board)
    }

    /// Counts a board that is played and gives the count from before.
    pub fn count_played(&mut self, board: &Board) -> (r: u32)
        ensures
            r == count_of(old(self)@.played, board@),
            final(self)@ == (MemoryView {
                played: played_once_more(old(self)@.played, board@),
                ..old(self)@
            }),
    {
        self.board_played_times.count(board)
    }
}

} // verus!
