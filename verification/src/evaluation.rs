//! The static evaluation: what a board is worth without looking ahead.
use crate::bits::bit;
use crate::bits::count_bits;
use crate::bits::lemma_count_bound;
use crate::bits::mirror;
use crate::bits::reverse_colors;
use crate::board::men_of;
use crate::board::pieces_of;
use crate::board::side_of;
use crate::board::Board;
use crate::board::Color;
use crate::board::Piece;
use crate::modules::enabled;
use crate::modules::module_enabled;
use crate::modules::SQUARE_CONTROL_METRIC;
use crate::modules::TAPERED_EVERY_PESTO_PSQT;
use crate::modules::TAPERED_INCREMENTAL_PESTO_PSQT;
use crate::score::larger;
use crate::score::max_score;
use crate::score::Score;
use std::collections::HashMap;
use vstd::prelude::*;

verus! {

broadcast use vstd::std_specs::hash::group_hash_axioms;

/// What the pieces are worth, in pawns.
#[derive(Clone, Copy, Debug)]
pub struct PieceValues {
    pub pawn: u16,
    pub knight: u16,
    pub bishop: u16,
    pub rook: u16,
    pub queen: u16,
    pub king: u16,
}

impl PieceValues {
    /// The value of a kind of piece.
    pub open spec fn value(self, piece: Piece) -> u16 {
        match piece {
            Piece::Pawn => self.pawn,
            Piece::Knight => self.knight,
            Piece::Bishop => self.bishop,
            Piece::Rook => self.rook,
            Piece::Queen => self.queen,
            Piece::King => self.king,
        }
    }
}

/// The value of a kind of piece.
pub fn piece_value(values: &PieceValues, piece: Piece) -> (r: u32)
    ensures
        r == values.value(piece),
{
    match piece {
        Piece::Pawn => values.pawn as u32,
        Piece::Knight => values.knight as u32,
        Piece::Bishop => values.bishop as u32,
        Piece::Rook => values.rook as u32,
        Piece::Queen => values.queen as u32,
        Piece::King => values.king as u32,
    }
}

/// A bonus for each square, as seen by a player who looks at the board from the
/// first rank: the eighth rank comes first.
pub type SquareTable<S> = [S; 64];

/// The numbers that the evaluation works with.
#[derive(Copy)]
pub struct Weights<S> {
    pub piece_values: PieceValues,
    pub naive_pawn: SquareTable<S>,
    pub naive_knight: SquareTable<S>,
    pub naive_bishop: SquareTable<S>,
    pub naive_rook: SquareTable<S>,
    pub naive_queen: SquareTable<S>,
    pub naive_king: SquareTable<S>,
    pub middlegame: [SquareTable<S>; 6],
    pub endgame: [SquareTable<S>; 6],
}

impl<S: Copy> Clone for Weights<S> {
    fn clone(&self) -> (r: Self)
        ensures
            r == *self,
    {
        *self
    }
}

/// Where the pieces of a board stand and whose turn it is.
#[derive(Clone, Copy, Debug, PartialEq, Eq, Structural)]
pub struct Placement {
    pub pawns: u64,
    pub knights: u64,
    pub bishops: u64,
    pub rooks: u64,
    pub queens: u64,
    pub kings: u64,
    pub white: u64,
    pub black: u64,
    pub side: Color,
}

impl Placement {
    /// The squares with a kind of piece.
    pub open spec fn kind(self, piece: Piece) -> u64 {
        match piece {
            Piece::Pawn => self.pawns,
            Piece::Knight => self.knights,
            Piece::Bishop => self.bishops,
            Piece::Rook => self.rooks,
            Piece::Queen => self.queens,
            Piece::King => self.kings,
        }
    }

    /// The squares with a piece of the side to move.
    pub open spec fn own_men(self) -> u64 {
        match self.side {
            Color::White => self.white,
            Color::Black => self.black,
        }
    }

    /// The squares with a piece of the side to move.
    pub fn own(&self) -> (r: u64)
        ensures
            r == self.own_men(),
    {
        match self.side {
            Color::White => self.white,
            Color::Black => self.black,
        }
    }

    /// The squares with a kind of piece.
    pub fn of_kind(&self, piece: Piece) -> (r: u64)
        ensures
            r == self.kind(piece),
    {
        match piece {
            Piece::Pawn => self.pawns,
            Piece::Knight => self.knights,
            Piece::Bishop => self.bishops,
            Piece::Rook => self.rooks,
            Piece::Queen => self.queens,
            Piece::King => self.kings,
        }
    }

    /// Reads the placement of a board.
    pub fn of_board(board: &Board) -> (r: Placement)
        ensures
            r == placement_of(board@),
    {
        Placement {
            pawns: board.pieces(Piece::Pawn),
            knights: board.pieces(Piece::Knight),
            bishops: board.pieces(Piece::Bishop),
            rooks: board.pieces(Piece::Rook),
            queens: board.pieces(Piece::Queen),
            kings: board.pieces(Piece::King),
            white: board.color_combined(Color::White),
            black: board.color_combined(Color::Black),
            side: board.side_to_move(),
        }
    }
}

/// The placement of a board.
pub open spec fn placement_of(text: Seq<char>) -> Placement {
    Placement {
        pawns: pieces_of(text, Piece::Pawn),
        knights: pieces_of(text, Piece::Knight),
        bishops: pieces_of(text, Piece::Bishop),
        rooks: pieces_of(text, Piece::Rook),
        queens: pieces_of(text, Piece::Queen),
        kings: pieces_of(text, Piece::King),
        white: men_of(text, Color::White),
        black: men_of(text, Color::Black),
        side: side_of(text),
    }
}

/// What the pieces of one kind among some men are worth.
pub open spec fn kind_material(values: PieceValues, p: Placement, men: u64, piece: Piece) -> int {
    count_bits(p.kind(piece) & men) * values.value(piece)
}

/// What a set of men is worth, kings included.
pub open spec fn material(values: PieceValues, p: Placement, men: u64) -> int {
    kind_material(values, p, men, Piece::Pawn) + kind_material(values, p, men, Piece::Knight)
        + kind_material(values, p, men, Piece::Bishop) + kind_material(values, p, men, Piece::Rook)
        + kind_material(values, p, men, Piece::Queen) + kind_material(values, p, men, Piece::King)
}

fn kind_material_of(values: &PieceValues, p: &Placement, men: u64, piece: Piece) -> (r: u32)
    ensures
        r == kind_material(*values, *p, men, piece),
        r <= 64 * 0xFFFF,
{
    let count: u32 = (p.of_kind(piece) & men).count_ones();
    let value: u32 = piece_value(values, piece);
    proof {
        lemma_count_bound(p.kind(piece) & men, 64);
    }
    assert(count * value <= 64 * 0xFFFF) by (nonlinear_arith)
        requires
            count <= 64,
            value <= 0xFFFF,
    ;
    count * value
}

fn material_of(values: &PieceValues, p: &Placement, men: u64) -> (r: u32)
    ensures
        r == material(*values, *p, men),
        r <= 6 * 64 * 0xFFFF,
{
    kind_material_of(values, p, men, Piece::Pawn) + kind_material_of(
        values,
        p,
        men,
        Piece::Knight,
    ) + kind_material_of(values, p, men, Piece::Bishop) + kind_material_of(
        values,
        p,
        men,
        Piece::Rook,
    ) + kind_material_of(values, p, men, Piece::Queen) + kind_material_of(
        values,
        p,
        men,
        Piece::King,
    )
}

/// What the men of White and those of Black are worth.
pub fn material_each_side(values: &PieceValues, p: &Placement) -> (r: (u32, u32))
    ensures
        r.0 == material(*values, *p, p.white),
        r.1 == material(*values, *p, p.black),
        r.0 <= 6 * 64 * 0xFFFF,
        r.1 <= 6 * 64 * 0xFFFF,
{
    (material_of(values, p, p.white), material_of(values, p, p.black))
}

/// The sum of the first `n` entries of a table, each taken where a piece stands
/// on the mirrored square: the tables start with the eighth rank.
pub open spec fn table_sum<S: Score>(table: Seq<S>, bits: u64, n: nat) -> S
    decreases n,
{
    if n == 0 {
        S::of_int(0)
    } else {
        table_sum(table, bits, (n - 1) as nat).plus(
            S::of_int(bit(bits, mirror(n - 1)) as i64).times(table[n - 1]),
        )
    }
}

fn table_sum_of<S: Score>(table: &SquareTable<S>, bits: u64, n: usize) -> (r: S)
    requires
        n <= 64,
    ensures
        r == table_sum(table@, bits, n as nat),
{
    let reversed: u64 = reverse_colors(bits);
    let mut bonus: S = S::from_int(0);
    let mut i: usize = 0;
    while i < n
        invariant
            i <= n <= 64,
            forall|square: int|
                0 <= square < 64 ==> #[trigger] bit(reversed, square) == bit(bits, mirror(square)),
            bonus == table_sum(table@, bits, i as nat),
        decreases n - i,
    {
        let here: u64 = (reversed >> (i as u64)) & 1;
        assert(here == bit(reversed, i as int));
        bonus = bonus.sum(S::from_int(here as i64).product(table[i]));
        i = i + 1;
    }
    bonus
}

/// The entries of a table for the pieces of one kind and one side.
pub fn naive_psqt_calc<S: Score>(
    naive_psqt_table: &SquareTable<S>,
    piece_bitboard: u64,
    color_bitboard: u64,
) -> (r: S)
    ensures
        r == table_sum(naive_psqt_table@, piece_bitboard & color_bitboard, 64),
{
    table_sum_of(naive_psqt_table, piece_bitboard & color_bitboard, 64)
}

/// Whether every remembered sum is the one that the table gives.
pub open spec fn coherent<S: Score>(memo: Map<u64, S>, table: Seq<S>) -> bool {
    forall|bits: u64| #[trigger]
        memo.contains_key(bits) ==> memo[bits] == table_sum(table, bits, 64)
}

/// Whether every remembered shape of pawns is worth what is remembered.
pub open spec fn shapes_coherent<S: Score>(memo: Map<u64, S>) -> bool {
    forall|pawns: u64| #[trigger]
        memo.contains_key(pawns) ==> memo[pawns] == pawn_shape::<S>(pawns)
}

/// The sums of the naive tables that are remembered, by kind of piece.
#[verifier::ext_equal]
pub struct NaiveMemos<S> {
    pub pawns: Map<u64, S>,
    pub knights: Map<u64, S>,
    pub bishops: Map<u64, S>,
    pub rooks: Map<u64, S>,
    pub queens: Map<u64, S>,
    pub kings: Map<u64, S>,
}

impl<S: Score> NaiveMemos<S> {
    /// No sum is remembered.
    pub open spec fn empty() -> NaiveMemos<S> {
        NaiveMemos {
            pawns: Map::empty(),
            knights: Map::empty(),
            bishops: Map::empty(),
            rooks: Map::empty(),
            queens: Map::empty(),
            kings: Map::empty(),
        }
    }

    /// Whether every remembered sum is the one that its table gives.
    pub open spec fn coherent(self, weights: Weights<S>) -> bool {
        &&& coherent(self.pawns, weights.naive_pawn@)
        &&& coherent(self.knights, weights.naive_knight@)
        &&& coherent(self.bishops, weights.naive_bishop@)
        &&& coherent(self.rooks, weights.naive_rook@)
        &&& coherent(self.queens, weights.naive_queen@)
        &&& coherent(self.kings, weights.naive_king@)
    }

    /// The sums that are remembered once the pieces of a board were scored.
    pub open spec fn with(self, weights: Weights<S>, p: Placement) -> NaiveMemos<S> {
        NaiveMemos {
            pawns: with_sum(self.pawns, weights.naive_pawn@, p.pawns & p.own_men()),
            knights: with_sum(self.knights, weights.naive_knight@, p.knights & p.own_men()),
            bishops: with_sum(self.bishops, weights.naive_bishop@, p.bishops & p.own_men()),
            rooks: with_sum(self.rooks, weights.naive_rook@, p.rooks & p.own_men()),
            queens: with_sum(self.queens, weights.naive_queen@, p.queens & p.own_men()),
            kings: with_sum(self.kings, weights.naive_king@, p.kings & p.own_men()),
        }
    }
}

/// The remembered sums of a table with that of a set of squares.
pub open spec fn with_sum<S: Score>(memo: Map<u64, S>, table: Seq<S>, bits: u64) -> Map<u64, S> {
    memo.insert(bits, table_sum(table, bits, 64))
}

/// The sum of a table for the pieces of one kind and one side, taken from the
/// memory where it is there, else computed and remembered.
pub fn in_hash_map<S: Score>(
    piece_bitboard: u64,
    color_bitboard: u64,
    naive_psqt_table: &SquareTable<S>,
    naive_psqt_hash_map: &mut HashMap<u64, S>,
) -> (r: S)
    requires
        coherent(old(naive_psqt_hash_map)@, naive_psqt_table@),
    ensures
        r == table_sum(naive_psqt_table@, piece_bitboard & color_bitboard, 64),
        final(naive_psqt_hash_map)@ == old(naive_psqt_hash_map)@.insert(
            piece_bitboard & color_bitboard,
            r,
        ),
        coherent(final(naive_psqt_hash_map)@, naive_psqt_table@),
{
    let key: u64 = piece_bitboard & color_bitboard;
    let known: Option<S> = match naive_psqt_hash_map.get(&key) {
        Some(bonus) => Some(*bonus),
        None => None,
    };
    match known {
        Some(bonus) => {
            assert(naive_psqt_hash_map@.insert(key, bonus) =~= naive_psqt_hash_map@);
            bonus
        },
        None => {
            let bonus: S = naive_psqt_calc(naive_psqt_table, piece_bitboard, color_bitboard);
            naive_psqt_hash_map.insert(key, bonus);
            bonus
        },
    }
}

/// The entries of a tapered table for the pieces of the side to move.
pub open spec fn tapered_psqt<S: Score>(
    weights: Weights<S>,
    p: Placement,
    piece: Piece,
    middlegame: bool,
) -> S {
    let tables = if middlegame {
        weights.middlegame
    } else {
        weights.endgame
    };
    table_sum(tables[piece.index()]@, p.kind(piece) & p.own_men(), 64)
}

/// The entries of a tapered table for the pieces of the side to move.
pub fn tapered_psqt_calc<S: Score>(
    weights: &Weights<S>,
    p: &Placement,
    piece: Piece,
    mg_eg: bool,
) -> (r: S)
    ensures
        r == tapered_psqt(*weights, *p, piece, mg_eg),
{
    let bits: u64 = p.of_kind(piece) & p.own();
    let index: usize = piece.to_index();
    if mg_eg {
        table_sum_of(&weights.middlegame[index], bits, 64)
    } else {
        table_sum_of(&weights.endgame[index], bits, 64)
    }
}

/// The sum of the tapered tables of one phase for the pieces of the side to
/// move, kings left out.
pub open spec fn tapered_sum<S: Score>(
    weights: Weights<S>,
    p: Placement,
    middlegame: bool,
) -> S {
    S::of_int(0).plus(tapered_psqt(weights, p, Piece::Pawn, middlegame)).plus(
        tapered_psqt(weights, p, Piece::Knight, middlegame),
    ).plus(tapered_psqt(weights, p, Piece::Bishop, middlegame)).plus(
        tapered_psqt(weights, p, Piece::Rook, middlegame),
    ).plus(tapered_psqt(weights, p, Piece::Queen, middlegame))
}

fn tapered_sum_of<S: Score>(weights: &Weights<S>, p: &Placement, mg_eg: bool) -> (r: S)
    ensures
        r == tapered_sum(*weights, *p, mg_eg),
{
    S::from_int(0).sum(tapered_psqt_calc(weights, p, Piece::Pawn, mg_eg)).sum(
        tapered_psqt_calc(weights, p, Piece::Knight, mg_eg),
    ).sum(tapered_psqt_calc(weights, p, Piece::Bishop, mg_eg)).sum(
        tapered_psqt_calc(weights, p, Piece::Rook, mg_eg),
    ).sum(tapered_psqt_calc(weights, p, Piece::Queen, mg_eg))
}

/// The sum of both tapered tables, kind by kind, for the pieces of the side to
/// move, kings left out.
pub open spec fn both_phases<S: Score>(weights: Weights<S>, p: Placement) -> S {
    S::of_int(0).plus(tapered_psqt(weights, p, Piece::Pawn, true)).plus(
        tapered_psqt(weights, p, Piece::Pawn, false),
    ).plus(tapered_psqt(weights, p, Piece::Knight, true)).plus(
        tapered_psqt(weights, p, Piece::Knight, false),
    ).plus(tapered_psqt(weights, p, Piece::Bishop, true)).plus(
        tapered_psqt(weights, p, Piece::Bishop, false),
    ).plus(tapered_psqt(weights, p, Piece::Rook, true)).plus(
        tapered_psqt(weights, p, Piece::Rook, false),
    ).plus(tapered_psqt(weights, p, Piece::Queen, true)).plus(
        tapered_psqt(weights, p, Piece::Queen, false),
    )
}

fn both_phases_of<S: Score>(weights: &Weights<S>, p: &Placement) -> (r: S)
    ensures
        r == both_phases(*weights, *p),
{
    S::from_int(0).sum(tapered_psqt_calc(weights, p, Piece::Pawn, true)).sum(
        tapered_psqt_calc(weights, p, Piece::Pawn, false),
    ).sum(tapered_psqt_calc(weights, p, Piece::Knight, true)).sum(
        tapered_psqt_calc(weights, p, Piece::Knight, false),
    ).sum(tapered_psqt_calc(weights, p, Piece::Bishop, true)).sum(
        tapered_psqt_calc(weights, p, Piece::Bishop, false),
    ).sum(tapered_psqt_calc(weights, p, Piece::Rook, true)).sum(
        tapered_psqt_calc(weights, p, Piece::Rook, false),
    ).sum(tapered_psqt_calc(weights, p, Piece::Queen, true)).sum(
        tapered_psqt_calc(weights, p, Piece::Queen, false),
    )
}

/// What the two sums carried along a line become with one more move: the
/// tables of the side that moves are added for White and taken away for Black.
/// The second sum stays as it is but for the rounding of adding a signed zero.
pub open spec fn carried<S: Score>(weights: Weights<S>, p: Placement, mg: S, eg: S) -> (S, S) {
    let multiplier = S::of_int(
        match p.side {
            Color::White => 1,
            Color::Black => (-1int) as i64,
        },
    );
    (
        mg.plus(both_phases(weights, p).times(multiplier)),
        eg.plus(S::of_int(0).times(multiplier)),
    )
}

/// Carries the two sums along a line by one move.
pub fn carry<S: Score>(weights: &Weights<S>, p: &Placement, mg: S, eg: S) -> (r: (S, S))
    ensures
        r == carried(*weights, *p, mg, eg),
{
    let multiplier: S = S::from_int(
        match p.side {
            Color::White => 1,
            Color::Black => -1,
        },
    );
    (
        mg.sum(both_phases_of(weights, p).product(multiplier)),
        eg.sum(S::from_int(0).product(multiplier)),
    )
}

/// One half.
pub open spec fn half<S: Score>() -> S {
    S::of_int(1).over(S::of_int(2))
}

/// How many pawns are protected by a pawn, those protected twice counted twice.
pub open spec fn chained_pawns(pawns: u64) -> nat {
    count_bits(pawns & 0xFEFE_FEFE_FEFE_FEFE & (pawns << 9)) + count_bits(
        pawns & 0x7F7F_7F7F_7F7F_7F7F & (pawns << 7),
    )
}

/// How many pawns stand on a file, the files being numbered from the H file.
pub open spec fn pawns_on_file(pawns: u64, file: int) -> nat {
    count_bits(pawns & (0x8080_8080_8080_8080u64 >> (file as u64)))
}

/// How many pawns shelter the king: with the king on G1 those on F2, G2, H2 and
/// H3, with the king on C1 those on A2, B2, C2 and A3.
pub open spec fn sheltering_pawns(pawns: u64, kings: u64) -> nat {
    count_bits(kings & 0x40) * count_bits(pawns & 0x80_E000) + count_bits(kings & 0x4)
        * count_bits(pawns & 0x1_0700)
}

/// A pawn is counted as chained where a pawn of its side stands behind it on the
/// file to the left, and again where one does on the file to the right, and the
/// edges of the board do not meet.
pub proof fn law_chains_are_protections(pawns: u64, square: int)
    requires
        0 <= square < 64,
    ensures
        bit(pawns & 0xFEFE_FEFE_FEFE_FEFE & (pawns << 9), square) == 1 <==> bit(pawns, square) == 1
            && square % 8 > 0 && square >= 8 && bit(pawns, square - 9) == 1,
        bit(pawns & 0x7F7F_7F7F_7F7F_7F7F & (pawns << 7), square) == 1 <==> bit(pawns, square) == 1
            && square % 8 < 7 && square >= 8 && bit(pawns, square - 7) == 1,
{
    let s = square as u64;
    assert(((pawns & 0xFEFE_FEFE_FEFE_FEFE & (pawns << 9)) >> s) & 1 == 1 <==> (pawns >> s) & 1
        == 1 && s % 8 > 0 && s >= 8 && (pawns >> ((s - 9) as u64)) & 1 == 1) by (bit_vector)
        requires
            s < 64,
    ;
    assert(((pawns & 0x7F7F_7F7F_7F7F_7F7F & (pawns << 7)) >> s) & 1 == 1 <==> (pawns >> s) & 1
        == 1 && s % 8 < 7 && s >= 8 && (pawns >> ((s - 7) as u64)) & 1 == 1) by (bit_vector)
        requires
            s < 64,
    ;
}

/// The pawns that are counted for a file are those on it.
pub proof fn law_stacks_are_files(pawns: u64, file: int, square: int)
    requires
        0 <= file < 8,
        0 <= square < 64,
    ensures
        bit(pawns & (0x8080_8080_8080_8080u64 >> (file as u64)), square) == 1 <==> bit(
            pawns,
            square,
        ) == 1 && square % 8 == 7 - file,
{
    let s = square as u64;
    let f = file as u64;
    assert(((pawns & (0x8080_8080_8080_8080u64 >> f)) >> s) & 1 == 1 <==> (pawns >> s) & 1 == 1 && s
        % 8 == 7 - f) by (bit_vector)
        requires
            s < 64,
            f < 8,
    ;
}

/// The bonus for chained pawns less half a point for each pawn but one on the
/// first `n` files, counted from the H file.
pub open spec fn chains_and_stacks<S: Score>(pawns: u64, n: nat) -> S
    decreases n,
{
    if n == 0 {
        S::of_int(0).plus(half::<S>().times(S::of_int(chained_pawns(pawns) as i64)))
    } else {
        chains_and_stacks::<S>(pawns, (n - 1) as nat).minus(
            half::<S>().times(
                larger(
                    S::of_int(pawns_on_file(pawns, n - 1) as i64).minus(S::of_int(1)),
                    S::of_int(0),
                ),
            ),
        )
    }
}

/// How the pawns of a side stand wherever the king is: half a point for each
/// protection of a pawn by a pawn and half a point less for each further pawn on
/// a file.
pub open spec fn pawn_shape<S: Score>(pawns: u64) -> S {
    chains_and_stacks(pawns, 8)
}

/// How the pawns of a side stand: their shape, and a point for each pawn that
/// shelters the king.
pub open spec fn pawn_structure<S: Score>(pawns: u64, kings: u64) -> S {
    pawn_shape::<S>(pawns).plus(S::of_int(sheltering_pawns(pawns, kings) as i64))
}

/// How the pawns of a side stand wherever the king is.
pub fn pawn_shape_calc<S: Score>(pawns: u64) -> (r: S)
    ensures
        r == pawn_shape::<S>(pawns),
{
    let half: S = S::from_int(1).quotient(S::from_int(2));
    proof {
        lemma_count_bound(pawns & 0xFEFE_FEFE_FEFE_FEFE & (pawns << 9), 64);
        lemma_count_bound(pawns & 0x7F7F_7F7F_7F7F_7F7F & (pawns << 7), 64);
    }
    let chained: u32 = (pawns & 0xFEFE_FEFE_FEFE_FEFE & (pawns << 9)).count_ones() + (pawns
        & 0x7F7F_7F7F_7F7F_7F7F & (pawns << 7)).count_ones();
    let mut bonus: S = S::from_int(0).sum(half.product(S::from_int(chained as i64)));
    let mut file: u64 = 0;
    while file < 8
        invariant
            file <= 8,
            half == crate::evaluation::half::<S>(),
            bonus == chains_and_stacks::<S>(pawns, file as nat),
        decreases 8 - file,
    {
        let count: u32 = (pawns & (0x8080_8080_8080_8080u64 >> file)).count_ones();
        bonus = bonus.difference(
            half.product(
                max_score(S::from_int(count as i64).difference(S::from_int(1)), S::from_int(0)),
            ),
        );
        file = file + 1;
    }
    bonus
}

/// Adds the pawns that shelter the king to what their shape is worth.
pub fn with_shelter<S: Score>(shape: S, pawns: u64, kings: u64) -> (r: S)
    ensures
        r == shape.plus(S::of_int(sheltering_pawns(pawns, kings) as i64)),
{
    proof {
        lemma_count_bound(kings & 0x40, 64);
        lemma_count_bound(kings & 0x4, 64);
        lemma_count_bound(pawns & 0x80_E000, 64);
        lemma_count_bound(pawns & 0x1_0700, 64);
    }
    let king_side: u32 = (kings & 0x40).count_ones();
    let king_pawns: u32 = (pawns & 0x80_E000).count_ones();
    let queen_side: u32 = (kings & 0x4).count_ones();
    let queen_pawns: u32 = (pawns & 0x1_0700).count_ones();
    assert(king_side * king_pawns <= 4096) by (nonlinear_arith)
        requires
            king_side <= 64,
            king_pawns <= 64,
    ;
    assert(queen_side * queen_pawns <= 4096) by (nonlinear_arith)
        requires
            queen_side <= 64,
            queen_pawns <= 64,
    ;
    shape.sum(S::from_int((king_side * king_pawns + queen_side * queen_pawns) as i64))
}

/// How the pawns of a side stand.
pub fn pawn_structure_calc<S: Score>(
    all_pawn_bitboard: u64,
    color_bitboard: u64,
    all_king_bitboard: u64,
) -> (r: S)
    ensures
        r == pawn_structure::<S>(
            all_pawn_bitboard & color_bitboard,
            all_king_bitboard & color_bitboard,
        ),
{
    let pawns: u64 = all_pawn_bitboard & color_bitboard;
    with_shelter(pawn_shape_calc(pawns), pawns, all_king_bitboard & color_bitboard)
}

/// The sum of the naive tables over the pieces of the side to move.
pub open spec fn naive_psqt<S: Score>(weights: Weights<S>, p: Placement) -> S {
    let own = p.own_men();
    S::of_int(0).plus(table_sum(weights.naive_pawn@, p.pawns & own, 64)).plus(
        table_sum(weights.naive_rook@, p.rooks & own, 64),
    ).plus(table_sum(weights.naive_king@, p.kings & own, 64)).plus(
        table_sum(weights.naive_queen@, p.queens & own, 64),
    ).plus(table_sum(weights.naive_bishop@, p.bishops & own, 64)).plus(
        table_sum(weights.naive_knight@, p.knights & own, 64),
    )
}

/// The number of legal moves, negative for Black.
pub open spec fn controlled_squares(side: Color, move_count: usize) -> i32 {
    match side {
        Color::White => 1i32.wrapping_mul(move_count as i32),
        Color::Black => ((-1int) as i32).wrapping_mul(move_count as i32),
    }
}

/// The material left on the board, kings left out, modulo 2^32.
pub open spec fn phase(values: PieceValues, p: Placement) -> u32 {
    ((material(values, p, p.white) + material(values, p, p.black)) as u32).wrapping_sub(
        (2 * values.king) as u32,
    )
}

/// The factor of the second sum carried along a line, modulo 2^32.
pub open spec fn carried_factor(values: PieceValues, p: Placement) -> u32 {
    78u32.wrapping_sub(material(values, p, p.white) as u32).wrapping_add(
        material(values, p, p.black) as u32,
    ).wrapping_sub((2 * values.king) as u32)
}

/// The tapered tables, weighted by the material left: 78 is what all men but
/// the kings are worth at the start of a game.
pub open spec fn tapered_term<S: Score>(weights: Weights<S>, p: Placement) -> S {
    let left = phase(weights.piece_values, p);
    S::of_int(left as i64).times(tapered_sum(weights, p, true)).plus(
        S::of_int(78u32.wrapping_sub(left) as i64).times(tapered_sum(weights, p, false)),
    ).over(S::of_int(78))
}

/// The sums carried along the line, weighted by the material left.
pub open spec fn carried_term<S: Score>(weights: Weights<S>, p: Placement, mg: S, eg: S) -> S {
    S::of_int(phase(weights.piece_values, p) as i64).times(mg).plus(
        S::of_int(carried_factor(weights.piece_values, p) as i64).times(eg),
    )
}

/// The score of a board on which the game goes on: a twentieth of a pawn for
/// each legal move, the material of White less that of Black, the two terms
/// whose sums are remembered, and the terms of the other modules that are
/// switched on.
pub open spec fn static_score<S: Score>(
    weights: Weights<S>,
    modules: u32,
    p: Placement,
    move_count: usize,
    naive: S,
    pawns: S,
    mg: S,
    eg: S,
) -> S {
    let controlled = if enabled(modules, SQUARE_CONTROL_METRIC) {
        controlled_squares(p.side, move_count)
    } else {
        0
    };
    let balance = material(weights.piece_values, p, p.white) - material(
        weights.piece_values,
        p,
        p.black,
    );
    let tapered = if enabled(modules, TAPERED_EVERY_PESTO_PSQT) {
        tapered_term(weights, p)
    } else {
        S::of_int(0)
    };
    let incremental = if enabled(modules, TAPERED_INCREMENTAL_PESTO_PSQT) {
        carried_term(weights, p, mg, eg)
    } else {
        S::of_int(0)
    };
    S::of_int(controlled as i64).over(S::of_int(20)).plus(S::of_int(balance as i64)).plus(
        naive,
    ).plus(pawns).plus(tapered).plus(incremental)
}

/// Computes [`static_score`].
pub fn static_eval<S: Score>(
    weights: &Weights<S>,
    modules: u32,
    p: &Placement,
    move_count: usize,
    naive: S,
    pawns: S,
    mg: S,
    eg: S,
) -> (r: S)
    ensures
        r == static_score(*weights, modules, *p, move_count, naive, pawns, mg, eg),
{
    let (white, black): (u32, u32) = material_each_side(&weights.piece_values, p);
    let balance: i32 = white as i32 - black as i32;
    let controlled: i32 = if module_enabled(modules, SQUARE_CONTROL_METRIC) {
        let sign: i32 = match p.side {
            Color::White => 1,
            Color::Black => -1,
        };
        sign.wrapping_mul(move_count as i32)
    } else {
        0
    };
    let kings: u32 = 2 * piece_value(&weights.piece_values, Piece::King);
    let left: u32 = (white + black).wrapping_sub(kings);
    let tapered: S = if module_enabled(modules, TAPERED_EVERY_PESTO_PSQT) {
        S::from_int(left as i64).product(tapered_sum_of(weights, p, true)).sum(
            S::from_int(78u32.wrapping_sub(left) as i64).product(
                tapered_sum_of(weights, p, false),
            ),
        ).quotient(S::from_int(78))
    } else {
        S::from_int(0)
    };
    let incremental: S = if module_enabled(modules, TAPERED_INCREMENTAL_PESTO_PSQT) {
        let factor: u32 = 78u32.wrapping_sub(white).wrapping_add(black).wrapping_sub(kings);
        S::from_int(left as i64).product(mg).sum(S::from_int(factor as i64).product(eg))
    } else {
        S::from_int(0)
    };
    S::from_int(controlled as i64).quotient(S::from_int(20)).sum(S::from_int(balance as i64)).sum(
        naive,
    ).sum(pawns).sum(tapered).sum(incremental)
}

/// Whether the entries of a table are numbers of limited size.
pub open spec fn all_finite<S: Score>(table: Seq<S>) -> bool {
    forall|i: int| 0 <= i < table.len() ==> (#[trigger] table[i]).finite()
}

/// Where there is no piece of a kind its table adds nothing.
pub proof fn law_no_piece_scores_nothing<S: Score>(table: Seq<S>, n: nat)
    requires
        n <= table.len(),
        all_finite(table),
    ensures
        table_sum(table, 0, n) == S::of_int(0),
    decreases n,
{
    if n > 0 {
        law_no_piece_scores_nothing(table, (n - 1) as nat);
        let square = mirror(n - 1) as u64;
        assert((0u64 >> square) & 1 == 0) by (bit_vector);
        S::nothing_is_added_no_times(table[n - 1]);
    }
}

/// The entries of a tapered table depend only on where the side to move has
/// pieces of the kind, whoever is to move and wherever else pieces stand.
pub proof fn law_tapered_sum_is_of_own_pieces<S: Score>(
    weights: Weights<S>,
    p: Placement,
    q: Placement,
    piece: Piece,
    middlegame: bool,
)
    requires
        p.kind(piece) & p.own_men() == q.kind(piece) & q.own_men(),
    ensures
        tapered_psqt(weights, p, piece, middlegame) == tapered_psqt(weights, q, piece, middlegame),
{
}

/// Where the side to move has no piece of a kind, the kind has no tapered score.
pub proof fn law_no_piece_has_no_tapered_score<S: Score>(
    weights: Weights<S>,
    p: Placement,
    piece: Piece,
    middlegame: bool,
)
    requires
        p.kind(piece) & p.own_men() == 0,
        all_finite(weights.middlegame[piece.index()]@),
        all_finite(weights.endgame[piece.index()]@),
    ensures
        tapered_psqt(weights, p, piece, middlegame) == S::of_int(0),
{
    law_no_piece_scores_nothing(weights.middlegame[piece.index()]@, 64);
    law_no_piece_scores_nothing(weights.endgame[piece.index()]@, 64);
}

} // verus!
