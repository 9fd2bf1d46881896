//! What boards are worth, in whole steps of fixed-point scores, and what that
//! depends on.
use crate::bits::bit;
use crate::bits::count_below;
use crate::bits::count_bits;
use crate::bits::lemma_count_bound;
use crate::bits::mirror;
use crate::board::men_of;
use crate::board::moves_of;
use crate::board::pieces_of;
use crate::board::side_of;
use crate::board::Color;
use crate::board::Piece;
use crate::evaluation::both_phases;
use crate::evaluation::carried;
use crate::evaluation::carried_factor;
use crate::evaluation::carried_term;
use crate::evaluation::chained_pawns;
use crate::evaluation::chains_and_stacks;
use crate::evaluation::controlled_squares;
use crate::evaluation::half;
use crate::evaluation::law_chains_are_protections;
use crate::evaluation::law_stacks_are_files;
use crate::evaluation::material;
use crate::evaluation::naive_psqt;
use crate::evaluation::pawn_shape;
use crate::evaluation::pawn_structure;
use crate::evaluation::pawns_on_file;
use crate::evaluation::phase;
use crate::evaluation::placement_of;
use crate::evaluation::sheltering_pawns;
use crate::evaluation::table_sum;
use crate::evaluation::tapered_psqt;
use crate::evaluation::tapered_sum;
use crate::evaluation::tapered_term;
use crate::evaluation::PieceValues;
use crate::evaluation::Placement;
use crate::evaluation::Weights;
use crate::modules::enabled;
use crate::modules::NAIVE_PSQT;
use crate::modules::PAWN_STRUCTURE;
use crate::modules::SQUARE_CONTROL_METRIC;
use crate::modules::TAPERED_EVERY_PESTO_PSQT;
use crate::modules::TAPERED_INCREMENTAL_PESTO_PSQT;
use crate::score::larger;
use crate::score::magnitude;
use crate::score::scaled;
use crate::score::Fixed;
use crate::score::Score;
use crate::search::leaf_score;
use crate::search::pawn_score;
use crate::search::Setup;
use vstd::arithmetic::div_mod::lemma_div_denominator;
use vstd::arithmetic::div_mod::lemma_div_multiples_vanish;
use vstd::arithmetic::div_mod::lemma_div_pos_is_pos;
use vstd::arithmetic::div_mod::lemma_fundamental_div_mod;
use vstd::arithmetic::div_mod::lemma_mod_bound;
use vstd::prelude::*;

verus! {

/// The men of the side to move.
pub open spec fn movers(p: Placement) -> u64 {
    match p.side {
        Color::White => p.white,
        Color::Black => p.black,
    }
}

/// The pieces of a kind of the side to move.
pub open spec fn own(p: Placement, piece: Piece) -> u64 {
    match piece {
        Piece::Pawn => p.pawns & movers(p),
        Piece::Knight => p.knights & movers(p),
        Piece::Bishop => p.bishops & movers(p),
        Piece::Rook => p.rooks & movers(p),
        Piece::Queen => p.queens & movers(p),
        Piece::King => p.kings & movers(p),
    }
}

/// The pawn structure is that of the side to move: it depends on where that side
/// has its pawns and its king, and on nothing else, whoever is to move.
pub proof fn law_pawn_structure_is_of_the_side_to_move<S: Score>(p: Placement, q: Placement)
    requires
        own(p, Piece::Pawn) == own(q, Piece::Pawn),
        own(p, Piece::King) == own(q, Piece::King),
    ensures
        pawn_score::<S>(p) == pawn_score::<S>(q),
        pawn_score::<S>(p) == pawn_structure::<S>(own(p, Piece::Pawn), own(p, Piece::King)),
        own(p, Piece::Pawn) == 0 ==> pawn_score::<S>(p) == pawn_structure::<S>(
            0,
            own(p, Piece::King),
        ),
{
}

/// The naive tables score the side to move: the sum depends on where that side
/// has its pieces, and on nothing else, whoever is to move.
pub proof fn law_naive_tables_score_the_side_to_move<S: Score>(
    weights: Weights<S>,
    p: Placement,
    q: Placement,
)
    requires
        forall|piece: Piece| #[trigger] own(p, piece) == own(q, piece),
    ensures
        naive_psqt(weights, p) == naive_psqt(weights, q),
{
    assert(own(p, Piece::Pawn) == own(q, Piece::Pawn));
    assert(own(p, Piece::Knight) == own(q, Piece::Knight));
    assert(own(p, Piece::Bishop) == own(q, Piece::Bishop));
    assert(own(p, Piece::Rook) == own(q, Piece::Rook));
    assert(own(p, Piece::Queen) == own(q, Piece::Queen));
    assert(own(p, Piece::King) == own(q, Piece::King));
}

/// The placement of a board is what the board says of its pieces, its men and its
/// side to move.
pub proof fn law_placements_are_read_off_the_board(text: Seq<char>)
    ensures
        ({
            let p = placement_of(text);
            &&& p.pawns == pieces_of(text, Piece::Pawn)
            &&& p.knights == pieces_of(text, Piece::Knight)
            &&& p.bishops == pieces_of(text, Piece::Bishop)
            &&& p.rooks == pieces_of(text, Piece::Rook)
            &&& p.queens == pieces_of(text, Piece::Queen)
            &&& p.kings == pieces_of(text, Piece::King)
            &&& p.white == men_of(text, Color::White)
            &&& p.black == men_of(text, Color::Black)
            &&& p.side == side_of(text)
        }),
{
}

/// What a set of men is worth in pawns: the number of men of each kind times the
/// value of the kind.
pub open spec fn worth(values: PieceValues, p: Placement, men: u64) -> int {
    count_bits(p.pawns & men) * values.pawn + count_bits(p.knights & men) * values.knight
        + count_bits(p.bishops & men) * values.bishop + count_bits(p.rooks & men) * values.rook
        + count_bits(p.queens & men) * values.queen + count_bits(p.kings & men) * values.king
}

/// The sum of the first `n` entries of a table whose squares are taken, in steps.
/// Entry 0 is that of A8, entry 7 that of H8 and entry 63 that of H1.
pub open spec fn entries_taken(table: Seq<Fixed>, bits: u64, n: nat) -> int
    decreases n,
{
    if n == 0 {
        0
    } else {
        let i = n - 1;
        let square = 8 * (7 - i / 8) + i % 8;
        entries_taken(table, bits, (n - 1) as nat) + if bit(bits, square) == 1 {
            table[i].steps as int
        } else {
            0
        }
    }
}

/// Entries of tables that sums of all squares cannot take out of range.
pub const LARGEST_ENTRY: i64 = 0x100_0000;

/// Whether the entries of a table are small.
pub open spec fn is_small(table: Seq<Fixed>) -> bool {
    &&& table.len() == 64
    &&& forall|i: int|
        0 <= i < 64 ==> -LARGEST_ENTRY <= (#[trigger] table[i]).steps <= LARGEST_ENTRY
}

proof fn lemma_times(x: Fixed, k: i64)
    requires
        -0x1_0000_0000_0000 <= x.steps <= 0x1_0000_0000_0000,
        -0x400 <= k <= 0x400,
    ensures
        x.times(Fixed::of_int(k)).steps == x.steps * k,
        Fixed::of_int(k).times(x).steps == x.steps * k,
{
    let a = x.steps as int;
    let b = k as int;
    let m = magnitude(a);
    let l = magnitude(b);
    assert(magnitude(b * 78000) == l * 78000);
    assert(m * (l * 78000) == 78000 * (m * l)) by (nonlinear_arith);
    assert((l * 78000) * m == 78000 * (m * l)) by (nonlinear_arith);
    assert(m * l >= 0) by (nonlinear_arith);
    lemma_div_multiples_vanish((m * l) as int, 78000);
    assert(m * l <= 0x1_0000_0000_0000 * 0x400) by (nonlinear_arith)
        requires
            m <= 0x1_0000_0000_0000,
            l <= 0x400,
    ;
    assert(a * b == if (a < 0) ^ (b < 0) {
        -(m * l)
    } else {
        (m * l) as int
    }) by (nonlinear_arith)
        requires
            m == (if a < 0 {
                -a
            } else {
                a
            }),
            l == (if b < 0 {
                -b
            } else {
                b
            }),
    ;
    assert(scaled(a, b * 78000, 78000) == a * b);
    assert(scaled(b * 78000, a, 78000) == a * b);
}

/// A sum of a table adds the entries of the squares that are taken, the eighth
/// rank coming first.
pub proof fn law_tables_add_the_entries_taken(table: Seq<Fixed>, bits: u64, n: nat)
    requires
        is_small(table),
        n <= 64,
    ensures
        table_sum(table, bits, n).steps == entries_taken(table, bits, n),
        -(n * LARGEST_ENTRY) <= entries_taken(table, bits, n) <= n * LARGEST_ENTRY,
    decreases n,
{
    if n > 0 {
        law_tables_add_the_entries_taken(table, bits, (n - 1) as nat);
        let i = n - 1;
        let square = 8 * (7 - i / 8) + i % 8;
        assert(mirror(i) == square);
        let s = square as u64;
        assert((bits >> s) & 1 == 0 || (bits >> s) & 1 == 1) by (bit_vector);
        let taken = bit(bits, square);
        lemma_times(table[i], taken as i64);
    }
}

/// Whether the tables of an engine are small.
pub open spec fn are_small(weights: Weights<Fixed>) -> bool {
    &&& is_small(weights.naive_pawn@)
    &&& is_small(weights.naive_knight@)
    &&& is_small(weights.naive_bishop@)
    &&& is_small(weights.naive_rook@)
    &&& is_small(weights.naive_queen@)
    &&& is_small(weights.naive_king@)
    &&& forall|i: int| 0 <= i < 6 ==> is_small(#[trigger] weights.middlegame[i]@)
    &&& forall|i: int| 0 <= i < 6 ==> is_small(#[trigger] weights.endgame[i]@)
}

/// The naive tables of the six kinds over the pieces of the side to move, in
/// steps.
pub open spec fn naive_steps(weights: Weights<Fixed>, p: Placement) -> int {
    entries_taken(weights.naive_pawn@, own(p, Piece::Pawn), 64) + entries_taken(
        weights.naive_knight@,
        own(p, Piece::Knight),
        64,
    ) + entries_taken(weights.naive_bishop@, own(p, Piece::Bishop), 64) + entries_taken(
        weights.naive_rook@,
        own(p, Piece::Rook),
        64,
    ) + entries_taken(weights.naive_queen@, own(p, Piece::Queen), 64) + entries_taken(
        weights.naive_king@,
        own(p, Piece::King),
        64,
    )
}

/// The naive tables add, for each piece of the side to move, the entry of its
/// square in the table of its kind.
pub proof fn law_naive_tables_add_all_kinds(weights: Weights<Fixed>, p: Placement)
    requires
        are_small(weights),
    ensures
        naive_psqt(weights, p).steps == naive_steps(weights, p),
        -(384 * LARGEST_ENTRY) <= naive_steps(weights, p) <= 384 * LARGEST_ENTRY,
{
    law_tables_add_the_entries_taken(weights.naive_pawn@, own(p, Piece::Pawn), 64);
    law_tables_add_the_entries_taken(weights.naive_knight@, own(p, Piece::Knight), 64);
    law_tables_add_the_entries_taken(weights.naive_bishop@, own(p, Piece::Bishop), 64);
    law_tables_add_the_entries_taken(weights.naive_rook@, own(p, Piece::Rook), 64);
    law_tables_add_the_entries_taken(weights.naive_queen@, own(p, Piece::Queen), 64);
    law_tables_add_the_entries_taken(weights.naive_king@, own(p, Piece::King), 64);
}

/// The table of a kind among tables from the pawn to the king.
pub open spec fn table_of(tables: [[Fixed; 64]; 6], piece: Piece) -> Seq<Fixed> {
    match piece {
        Piece::Pawn => tables[0]@,
        Piece::Knight => tables[1]@,
        Piece::Bishop => tables[2]@,
        Piece::Rook => tables[3]@,
        Piece::Queen => tables[4]@,
        Piece::King => tables[5]@,
    }
}

/// A tapered table adds, for each piece of the kind that the side to move has,
/// the entry of its square, on all 64 squares.
pub proof fn law_tapered_tables_add_all_squares(
    weights: Weights<Fixed>,
    p: Placement,
    piece: Piece,
)
    requires
        are_small(weights),
    ensures
        tapered_psqt(weights, p, piece, true).steps == entries_taken(
            table_of(weights.middlegame, piece),
            own(p, piece),
            64,
        ),
        tapered_psqt(weights, p, piece, false).steps == entries_taken(
            table_of(weights.endgame, piece),
            own(p, piece),
            64,
        ),
        -(64 * LARGEST_ENTRY) <= tapered_psqt(weights, p, piece, true).steps <= 64 * LARGEST_ENTRY,
        -(64 * LARGEST_ENTRY) <= tapered_psqt(weights, p, piece, false).steps <= 64 * LARGEST_ENTRY,
{
    let i = match piece {
        Piece::Pawn => 0int,
        Piece::Knight => 1,
        Piece::Bishop => 2,
        Piece::Rook => 3,
        Piece::Queen => 4,
        Piece::King => 5,
    };
    assert(is_small(weights.middlegame[i]@));
    assert(is_small(weights.endgame[i]@));
    law_tables_add_the_entries_taken(weights.middlegame[i]@, own(p, piece), 64);
    law_tables_add_the_entries_taken(weights.endgame[i]@, own(p, piece), 64);
}

/// The tapered tables of one phase over the pieces of the side to move, kings
/// left out, in steps.
pub open spec fn phase_steps(tables: [[Fixed; 64]; 6], p: Placement) -> int {
    entries_taken(tables[0]@, own(p, Piece::Pawn), 64) + entries_taken(
        tables[1]@,
        own(p, Piece::Knight),
        64,
    ) + entries_taken(tables[2]@, own(p, Piece::Bishop), 64) + entries_taken(
        tables[3]@,
        own(p, Piece::Rook),
        64,
    ) + entries_taken(tables[4]@, own(p, Piece::Queen), 64)
}

proof fn lemma_phases(weights: Weights<Fixed>, p: Placement)
    requires
        are_small(weights),
    ensures
        tapered_sum(weights, p, true).steps == phase_steps(weights.middlegame, p),
        tapered_sum(weights, p, false).steps == phase_steps(weights.endgame, p),
        both_phases(weights, p).steps == phase_steps(weights.middlegame, p) + phase_steps(
            weights.endgame,
            p,
        ),
        -(320 * LARGEST_ENTRY) <= phase_steps(weights.middlegame, p) <= 320 * LARGEST_ENTRY,
        -(320 * LARGEST_ENTRY) <= phase_steps(weights.endgame, p) <= 320 * LARGEST_ENTRY,
{
    law_tapered_tables_add_all_squares(weights, p, Piece::Pawn);
    law_tapered_tables_add_all_squares(weights, p, Piece::Knight);
    law_tapered_tables_add_all_squares(weights, p, Piece::Bishop);
    law_tapered_tables_add_all_squares(weights, p, Piece::Rook);
    law_tapered_tables_add_all_squares(weights, p, Piece::Queen);
}

/// With one more move the first sum that is carried along a line grows by both
/// tapered phases of the side that moves where that is White, and shrinks by them
/// where it is Black. The second sum stays as it was.
pub proof fn law_carried_sums_grow_for_white_and_shrink_for_black(
    weights: Weights<Fixed>,
    p: Placement,
    mg: Fixed,
    eg: Fixed,
)
    requires
        are_small(weights),
        -0x1000_0000_0000_0000 <= mg.steps <= 0x1000_0000_0000_0000,
    ensures
        ({
            let both = phase_steps(weights.middlegame, p) + phase_steps(weights.endgame, p);
            let (next_mg, next_eg) = carried(weights, p, mg, eg);
            &&& p.side == Color::White ==> next_mg.steps == mg.steps + both
            &&& p.side == Color::Black ==> next_mg.steps == mg.steps - both
            &&& next_eg == eg
        }),
{
    lemma_phases(weights, p);
    lemma_times(both_phases(weights, p), 1);
    lemma_times(both_phases(weights, p), (-1int) as i64);
    lemma_times(Fixed { steps: 0 }, 1);
    lemma_times(Fixed { steps: 0 }, (-1int) as i64);
}

/// How many protections of a pawn by a pawn of its side there are on the first
/// `n` squares: a pawn protects the two squares before it on the files beside it.
pub open spec fn protections(pawns: u64, n: nat) -> nat
    decreases n,
{
    if n == 0 {
        0
    } else {
        let square = n - 1;
        let here = bit(pawns, square) == 1 && square >= 8;
        let from_left: nat = if here && square % 8 > 0 && bit(pawns, square - 9) == 1 {
            1
        } else {
            0
        };
        let from_right: nat = if here && square % 8 < 7 && bit(pawns, square - 7) == 1 {
            1
        } else {
            0
        };
        protections(pawns, (n - 1) as nat) + from_left + from_right
    }
}

proof fn lemma_bit(bits: u64, square: int)
    ensures
        bit(bits, square) == 0 || bit(bits, square) == 1,
{
    let s = square as u64;
    assert((bits >> s) & 1 == 0 || (bits >> s) & 1 == 1) by (bit_vector);
}

proof fn lemma_chains(pawns: u64, n: nat)
    requires
        n <= 64,
    ensures
        count_below(pawns & 0xFEFE_FEFE_FEFE_FEFE & (pawns << 9), n) + count_below(
            pawns & 0x7F7F_7F7F_7F7F_7F7F & (pawns << 7),
            n,
        ) == protections(pawns, n),
    decreases n,
{
    if n > 0 {
        lemma_chains(pawns, (n - 1) as nat);
        law_chains_are_protections(pawns, n - 1);
        lemma_bit(pawns & 0xFEFE_FEFE_FEFE_FEFE & (pawns << 9), n - 1);
        lemma_bit(pawns & 0x7F7F_7F7F_7F7F_7F7F & (pawns << 7), n - 1);
    }
}

/// How many pawns stand on a file among the first `n` squares, the A file being
/// file 0.
pub open spec fn on_file(pawns: u64, file: int, n: nat) -> nat
    decreases n,
{
    if n == 0 {
        0
    } else {
        on_file(pawns, file, (n - 1) as nat) + if bit(pawns, n - 1) == 1 && (n - 1) % 8 == file {
            1nat
        } else {
            0
        }
    }
}

proof fn lemma_file(pawns: u64, k: int, n: nat)
    requires
        0 <= k < 8,
        n <= 64,
    ensures
        count_below(pawns & (0x8080_8080_8080_8080u64 >> (k as u64)), n) == on_file(
            pawns,
            7 - k,
            n,
        ),
    decreases n,
{
    if n > 0 {
        lemma_file(pawns, k, (n - 1) as nat);
        law_stacks_are_files(pawns, k, n - 1);
        lemma_bit(pawns & (0x8080_8080_8080_8080u64 >> (k as u64)), n - 1);
    }
}

/// How many pawns stand behind another one on a file, over the `n` files from
/// the H file on.
pub open spec fn stacked(pawns: u64, n: nat) -> nat
    decreases n,
{
    if n == 0 {
        0
    } else {
        let here = on_file(pawns, 8 - n, 64);
        stacked(pawns, (n - 1) as nat) + if here > 1 {
            (here - 1) as nat
        } else {
            0
        }
    }
}

/// How many pawns shelter the king: with the king on G1 those on F2, G2, H2 and
/// H3, with the king on C1 those on A2, B2, C2 and A3.
pub open spec fn shelter(pawns: u64, kings: u64) -> int {
    let king_side = if bit(kings, 6) == 1 {
        bit(pawns, 13) + bit(pawns, 14) + bit(pawns, 15) + bit(pawns, 23)
    } else {
        0
    };
    let queen_side = if bit(kings, 2) == 1 {
        bit(pawns, 8) + bit(pawns, 9) + bit(pawns, 10) + bit(pawns, 16)
    } else {
        0
    };
    king_side + queen_side
}

proof fn lemma_empty_range(bits: u64, from: nat, to: nat)
    requires
        from <= to <= 64,
        forall|s: u64| from <= s < to ==> (#[trigger] (bits >> s)) & 1 == 0,
    ensures
        count_below(bits, to) == count_below(bits, from),
    decreases to,
{
    if from < to {
        lemma_empty_range(bits, from, (to - 1) as nat);
        let s = (to - 1) as u64;
        assert((bits >> s) & 1 == 0);
    }
}

proof fn lemma_one_of(bits: u64, mask: u64, at: u64)
    requires
        at < 64,
        mask == 1u64 << at,
    ensures
        count_bits(bits & mask) == bit(bits, at as int),
{
    let y = bits & mask;
    assert forall|s: u64| 0 <= s < at implies (#[trigger] (y >> s)) & 1 == 0 by {
        assert(((bits & (1u64 << at)) >> s) & 1 == 0) by (bit_vector)
            requires
                s < at,
                at < 64,
        ;
    }
    assert forall|s: u64| at + 1 <= s < 64 implies (#[trigger] (y >> s)) & 1 == 0 by {
        assert(((bits & (1u64 << at)) >> s) & 1 == 0) by (bit_vector)
            requires
                at < s,
                s < 64,
        ;
    }
    assert(((bits & (1u64 << at)) >> at) & 1 == (bits >> at) & 1) by (bit_vector)
        requires
            at < 64,
    ;
    lemma_empty_range(y, 0, at as nat);
    lemma_empty_range(y, (at + 1) as nat, 64);
}

proof fn lemma_king_side(pawns: u64)
    ensures
        count_bits(pawns & 0x80_E000) == bit(pawns, 13) + bit(pawns, 14) + bit(pawns, 15) + bit(
            pawns,
            23,
        ),
{
    let y = pawns & 0x80_E000;
    assert forall|s: u64| 0 <= s < 13 implies (#[trigger] (y >> s)) & 1 == 0 by {
        assert(((pawns & 0x80_E000) >> s) & 1 == 0) by (bit_vector)
            requires
                s < 13,
        ;
    }
    assert forall|s: u64| 16 <= s < 23 implies (#[trigger] (y >> s)) & 1 == 0 by {
        assert(((pawns & 0x80_E000) >> s) & 1 == 0) by (bit_vector)
            requires
                16 <= s < 23,
        ;
    }
    assert forall|s: u64| 24 <= s < 64 implies (#[trigger] (y >> s)) & 1 == 0 by {
        assert(((pawns & 0x80_E000) >> s) & 1 == 0) by (bit_vector)
            requires
                24 <= s < 64,
        ;
    }
    lemma_empty_range(y, 0, 13);
    lemma_empty_range(y, 16, 23);
    lemma_empty_range(y, 24, 64);
    reveal_with_fuel(count_below, 2);
    assert(((pawns & 0x80_E000) >> 13u64) & 1 == (pawns >> 13u64) & 1 && ((pawns & 0x80_E000)
        >> 14u64) & 1 == (pawns >> 14u64) & 1 && ((pawns & 0x80_E000) >> 15u64) & 1 == (pawns
        >> 15u64) & 1 && ((pawns & 0x80_E000) >> 23u64) & 1 == (pawns >> 23u64) & 1) by (bit_vector);
    assert(count_below(y, 14) == count_below(y, 13) + bit(y, 13));
    assert(count_below(y, 15) == count_below(y, 14) + bit(y, 14));
    assert(count_below(y, 16) == count_below(y, 15) + bit(y, 15));
    assert(count_below(y, 24) == count_below(y, 23) + bit(y, 23));
}

proof fn lemma_queen_side(pawns: u64)
    ensures
        count_bits(pawns & 0x1_0700) == bit(pawns, 8) + bit(pawns, 9) + bit(pawns, 10) + bit(
            pawns,
            16,
        ),
{
    let y = pawns & 0x1_0700;
    assert forall|s: u64| 0 <= s < 8 implies (#[trigger] (y >> s)) & 1 == 0 by {
        assert(((pawns & 0x1_0700) >> s) & 1 == 0) by (bit_vector)
            requires
                s < 8,
        ;
    }
    assert forall|s: u64| 11 <= s < 16 implies (#[trigger] (y >> s)) & 1 == 0 by {
        assert(((pawns & 0x1_0700) >> s) & 1 == 0) by (bit_vector)
            requires
                11 <= s < 16,
        ;
    }
    assert forall|s: u64| 17 <= s < 64 implies (#[trigger] (y >> s)) & 1 == 0 by {
        assert(((pawns & 0x1_0700) >> s) & 1 == 0) by (bit_vector)
            requires
                17 <= s < 64,
        ;
    }
    lemma_empty_range(y, 0, 8);
    lemma_empty_range(y, 11, 16);
    lemma_empty_range(y, 17, 64);
    assert(((pawns & 0x1_0700) >> 8u64) & 1 == (pawns >> 8u64) & 1 && ((pawns & 0x1_0700) >> 9u64)
        & 1 == (pawns >> 9u64) & 1 && ((pawns & 0x1_0700) >> 10u64) & 1 == (pawns >> 10u64) & 1 && ((
    pawns & 0x1_0700) >> 16u64) & 1 == (pawns >> 16u64) & 1) by (bit_vector);
    assert(count_below(y, 9) == count_below(y, 8) + bit(y, 8));
    assert(count_below(y, 10) == count_below(y, 9) + bit(y, 9));
    assert(count_below(y, 11) == count_below(y, 10) + bit(y, 10));
    assert(count_below(y, 17) == count_below(y, 16) + bit(y, 16));
}

proof fn lemma_shelter(pawns: u64, kings: u64)
    ensures
        sheltering_pawns(pawns, kings) == shelter(pawns, kings),
        0 <= shelter(pawns, kings) <= 8,
{
    assert(0x40u64 == 1u64 << 6u64 && 0x4u64 == 1u64 << 2u64) by (bit_vector);
    lemma_one_of(kings, 0x40, 6);
    lemma_one_of(kings, 0x4, 2);
    lemma_king_side(pawns);
    lemma_queen_side(pawns);
    lemma_bit(kings, 6);
    lemma_bit(kings, 2);
    lemma_bit(pawns, 13);
    lemma_bit(pawns, 14);
    lemma_bit(pawns, 15);
    lemma_bit(pawns, 23);
    lemma_bit(pawns, 8);
    lemma_bit(pawns, 9);
    lemma_bit(pawns, 10);
    lemma_bit(pawns, 16);
    let a = count_bits(pawns & 0x80_E000) as int;
    let b = count_bits(pawns & 0x1_0700) as int;
    assert(0 * a == 0 && 1 * a == a && 0 * b == 0 && 1 * b == b);
}

proof fn lemma_half()
    ensures
        half::<Fixed>().steps == 39000,
{
    assert(scaled(78000, 78000, 156000) == 39000) by {
        assert((78000nat * 78000nat) / 156000nat == 39000) by (nonlinear_arith);
    }
}

proof fn lemma_chains_and_stacks(pawns: u64, n: nat)
    requires
        n <= 8,
    ensures
        chains_and_stacks::<Fixed>(pawns, n).steps == 39000 * (protections(pawns, 64) - stacked(
            pawns,
            n,
        )),
        stacked(pawns, n) <= 64 * n,
        protections(pawns, 64) <= 128,
    decreases n,
{
    lemma_half();
    lemma_chains(pawns, 64);
    lemma_count_bound(pawns & 0xFEFE_FEFE_FEFE_FEFE & (pawns << 9), 64);
    lemma_count_bound(pawns & 0x7F7F_7F7F_7F7F_7F7F & (pawns << 7), 64);
    assert(chained_pawns(pawns) == protections(pawns, 64));
    if n == 0 {
        lemma_times(half::<Fixed>(), protections(pawns, 64) as i64);
    } else {
        lemma_chains_and_stacks(pawns, (n - 1) as nat);
        lemma_file(pawns, n - 1, 64);
        let count = pawns_on_file(pawns, n - 1);
        assert(count == on_file(pawns, 8 - n, 64));
        lemma_count_bound(pawns & (0x8080_8080_8080_8080u64 >> ((n - 1) as u64)), 64);
        let extra: int = if count > 1 {
            count - 1
        } else {
            0
        };
        lemma_times(half::<Fixed>(), extra as i64);
        assert(larger(
            Fixed::of_int(count as i64).minus(Fixed::of_int(1)),
            Fixed::of_int(0),
        ) == Fixed::of_int(extra as i64));
    }
}

/// Half a pawn is given for each protection of a pawn by a pawn and taken for
/// each pawn behind another one on any of the eight files, and a pawn is given
/// for each pawn that shelters the king, all of the side to move.
pub proof fn law_pawn_structure_counts_pawns(p: Placement)
    ensures
        ({
            let pawns = own(p, Piece::Pawn);
            pawn_score::<Fixed>(p).steps == 39000 * protections(pawns, 64) - 39000 * stacked(
                pawns,
                8,
            ) + 78000 * shelter(pawns, own(p, Piece::King))
        }),
        -20000000 <= pawn_score::<Fixed>(p).steps <= 20000000,
        pawn_shape::<Fixed>(own(p, Piece::Pawn)).steps == 39000 * protections(
            own(p, Piece::Pawn),
            64,
        ) - 39000 * stacked(own(p, Piece::Pawn), 8),
{
    let pawns = own(p, Piece::Pawn);
    lemma_chains_and_stacks(pawns, 8);
    lemma_shelter(pawns, own(p, Piece::King));
}

/// The tapered tables of both phases, in steps, of which the first counts by the
/// material left and the second by the material gone, of 78 pawns in all, rounded
/// toward zero.
pub open spec fn tapered_steps(weights: Weights<Fixed>, p: Placement, left: int) -> int {
    let sum = left * phase_steps(weights.middlegame, p) + (78 - left) * phase_steps(
        weights.endgame,
        p,
    );
    if sum < 0 {
        -((-sum) / 78)
    } else {
        sum / 78
    }
}

proof fn lemma_tapered(weights: Weights<Fixed>, p: Placement, left: int)
    requires
        are_small(weights),
        0 <= left <= 78,
        left == worth(weights.piece_values, p, p.white) + worth(weights.piece_values, p, p.black)
            - 2 * weights.piece_values.king,
    ensures
        tapered_term(weights, p).steps == tapered_steps(weights, p, left),
        -0x10_0000_0000 <= tapered_steps(weights, p, left) <= 0x10_0000_0000,
{
    lemma_phases(weights, p);
    lemma_material(weights.piece_values, p, p.white);
    lemma_material(weights.piece_values, p, p.black);
    let mg = phase_steps(weights.middlegame, p);
    let eg = phase_steps(weights.endgame, p);
    lemma_times(tapered_sum(weights, p, true), left as i64);
    lemma_times(tapered_sum(weights, p, false), (78 - left) as i64);
    assert(-(78 * (320 * LARGEST_ENTRY)) <= left * mg <= 78 * (320 * LARGEST_ENTRY))
        by (nonlinear_arith)
        requires
            0 <= left <= 78,
            -(320 * LARGEST_ENTRY) <= mg <= 320 * LARGEST_ENTRY,
            LARGEST_ENTRY == 0x100_0000,
    ;
    assert(-(78 * (320 * LARGEST_ENTRY)) <= (78 - left) * eg <= 78 * (320 * LARGEST_ENTRY))
        by (nonlinear_arith)
        requires
            0 <= left <= 78,
            -(320 * LARGEST_ENTRY) <= eg <= 320 * LARGEST_ENTRY,
            LARGEST_ENTRY == 0x100_0000,
    ;
    assert(mg * left == left * mg && eg * (78 - left) == (78 - left) * eg) by (nonlinear_arith);
    let sum = left * mg + (78 - left) * eg;
    let m = magnitude(sum) as int;
    lemma_div_multiples_vanish(m, 78000);
    lemma_div_denominator(m * 78000, 78000, 78);
    assert(78000 * m == m * 78000);
}

proof fn lemma_material(values: PieceValues, p: Placement, men: u64)
    ensures
        material(values, p, men) == worth(values, p, men),
        0 <= worth(values, p, men) <= 25165440,
{
    lemma_product(p.pawns & men, values.pawn);
    lemma_product(p.knights & men, values.knight);
    lemma_product(p.bishops & men, values.bishop);
    lemma_product(p.rooks & men, values.rook);
    lemma_product(p.queens & men, values.queen);
    lemma_product(p.kings & men, values.king);
}

proof fn lemma_product(bits: u64, value: u16)
    ensures
        0 <= count_bits(bits) * value <= 4194240,
{
    lemma_count_bound(bits, 64);
    let count = count_bits(bits) as int;
    let v = value as int;
    assert(0 <= count * v <= 4194240) by (nonlinear_arith)
        requires
            0 <= count <= 64,
            0 <= v <= 0xFFFF,
    ;
}

proof fn lemma_twentieths(n: i64)
    requires
        -0x8000_0000 <= n <= 0x7FFF_FFFF,
    ensures
        Fixed::of_int(n).over(Fixed::of_int(20)).steps == 3900 * n,
{
    let m = magnitude(n as int) as int;
    assert(magnitude(n * 78000) == m * 78000);
    assert((m * 78000) * 78000 == 1560000 * (3900 * m)) by (nonlinear_arith);
    lemma_div_multiples_vanish(3900 * m, 1560000);
}

/// The score of a board on which the game goes on, in steps of which 78000 make a
/// pawn, is the sum of these terms and of nothing else: a twentieth of a pawn for
/// each legal move, taken for Black; what the men of White are worth less what
/// those of Black are; the naive tables; the pawn structure; the tapered tables;
/// and the sums carried along the line, the first counted by the material left.
/// But for the material, each counts where its module is switched on.
pub proof fn law_a_board_is_worth_the_sum_of_its_terms(
    c: Setup<Fixed>,
    text: Seq<char>,
    mg: Fixed,
    eg: Fixed,
)
    requires
        0 < moves_of(text).len() <= 0x7FFF_FFFF,
        !c.played.contains_key(text),
        are_small(c.weights),
        -0x1_0000_0000_0000 <= mg.steps <= 0x1_0000_0000_0000,
        -0x1_0000_0000_0000 <= eg.steps <= 0x1_0000_0000_0000,
        ({
            let p = placement_of(text);
            let values = c.weights.piece_values;
            let (white, black) = (worth(values, p, p.white), worth(values, p, p.black));
            &&& 0 <= white + black - 2 * values.king <= 78
            &&& 0 <= 78 - white + black - 2 * values.king <= 0x400
        }),
    ensures
        ({
            let p = placement_of(text);
            let values = c.weights.piece_values;
            let (white, black) = (worth(values, p, p.white), worth(values, p, p.black));
            let left = white + black - 2 * values.king;
            let control: int = if !enabled(c.modules, SQUARE_CONTROL_METRIC) {
                0
            } else if p.side == Color::White {
                3900 * moves_of(text).len() as int
            } else {
                -(3900 * moves_of(text).len())
            };
            let naive = if enabled(c.modules, NAIVE_PSQT) {
                naive_steps(c.weights, p)
            } else {
                0
            };
            let pawns = if enabled(c.modules, PAWN_STRUCTURE) {
                39000 * protections(own(p, Piece::Pawn), 64) - 39000 * stacked(
                    own(p, Piece::Pawn),
                    8,
                ) + 78000 * shelter(own(p, Piece::Pawn), own(p, Piece::King))
            } else {
                0
            };
            let tapered = if enabled(c.modules, TAPERED_EVERY_PESTO_PSQT) {
                tapered_steps(c.weights, p, left)
            } else {
                0
            };
            let line = if enabled(c.modules, TAPERED_INCREMENTAL_PESTO_PSQT) {
                mg.steps * left + eg.steps * (78 - white + black - 2 * values.king)
            } else {
                0
            };
            leaf_score(c, text, 0, mg, eg).steps == control + 78000 * (white - black) + naive
                + pawns + tapered + line
        }),
{
    let p = placement_of(text);
    let values = c.weights.piece_values;
    let (white, black) = (worth(values, p, p.white), worth(values, p, p.black));
    let left = white + black - 2 * values.king;
    let count = moves_of(text).len();
    lemma_material(values, p, p.white);
    lemma_material(values, p, p.black);
    law_naive_tables_add_all_kinds(c.weights, p);
    law_pawn_structure_counts_pawns(p);
    lemma_tapered(c.weights, p, left);
    lemma_line(c.weights, p, mg, eg);
    let n = controlled_squares(p.side, count as usize);
    lemma_sign(p.side, count);
    lemma_twentieths(n as i64);
    lemma_twentieths(0);
    let zero = Fixed::of_int(0);
    lemma_six(
        Fixed::of_int(
            if enabled(c.modules, SQUARE_CONTROL_METRIC) {
                n as i64
            } else {
                0
            },
        ).over(Fixed::of_int(20)),
        Fixed::of_int((white - black) as i64),
        if enabled(c.modules, NAIVE_PSQT) {
            naive_psqt(c.weights, p)
        } else {
            zero
        },
        if enabled(c.modules, PAWN_STRUCTURE) {
            pawn_score(p)
        } else {
            zero
        },
        if enabled(c.modules, TAPERED_EVERY_PESTO_PSQT) {
            tapered_term(c.weights, p)
        } else {
            zero
        },
        if enabled(c.modules, TAPERED_INCREMENTAL_PESTO_PSQT) {
            carried_term(c.weights, p, mg, eg)
        } else {
            zero
        },
    );
}

proof fn lemma_line(weights: Weights<Fixed>, p: Placement, mg: Fixed, eg: Fixed)
    requires
        -0x1_0000_0000_0000 <= mg.steps <= 0x1_0000_0000_0000,
        -0x1_0000_0000_0000 <= eg.steps <= 0x1_0000_0000_0000,
        ({
            let values = weights.piece_values;
            let (white, black) = (worth(values, p, p.white), worth(values, p, p.black));
            &&& 0 <= white + black - 2 * values.king <= 78
            &&& 0 <= 78 - white + black - 2 * values.king <= 0x400
        }),
    ensures
        ({
            let values = weights.piece_values;
            let (white, black) = (worth(values, p, p.white), worth(values, p, p.black));
            carried_term(weights, p, mg, eg).steps == mg.steps * (white + black - 2 * values.king)
                + eg.steps * (78 - white + black - 2 * values.king)
        }),
        -0x800_0000_0000_0000 <= carried_term(weights, p, mg, eg).steps <= 0x800_0000_0000_0000,
{
    let values = weights.piece_values;
    let (white, black) = (worth(values, p, p.white), worth(values, p, p.black));
    let left = white + black - 2 * values.king;
    let factor = 78 - white + black - 2 * values.king;
    lemma_material(values, p, p.white);
    lemma_material(values, p, p.black);
    assert(phase(values, p) == left);
    assert(carried_factor(values, p) == factor);
    lemma_times(mg, left as i64);
    lemma_times(eg, factor as i64);
    let a = mg.steps as int;
    let b = eg.steps as int;
    assert(-0x1_0000_0000_0000 * 0x400 <= a * left <= 0x1_0000_0000_0000 * 0x400)
        by (nonlinear_arith)
        requires
            -0x1_0000_0000_0000 <= a <= 0x1_0000_0000_0000,
            0 <= left <= 78,
    ;
    assert(-0x1_0000_0000_0000 * 0x400 <= b * factor <= 0x1_0000_0000_0000 * 0x400)
        by (nonlinear_arith)
        requires
            -0x1_0000_0000_0000 <= b <= 0x1_0000_0000_0000,
            0 <= factor <= 0x400,
    ;
}

proof fn lemma_six(a: Fixed, b: Fixed, c: Fixed, d: Fixed, e: Fixed, f: Fixed)
    requires
        -0x800_0000_0000_0000 <= a.steps <= 0x800_0000_0000_0000,
        -0x800_0000_0000_0000 <= b.steps <= 0x800_0000_0000_0000,
        -0x800_0000_0000_0000 <= c.steps <= 0x800_0000_0000_0000,
        -0x800_0000_0000_0000 <= d.steps <= 0x800_0000_0000_0000,
        -0x800_0000_0000_0000 <= e.steps <= 0x800_0000_0000_0000,
        -0x800_0000_0000_0000 <= f.steps <= 0x800_0000_0000_0000,
    ensures
        a.plus(b).plus(c).plus(d).plus(e).plus(f).steps == a.steps + b.steps + c.steps + d.steps
            + e.steps + f.steps,
{
}

proof fn lemma_sign(side: Color, count: nat)
    requires
        count <= 0x7FFF_FFFF,
    ensures
        controlled_squares(side, count as usize) == match side {
            Color::White => count as int,
            Color::Black => -count,
        },
{
    let n = count as i32;
    assert(count as usize as i32 == n);
    assert(1 * n == n && (-1) * n == -n) by (nonlinear_arith);
}

/// Each kind of piece has a value of its own.
pub proof fn law_kinds_have_their_own_values(values: PieceValues)
    ensures
        values.value(Piece::Pawn) == values.pawn,
        values.value(Piece::Knight) == values.knight,
        values.value(Piece::Bishop) == values.bishop,
        values.value(Piece::Rook) == values.rook,
        values.value(Piece::Queen) == values.queen,
        values.value(Piece::King) == values.king,
{
}

/// The material left on the board and the material gone are counted modulo 2^32,
/// the kings being left out of both: this holds whatever the men are worth.
pub proof fn law_material_left_and_gone_wrap<S: Score>(
    weights: Weights<S>,
    p: Placement,
    mg: S,
    eg: S,
)
    ensures
        ({
            let values = weights.piece_values;
            let (white, black) = (worth(values, p, p.white), worth(values, p, p.black));
            let left = (white + black - 2 * values.king) % 0x1_0000_0000;
            let gone = (78 - left) % 0x1_0000_0000;
            let less = (78 - white + black - 2 * values.king) % 0x1_0000_0000;
            &&& tapered_term(weights, p) == S::of_int(left as i64).times(
                tapered_sum(weights, p, true),
            ).plus(S::of_int(gone as i64).times(tapered_sum(weights, p, false))).over(S::of_int(78))
            &&& carried_term(weights, p, mg, eg) == S::of_int(left as i64).times(mg).plus(
                S::of_int(less as i64).times(eg),
            )
        }),
{
    let values = weights.piece_values;
    let (white, black) = (worth(values, p, p.white), worth(values, p, p.black));
    lemma_material(values, p, p.white);
    lemma_material(values, p, p.black);
    let left = (white + black - 2 * values.king) % 0x1_0000_0000;
    assert(phase(values, p) == left);
    assert(78u32.wrapping_sub(phase(values, p)) == (78 - left) % 0x1_0000_0000);
    assert(carried_factor(values, p) == (78 - white + black - 2 * values.king) % 0x1_0000_0000);
}

/// A number without its sign.
pub open spec fn size(n: int) -> int {
    if n < 0 {
        -n
    } else {
        n
    }
}

/// Fixed-point numbers are added and subtracted exactly where an `i64` holds the
/// result, and else give the nearest number that it holds. They are ordered by
/// their steps, of which 78000 make one, and lie between the two mates.
pub proof fn law_fixed_numbers_are_added_exactly(a: Fixed, b: Fixed, n: i64)
    ensures
        ({
            let sum = a.steps + b.steps;
            let rest = a.steps - b.steps;
            &&& i64::MIN <= sum <= i64::MAX ==> a.plus(b).steps == sum
            &&& sum < i64::MIN ==> a.plus(b).steps == i64::MIN
            &&& i64::MAX < sum ==> a.plus(b).steps == i64::MAX
            &&& i64::MIN <= rest <= i64::MAX ==> a.minus(b).steps == rest
            &&& rest < i64::MIN ==> a.minus(b).steps == i64::MIN
            &&& i64::MAX < rest ==> a.minus(b).steps == i64::MAX
        }),
        i64::MIN <= n * 78000 <= i64::MAX ==> Fixed::of_int(n).steps == n * 78000,
        n * 78000 < i64::MIN ==> Fixed::of_int(n).steps == i64::MIN,
        i64::MAX < n * 78000 ==> Fixed::of_int(n).steps == i64::MAX,
        a.below(b) <==> a.steps < b.steps,
        !a.below(Fixed::min_value()),
        !Fixed::max_value().below(a),
{
}

/// Fixed-point numbers are multiplied and divided with the sign rule and rounded
/// toward zero, where an `i64` holds the result; dividing by 0 gives 0.
pub proof fn law_fixed_numbers_are_rounded_toward_zero(a: Fixed, b: Fixed)
    ensures
        ({
            let product = size(a.steps as int) * size(b.steps as int);
            let r = a.times(b).steps as int;
            product < 78000 * i64::MAX ==> {
                &&& 78000 * size(r) <= product < 78000 * (size(r) + 1)
                &&& (a.steps < 0) == (b.steps < 0) ==> r >= 0
                &&& (a.steps < 0) != (b.steps < 0) ==> r <= 0
            }
        }),
        ({
            let dividend = size(a.steps as int) * 78000;
            let divisor = size(b.steps as int);
            let r = a.over(b).steps as int;
            &&& b.steps == 0 ==> r == 0
            &&& b.steps != 0 && dividend < divisor * i64::MAX ==> {
                &&& divisor * size(r) <= dividend < divisor * (size(r) + 1)
                &&& (a.steps < 0) == (b.steps < 0) ==> r >= 0
                &&& (a.steps < 0) != (b.steps < 0) ==> r <= 0
            }
        }),
{
    let product = size(a.steps as int) * size(b.steps as int);
    assert(product >= 0) by (nonlinear_arith)
        requires
            product == size(a.steps as int) * size(b.steps as int),
            size(a.steps as int) >= 0,
            size(b.steps as int) >= 0,
    ;
    lemma_quotient(product, 78000);
    if b.steps != 0 {
        lemma_quotient(size(a.steps as int) * 78000, size(b.steps as int));
    }
}

proof fn lemma_quotient(x: int, y: int)
    requires
        x >= 0,
        y > 0,
    ensures
        0 <= x / y,
        y * (x / y) <= x < y * (x / y + 1),
        x < y * i64::MAX ==> x / y < i64::MAX,
{
    lemma_fundamental_div_mod(x, y);
    lemma_mod_bound(x, y);
    lemma_div_pos_is_pos(x, y);
    assert(y * (x / y + 1) == y * (x / y) + y) by (nonlinear_arith);
    if x < y * i64::MAX && x / y >= i64::MAX {
        let q = x / y;
        assert(y * q >= y * i64::MAX) by (nonlinear_arith)
            requires
                y > 0,
                q >= i64::MAX,
        ;
    }
}

} // verus!
