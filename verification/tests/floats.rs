use chess_search::algorithm::Algorithm;
use chess_search::board::Action;
use chess_search::board::Board;
use chess_search::board::ChessMove;
use chess_search::clock::Clock;
use chess_search::counts::BoardCounts;
use chess_search::evaluation::carry;
use chess_search::evaluation::pawn_structure_calc;
use chess_search::evaluation::PieceValues;
use chess_search::evaluation::Placement;
use chess_search::evaluation::Weights;
use chess_search::modules::ALPHA_BETA;
use chess_search::modules::NAIVE_PSQT;
use chess_search::modules::PAWN_STRUCTURE;
use chess_search::modules::SQUARE_CONTROL_METRIC;
use chess_search::modules::TAPERED_EVERY_PESTO_PSQT;
use chess_search::modules::TAPERED_INCREMENTAL_PESTO_PSQT;
use chess_search::modules::TRANSPOSITION_TABLE;
use chess_search::score::Score;
use std::time::Duration;

const START: &str = "rnbqkbnr/pppppppp/8/8/8/8/PPPPPPPP/RNBQKBNR w KQkq - 0 1";

#[derive(Clone, Copy, Debug, PartialEq)]
struct Float(f32);

impl Score for Float {
    fn of_int(n: i64) -> Self {
        Float(n as f32)
    }

    fn min_value() -> Self {
        Float(f32::MIN)
    }

    fn max_value() -> Self {
        Float(f32::MAX)
    }

    fn plus(self, other: Self) -> Self {
        Float(self.0 + other.0)
    }

    fn minus(self, other: Self) -> Self {
        Float(self.0 - other.0)
    }

    fn times(self, other: Self) -> Self {
        Float(self.0 * other.0)
    }

    fn over(self, other: Self) -> Self {
        Float(self.0 / other.0)
    }

    fn below(self, other: Self) -> bool {
        self.0 < other.0
    }

    fn finite(self) -> bool {
        self.0.is_finite()
    }

    fn below_is_asymmetric(_a: Self, _b: Self) {}

    fn below_is_cotransitive(_a: Self, _b: Self, _c: Self) {}

    fn whole_numbers_lie_between(_n: i64) {}

    fn zero_adds_nothing(_n: i64) {}

    fn zero_has_no_parts(_n: i64) {}

    fn nothing_is_added_no_times(_x: Self) {}

    fn from_int(n: i64) -> Self {
        Self::of_int(n)
    }

    fn lowest() -> Self {
        Self::min_value()
    }

    fn highest() -> Self {
        Self::max_value()
    }

    fn sum(self, other: Self) -> Self {
        self.plus(other)
    }

    fn difference(self, other: Self) -> Self {
        self.minus(other)
    }

    fn product(self, other: Self) -> Self {
        self.times(other)
    }

    fn quotient(self, other: Self) -> Self {
        self.over(other)
    }

    fn less_than(self, other: Self) -> bool {
        self.below(other)
    }
}

/// A table of numbers that floats cannot hold exactly.
fn uneven(factor: f32) -> [Float; 64] {
    let mut table = [Float(0.); 64];
    for i in 0..64 {
        table[i] = Float(factor * (i as f32 - 31.) / 7.);
    }
    table
}

fn weights() -> Weights<Float> {
    Weights {
        piece_values: PieceValues { pawn: 1, knight: 3, bishop: 3, rook: 5, queen: 9, king: 100 },
        naive_pawn: uneven(0.1),
        naive_knight: uneven(0.2),
        naive_bishop: uneven(0.3),
        naive_rook: uneven(0.4),
        naive_queen: uneven(0.5),
        naive_king: uneven(0.6),
        middlegame: [
            uneven(0.11),
            uneven(0.12),
            uneven(0.13),
            uneven(0.14),
            uneven(0.15),
            uneven(0.16),
        ],
        endgame: [
            uneven(0.21),
            uneven(0.22),
            uneven(0.23),
            uneven(0.24),
            uneven(0.25),
            uneven(0.26),
        ],
    }
}

fn engine(modules: u32) -> Algorithm<Float> {
    Algorithm::new(modules, Duration::from_secs(1), weights())
}

fn score(modules: u32, fen: &str) -> f32 {
    let board = Board::from_fen(fen).unwrap();
    engine(modules).eval(&board, &BoardCounts::new(), Float(0.5), Float(0.25)).0
}

/// The sum of the first entries of a table, in their order.
fn table_sum(table: &[Float; 64], squares: u64, n: usize) -> f32 {
    let mut bonus: f32 = 0.;
    for i in 0..n {
        let square = 56 - i + 2 * (i % 8);
        bonus += ((squares >> square) & 1) as f32 * table[i].0;
    }
    bonus
}

const PAWNS: u64 = 0xFF00;
const KNIGHTS: u64 = 0x42;
const BISHOPS: u64 = 0x24;
const ROOKS: u64 = 0x81;
const QUEENS: u64 = 0x08;
const KINGS: u64 = 0x10;

#[test]
fn float_mates_have_the_extreme_scores() {
    assert_eq!(score(0, "7k/5Q2/6K1/8/8/8/8/8 b - - 0 1"), 0.);
    assert_eq!(
        score(0, "rnb1kbnr/pppp1ppp/8/4p3/6Pq/5P2/PPPPP2P/RNBQKBNR w KQkq - 0 1"),
        f32::MIN
    );
    assert_eq!(score(0, "R5k1/5ppp/8/8/8/8/8/6K1 b - - 0 1"), f32::MAX);
}

#[test]
fn float_naive_tables_are_summed_in_order() {
    let w = weights();
    let mut expected: f32 = 0.;
    expected += table_sum(&w.naive_pawn, PAWNS, 64);
    expected += table_sum(&w.naive_rook, ROOKS, 64);
    expected += table_sum(&w.naive_king, KINGS, 64);
    expected += table_sum(&w.naive_queen, QUEENS, 64);
    expected += table_sum(&w.naive_bishop, BISHOPS, 64);
    expected += table_sum(&w.naive_knight, KNIGHTS, 64);
    assert_eq!(score(NAIVE_PSQT, START), expected);
}

fn tapered(tables: &[[Float; 64]; 6]) -> f32 {
    let mut sum: f32 = 0.;
    for (i, squares) in [PAWNS, KNIGHTS, BISHOPS, ROOKS, QUEENS].iter().enumerate() {
        sum += table_sum(&tables[i], *squares, 64);
    }
    sum
}

#[test]
fn float_tapered_tables_are_weighted_in_order() {
    let w = weights();
    let mg = tapered(&w.middlegame);
    let eg = tapered(&w.endgame);
    let expected = (78. * mg + 0. * eg) / 78.;
    assert_eq!(score(TAPERED_EVERY_PESTO_PSQT, START), expected);
}

#[test]
fn float_carried_sums_are_weighted_in_order() {
    let factor = 78u32.wrapping_sub(139).wrapping_add(139).wrapping_sub(200);
    let expected = 78f32 * 0.5 + factor as f32 * 0.25;
    assert_eq!(score(TAPERED_INCREMENTAL_PESTO_PSQT, START), expected);
}

#[test]
fn float_sums_are_carried_in_order() {
    let w = weights();
    let p = Placement::of_board(&Board::from_fen(START).unwrap());
    let mut change: f32 = 0.;
    for (i, squares) in [PAWNS, KNIGHTS, BISHOPS, ROOKS, QUEENS].iter().enumerate() {
        change += table_sum(&w.middlegame[i], *squares, 64);
        change += table_sum(&w.endgame[i], *squares, 64);
    }
    let (mg, eg) = carry(&w, &p, Float(0.3), Float(0.7));
    assert_eq!(mg.0, 0.3 + change * 1f32);
    assert_eq!(eg.0, 0.7);
}

#[test]
fn float_terms_are_added_in_order() {
    let w = weights();
    let all = SQUARE_CONTROL_METRIC | PAWN_STRUCTURE | TAPERED_EVERY_PESTO_PSQT;
    // Black lacks a knight; White has 20 legal moves.
    let fen = "rnbqkb1r/pppppppp/8/8/8/8/PPPPPPPP/RNBQKBNR w KQkq - 0 1";
    let tapered_term = (75. * tapered(&w.middlegame) + 3. * tapered(&w.endgame)) / 78.;
    let expected = 20f32 / 20. + 3f32 + 0. + 0. + tapered_term + 0.;
    assert_eq!(score(all, fen), expected);
}

#[test]
fn float_pawn_structures_are_exact_halves() {
    let chained: Float = pawn_structure_calc(1 << 8 | 1 << 10 | 1 << 17, u64::MAX, 1 << 4);
    assert_eq!(chained.0, 1.);
    let stacked: Float = pawn_structure_calc(1 << 12 | 1 << 28 | 1 << 44, u64::MAX, 1 << 4);
    assert_eq!(stacked.0, -1.);
    let sheltering: Float = pawn_structure_calc(0xE000, u64::MAX, 1 << 6);
    assert_eq!(sheltering.0, 3.);
}

#[test]
fn float_scores_obey_their_laws() {
    for n in [-1000000, -7, -1, 0, 1, 3, 78, i64::MAX] {
        let x = Float::from_int(n);
        assert!(!x.less_than(Float::lowest()));
        assert!(!Float::highest().less_than(x));
        assert_eq!(Float::from_int(0).sum(x).0.to_bits(), x.0.to_bits());
        assert_eq!(x.sum(Float::from_int(0)).0.to_bits(), x.0.to_bits());
    }
    assert_eq!(Float::from_int(0).quotient(Float::from_int(20)).0.to_bits(), 0);
    for x in [-1.5, 0.1, f32::MIN, f32::MAX, -0.] {
        let added = Float(0.).sum(Float(0.).product(Float(x)));
        assert_eq!(added.0.to_bits(), 0);
    }
}

#[test]
fn float_progress_is_a_share() {
    let board = Board::from_fen(START).unwrap();
    let (_, _, stats) = engine(0).next_action(&board, 1, &mut Clock::expiring_after(8));
    assert_eq!(stats.progress_on_next_layer.0, 0. * (1. / 20.) + 7. / 20.);
}

#[test]
fn float_searches_decide() {
    let board = Board::from_fen("6k1/5ppp/8/8/8/8/8/R5K1 w - - 0 1").unwrap();
    let mate = ChessMove { source: 0, dest: 56, promotion: None };
    let mut e = engine(ALPHA_BETA | TRANSPOSITION_TABLE | NAIVE_PSQT);
    let (action, _, stats) = e.decide(&board, &mut Clock::expiring_after(200));
    assert_eq!(action, Action::MakeMove(mate));
    assert!(stats.depth >= 1);
}
