use chess_search::algorithm::Algorithm;
use chess_search::board::Board;
use chess_search::board::Color;
use chess_search::board::Piece;
use chess_search::counts::BoardCounts;
use chess_search::evaluation::carry;
use chess_search::evaluation::in_hash_map;
use chess_search::evaluation::material_each_side;
use chess_search::evaluation::naive_psqt_calc;
use chess_search::evaluation::pawn_shape_calc;
use chess_search::evaluation::pawn_structure_calc;
use chess_search::evaluation::piece_value;
use chess_search::evaluation::static_eval;
use chess_search::evaluation::with_shelter;
use chess_search::evaluation::PieceValues;
use chess_search::evaluation::Placement;
use chess_search::evaluation::Weights;
use chess_search::modules::module_enabled;
use chess_search::modules::ALPHA_BETA;
use chess_search::modules::NAIVE_PSQT;
use chess_search::modules::PAWN_STRUCTURE;
use chess_search::modules::SQUARE_CONTROL_METRIC;
use chess_search::modules::TAPERED_EVERY_PESTO_PSQT;
use chess_search::modules::TAPERED_INCREMENTAL_PESTO_PSQT;
use chess_search::modules::TRANSPOSITION_TABLE;
use chess_search::score::Fixed;
use chess_search::score::Score;
use std::collections::HashMap;
use std::time::Duration;

const START: &str = "rnbqkbnr/pppppppp/8/8/8/8/PPPPPPPP/RNBQKBNR w KQkq - 0 1";
const ROOKS: &str = "4k3/8/8/8/8/8/8/R3K2R w KQ - 0 1";

fn board(fen: &str) -> Board {
    Board::from_fen(fen).unwrap()
}

fn pawns(n: i64) -> Fixed {
    Fixed::from_int(n)
}

fn halves(n: i64) -> Fixed {
    Fixed { steps: n * 39000 }
}

/// The table whose entries are their own numbers times a factor.
fn numbered(factor: i64) -> [Fixed; 64] {
    let mut table = [pawns(0); 64];
    for i in 0..64 {
        table[i] = pawns(factor * i as i64);
    }
    table
}

fn weights() -> Weights<Fixed> {
    Weights {
        piece_values: PieceValues { pawn: 1, knight: 3, bishop: 3, rook: 5, queen: 9, king: 100 },
        naive_pawn: numbered(1),
        naive_knight: numbered(2),
        naive_bishop: numbered(3),
        naive_rook: numbered(4),
        naive_queen: numbered(5),
        naive_king: numbered(6),
        middlegame: [
            numbered(1),
            numbered(2),
            numbered(3),
            numbered(4),
            numbered(5),
            numbered(6),
        ],
        endgame: [
            numbered(10),
            numbered(20),
            numbered(30),
            numbered(40),
            numbered(50),
            numbered(60),
        ],
    }
}

fn engine(modules: u32) -> Algorithm<Fixed> {
    Algorithm::new(modules, Duration::from_secs(1), weights())
}

fn score(modules: u32, fen: &str) -> Fixed {
    engine(modules).eval(&board(fen), &BoardCounts::new(), pawns(0), pawns(0))
}

fn static_of(modules: u32, fen: &str, move_count: usize) -> Fixed {
    let p = Placement::of_board(&board(fen));
    static_eval(&weights(), modules, &p, move_count, pawns(0), pawns(0), pawns(0), pawns(0))
}

#[test]
fn modules_are_bits() {
    assert!(module_enabled(ALPHA_BETA | NAIVE_PSQT, ALPHA_BETA));
    assert!(module_enabled(ALPHA_BETA | NAIVE_PSQT, NAIVE_PSQT));
    assert!(!module_enabled(ALPHA_BETA | NAIVE_PSQT, TRANSPOSITION_TABLE));
    assert!(!module_enabled(0, ALPHA_BETA));
}

#[test]
fn kinds_have_their_values() {
    let values = weights().piece_values;
    assert_eq!(piece_value(&values, Piece::Pawn), 1);
    assert_eq!(piece_value(&values, Piece::Knight), 3);
    assert_eq!(piece_value(&values, Piece::Bishop), 3);
    assert_eq!(piece_value(&values, Piece::Rook), 5);
    assert_eq!(piece_value(&values, Piece::Queen), 9);
    assert_eq!(piece_value(&values, Piece::King), 100);
}

#[test]
fn placements_tell_kinds_and_sides() {
    let p = Placement::of_board(&board(ROOKS));
    assert_eq!(p.of_kind(Piece::Rook), 0x81);
    assert_eq!(p.of_kind(Piece::King), 0x1000_0000_0000_0010);
    assert_eq!(p.of_kind(Piece::Pawn), 0);
    assert_eq!(p.side, Color::White);
    assert_eq!(p.own(), 0x91);
    let q = Placement::of_board(&board("4k3/8/8/8/8/8/8/R3K2R b KQ - 0 1"));
    assert_eq!(q.own(), 1 << 60);
}

#[test]
fn material_is_counted_with_the_kings() {
    let values = weights().piece_values;
    let first = Placement::of_board(&board(START));
    assert_eq!(material_each_side(&values, &first), (139, 139));
    let rooks = Placement::of_board(&board(ROOKS));
    assert_eq!(material_each_side(&values, &rooks), (110, 100));
}

#[test]
fn tables_start_with_the_eighth_rank() {
    let table = numbered(1);
    let all = u64::MAX;
    assert_eq!(naive_psqt_calc(&table, 1, all), pawns(56));
    assert_eq!(naive_psqt_calc(&table, 1 << 63, all), pawns(7));
    assert_eq!(naive_psqt_calc(&table, 1 << 7, all), pawns(63));
    assert_eq!(naive_psqt_calc(&table, 1 << 28, all), pawns(36));
    assert_eq!(naive_psqt_calc(&table, 1 | 1 << 63, all), pawns(63));
    assert_eq!(naive_psqt_calc(&table, 0b11, 0b10), pawns(57));
    assert_eq!(naive_psqt_calc(&table, all, all), pawns(63 * 32));
}

#[test]
fn sums_of_tables_are_remembered() {
    let table = numbered(1);
    let mut memo: HashMap<u64, Fixed> = HashMap::new();
    assert_eq!(in_hash_map(0b11, 0b10, &table, &mut memo), pawns(57));
    assert_eq!(memo.len(), 1);
    assert_eq!(memo.get(&0b10), Some(&pawns(57)));
    assert_eq!(in_hash_map(0b10, 0b110, &table, &mut memo), pawns(57));
    assert_eq!(memo.len(), 1);
    assert_eq!(in_hash_map(1, 1, &table, &mut memo), pawns(56));
    assert_eq!(memo.len(), 2);
}

#[test]
fn tapered_tables_count_every_square() {
    let e = engine(0);
    let b = board(ROOKS);
    // The rooks on A1 and H1 have entries 56 and 63.
    assert_eq!(e.calc_tapered_psqt_eval(&b, 3, true), pawns(4 * (56 + 63)));
    assert_eq!(e.calc_tapered_psqt_eval(&b, 3, false), pawns(40 * (56 + 63)));
    let first = board(START);
    assert_eq!(e.calc_tapered_psqt_eval(&first, 3, true), pawns(4 * (56 + 63)));
    assert_eq!(e.calc_tapered_psqt_eval(&b, 5, true), pawns(6 * 60));
    assert_eq!(e.calc_tapered_psqt_eval(&b, 0, true), pawns(0));
    let black = board("rnbqkbnr/pppppppp/8/8/8/8/PPPPPPPP/RNBQKBNR b KQkq - 0 1");
    assert_eq!(e.calc_tapered_psqt_eval(&black, 0, true), pawns(92));
    assert_eq!(e.calc_tapered_psqt_eval(&black, 1, true), pawns(2 * 7));
    assert_eq!(e.calc_tapered_psqt_eval(&black, 2, true), pawns(3 * 7));
    assert_eq!(e.calc_tapered_psqt_eval(&black, 4, true), pawns(5 * 3));
    assert_eq!(e.calc_tapered_psqt_eval(&black, 5, false), pawns(60 * 4));
}

fn structure(pawn_squares: &[u64], king: u64) -> Fixed {
    let mut bits = 0;
    for square in pawn_squares {
        bits |= 1 << square;
    }
    pawn_structure_calc(bits, u64::MAX, 1 << king)
}

#[test]
fn protected_pawns_are_worth_half_a_point() {
    // A2 protects B3.
    assert_eq!(structure(&[8, 17], 4), halves(1));
    // C2 protects B3.
    assert_eq!(structure(&[10, 17], 4), halves(1));
    // A2 and C2 protect B3.
    assert_eq!(structure(&[8, 10, 17], 4), halves(2));
    // H2 does not protect A4 and A2 does not protect H2.
    assert_eq!(structure(&[15, 24], 4), pawns(0));
    assert_eq!(structure(&[8, 15], 4), pawns(0));
}

#[test]
fn stacked_pawns_cost_half_a_point() {
    assert_eq!(structure(&[12, 28], 4), halves(-1));
    assert_eq!(structure(&[12, 28, 44], 4), halves(-2));
    assert_eq!(structure(&[15, 31], 4), halves(-1));
    assert_eq!(structure(&[9, 25], 4), halves(-1));
    assert_eq!(structure(&[8, 24], 4), halves(-1));
    assert_eq!(structure(&[8, 16, 24], 4), halves(-2));
}

#[test]
fn sheltering_pawns_are_worth_a_point() {
    assert_eq!(structure(&[13, 14, 15], 6), pawns(3));
    assert_eq!(structure(&[13, 14, 15], 4), pawns(0));
    assert_eq!(structure(&[8, 9, 10], 2), pawns(3));
    assert_eq!(structure(&[8, 9, 10], 3), pawns(0));
    assert_eq!(structure(&[23], 6), pawns(1));
    assert_eq!(structure(&[16], 2), pawns(1));
    assert_eq!(structure(&[24], 2), pawns(0));
}

#[test]
fn pawns_and_kings_of_the_other_side_do_not_count() {
    let calc: Fixed = pawn_structure_calc(0xE000 | 1 << 52, 0xE040, 0x40 | 1 << 60);
    assert_eq!(calc, pawns(3));
    let none: Fixed = pawn_structure_calc(0xE000, 0, 0x40);
    assert_eq!(none, pawns(0));
}

#[test]
fn sums_are_carried_with_the_sign_of_the_side() {
    let white = Placement::of_board(&board(ROOKS));
    let black = Placement::of_board(&board("r3k2r/8/8/8/8/8/8/4K3 b kq - 0 1"));
    // Rooks on A1 and H1: entries 56 and 63 of both tables.
    assert_eq!(
        carry(&weights(), &white, pawns(1), pawns(2)),
        (pawns(1 + 44 * (56 + 63)), pawns(2))
    );
    // Rooks on A8 and H8: entries 0 and 7.
    assert_eq!(
        carry(&weights(), &black, pawns(1), pawns(2)),
        (pawns(1 - 44 * 7), pawns(2))
    );
}

#[test]
fn material_is_balanced() {
    assert_eq!(score(0, START), pawns(0));
    assert_eq!(
        score(0, "rnb1kbnr/pppppppp/8/8/8/8/PPPPPPPP/RNBQKBNR w KQkq - 0 1"),
        pawns(9)
    );
    assert_eq!(
        score(0, "rnbqkbnr/pppppppp/8/8/8/8/PPPPPPPP/RNBQKB1R b KQkq - 0 1"),
        pawns(-3)
    );
}

#[test]
fn legal_moves_count_a_twentieth() {
    assert_eq!(score(SQUARE_CONTROL_METRIC, START), pawns(1));
    assert_eq!(
        score(
            SQUARE_CONTROL_METRIC,
            "rnbqkbnr/pppppppp/8/8/8/8/PPPPPPPP/RNBQKBNR b KQkq - 0 1"
        ),
        pawns(-1)
    );
    assert_eq!(static_of(SQUARE_CONTROL_METRIC, START, 1), Fixed { steps: 3900 });
    assert_eq!(static_of(0, START, 1), pawns(0));
}

#[test]
fn naive_tables_are_summed_over_the_own_pieces() {
    // Rooks on A1 and H1, entries 56 and 63, king on E1, entry 60, and two rooks
    // more than Black.
    assert_eq!(
        score(NAIVE_PSQT, ROOKS),
        pawns(10 + 4 * (56 + 63) + 6 * 60)
    );
    // The black king on E8, entry 4.
    assert_eq!(
        score(NAIVE_PSQT, "4k3/8/8/8/8/8/8/R3K2R b KQ - 0 1"),
        pawns(10 + 6 * 4)
    );
    // All kinds of black men on their first squares.
    assert_eq!(
        score(
            NAIVE_PSQT,
            "rnbqkbnr/pppppppp/8/8/8/8/PPPPPPPP/RNBQKBNR b KQkq - 0 1"
        ),
        pawns(92 + 2 * 7 + 3 * 7 + 4 * 7 + 5 * 3 + 6 * 4)
    );
}

#[test]
fn tapered_tables_are_weighted_by_the_material_left() {
    // All men: the middlegame alone.
    assert_eq!(
        score(
            TAPERED_EVERY_PESTO_PSQT,
            "rnbqkbnr/pppppppp/8/8/8/8/PPPPPPPP/RNBQKBNR b KQkq - 0 1"
        ),
        pawns(92 + 2 * 7 + 3 * 7 + 4 * 7 + 5 * 3)
    );
    // Two rooks, 10 of 78, with entries 56 and 63: (10 * 476 + 68 * 4760) / 78.
    assert_eq!(
        score(TAPERED_EVERY_PESTO_PSQT, ROOKS),
        Fixed { steps: 780000 + (10 * 476 + 68 * 4760) * 1000 }
    );
}

#[test]
fn carried_sums_are_weighted_by_the_material_left() {
    let b = board(START);
    let mut e = engine(TAPERED_INCREMENTAL_PESTO_PSQT);
    let none = BoardCounts::new();
    assert_eq!(e.eval(&b, &none, pawns(2), pawns(0)), pawns(156));
    // The second factor is 78 - 139 + 139 - 200, modulo 2^32.
    assert_eq!(
        e.eval(&b, &none, pawns(0), Fixed { steps: 1 }),
        Fixed { steps: 4294967174 }
    );
    let mut kingless = weights();
    kingless.piece_values.king = 0;
    let mut f = Algorithm::new(TAPERED_INCREMENTAL_PESTO_PSQT, Duration::from_secs(1), kingless);
    assert_eq!(f.eval(&b, &none, pawns(1), pawns(2)), pawns(78 + 156));
    assert_eq!(engine(0).eval(&b, &none, pawns(1), pawns(2)), pawns(0));
}

#[test]
fn the_terms_are_added_up() {
    let all = SQUARE_CONTROL_METRIC | NAIVE_PSQT | PAWN_STRUCTURE | TAPERED_EVERY_PESTO_PSQT;
    // White: king G1, pawns F2, G2, H2; Black: king G8.
    let fen = "6k1/8/8/8/8/8/5PPP/6K1 w - - 0 1";
    let b = board(fen);
    let moves = b.legal_moves().len() as i64;
    // Pawns on entries 53, 54 and 55, the king on entry 62.
    let naive = 53 + 54 + 55 + 6 * 62;
    let tapered = (3 * 162 + 75 * 1620) * 1000;
    assert_eq!(
        score(all, fen),
        Fixed { steps: moves * 3900 + (3 + naive + 3) * 78000 + tapered }
    );
}

#[test]
fn ended_games_have_fixed_scores() {
    let all = SQUARE_CONTROL_METRIC | NAIVE_PSQT | PAWN_STRUCTURE | TAPERED_EVERY_PESTO_PSQT;
    assert_eq!(score(all, "7k/5Q2/6K1/8/8/8/8/8 b - - 0 1"), pawns(0));
    assert_eq!(
        score(all, "rnb1kbnr/pppp1ppp/8/4p3/6Pq/5P2/PPPPP2P/RNBQKBNR w KQkq - 0 1"),
        Fixed::lowest()
    );
    assert_eq!(
        score(all, "R5k1/5ppp/8/8/8/8/8/6K1 b - - 0 1"),
        Fixed::highest()
    );
}

#[test]
fn a_third_occurrence_is_a_draw() {
    let b = board(ROOKS);
    let mut line = BoardCounts::new();
    let mut e = engine(0);
    assert_eq!(e.eval(&b, &line, pawns(0), pawns(0)), pawns(10));
    line.count(&b);
    assert_eq!(e.eval(&b, &line, pawns(0), pawns(0)), pawns(10));
    line.count(&b);
    assert_eq!(e.eval(&b, &line, pawns(0), pawns(0)), pawns(0));
    // Another board is not concerned.
    let other = board("4k3/8/8/8/8/8/8/R3K2R b KQ - 0 1");
    assert_eq!(e.eval(&other, &line, pawns(0), pawns(0)), pawns(10));
}

#[test]
fn remembered_sums_do_not_change_scores() {
    let fens = [START, ROOKS, "4k3/8/8/8/8/8/8/R3K2R b KQ - 0 1", ROOKS, START];
    let mut e = engine(NAIVE_PSQT);
    for fen in fens {
        let again = e.eval(&board(fen), &BoardCounts::new(), pawns(0), pawns(0));
        assert_eq!(again, score(NAIVE_PSQT, fen));
    }
}

#[test]
fn the_shape_of_pawns_is_remembered_and_their_shelter_is_not() {
    let away = "6k1/8/8/8/8/8/5PPP/4K3 w - - 0 1";
    let sheltered = "6k1/8/8/8/8/8/5PPP/6K1 w - - 0 1";
    assert_eq!(score(PAWN_STRUCTURE, away), pawns(3));
    assert_eq!(score(PAWN_STRUCTURE, sheltered), pawns(6));
    let mut e = engine(PAWN_STRUCTURE);
    let none = BoardCounts::new();
    for _ in 0..2 {
        assert_eq!(e.eval(&board(away), &none, pawns(0), pawns(0)), pawns(3));
        assert_eq!(e.eval(&board(sheltered), &none, pawns(0), pawns(0)), pawns(6));
    }
}

#[test]
fn pawns_of_whole_boards_are_scored() {
    // Stacked on the A file, with equal material.
    assert_eq!(score(PAWN_STRUCTURE, "4k3/p6p/8/8/8/P7/P7/4K3 w - - 0 1"), halves(-1));
    // The king on C1 behind A2, B2 and C2.
    assert_eq!(score(PAWN_STRUCTURE, "4k3/ppp5/8/8/8/8/PPP5/2K5 w - - 0 1"), pawns(3));
    // The king on G1 behind F2, G2 and H2.
    assert_eq!(score(PAWN_STRUCTURE, "4k3/5ppp/8/8/8/8/5PPP/6K1 w - - 0 1"), pawns(3));
}

#[test]
fn the_parts_of_a_pawn_structure_make_it_up() {
    let bits = 0xE000 | 1 << 22;
    let shape: Fixed = pawn_shape_calc(bits);
    // F2 and H2 protect G3; G2 and G3 are stacked.
    assert_eq!(shape, halves(2 - 1));
    assert_eq!(with_shelter(shape, bits, 0x40), halves(1 + 6));
    let whole: Fixed = pawn_structure_calc(bits, u64::MAX, 0x40);
    assert_eq!(whole, halves(1 + 6));
}

#[test]
fn no_piece_of_a_kind_adds_nothing() {
    assert_eq!(naive_psqt_calc(&numbered(7), 0, u64::MAX), pawns(0));
    assert_eq!(naive_psqt_calc(&numbered(7), u64::MAX, 0), pawns(0));
    assert_eq!(engine(0).calc_tapered_psqt_eval(&board(ROOKS), 4, false), pawns(0));
}
