use chess_search::board::Board;
use chess_search::board::BoardStatus;
use chess_search::board::Color;
use chess_search::board::Piece;
use std::str::FromStr;

/// A small generator of numbers, the same on every run.
struct Numbers(u64);

impl Numbers {
    fn below(&mut self, n: usize) -> usize {
        self.0 = self.0.wrapping_mul(6364136223846793005).wrapping_add(1442695040888963407);
        (self.0 >> 33) as usize % n
    }
}

const KINDS: [(Piece, chess::Piece); 6] = [
    (Piece::Pawn, chess::Piece::Pawn),
    (Piece::Knight, chess::Piece::Knight),
    (Piece::Bishop, chess::Piece::Bishop),
    (Piece::Rook, chess::Piece::Rook),
    (Piece::Queen, chess::Piece::Queen),
    (Piece::King, chess::Piece::King),
];

/// Holds a board against the one of the crate that the rules come from.
fn compare(board: &Board, outside: &chess::Board) {
    assert_eq!(board.fen(), outside.to_string());
    assert_eq!(chess::Board::from_str(board.fen()).unwrap(), *outside);
    assert_eq!(Board::from_fen(board.fen()).unwrap().fen(), board.fen());
    assert_eq!(
        board.side_to_move() == Color::White,
        outside.side_to_move() == chess::Color::White
    );
    for (kind, outside_kind) in KINDS {
        assert_eq!(board.pieces(kind), outside.pieces(outside_kind).0);
    }
    assert_eq!(
        board.color_combined(Color::White),
        outside.color_combined(chess::Color::White).0
    );
    assert_eq!(
        board.color_combined(Color::Black),
        outside.color_combined(chess::Color::Black).0
    );
    assert_eq!(board.checkers(), outside.checkers().0);
    let status = match outside.status() {
        chess::BoardStatus::Ongoing => BoardStatus::Ongoing,
        chess::BoardStatus::Stalemate => BoardStatus::Stalemate,
        chess::BoardStatus::Checkmate => BoardStatus::Checkmate,
    };
    assert_eq!(board.status(), status);
}

fn play(fen: &str, seed: u64, games: usize, length: usize) {
    let mut numbers = Numbers(seed);
    for _ in 0..games {
        let mut board = Board::from_fen(fen).unwrap();
        let mut outside = chess::Board::from_str(fen).unwrap();
        compare(&board, &outside);
        for _ in 0..length {
            let moves = board.legal_moves();
            let outside_moves: Vec<chess::ChessMove> =
                chess::MoveGen::new_legal(&outside).collect();
            assert_eq!(moves.len(), outside_moves.len());
            if moves.is_empty() {
                break;
            }
            let i = numbers.below(moves.len());
            assert_eq!(moves[i].source, outside_moves[i].get_source().to_int());
            assert_eq!(moves[i].dest, outside_moves[i].get_dest().to_int());
            assert_eq!(
                moves[i].promotion.map(|kind| kind.to_index()),
                outside_moves[i].get_promotion().map(|kind| kind.to_index())
            );
            board = board.make_move_new(moves[i]);
            outside = outside.make_move_new(outside_moves[i]);
            compare(&board, &outside);
        }
    }
}

#[test]
fn games_from_the_first_board_can_be_followed() {
    play("rnbqkbnr/pppppppp/8/8/8/8/PPPPPPPP/RNBQKBNR w KQkq - 0 1", 1, 20, 150);
}

#[test]
fn games_with_castling_and_passing_can_be_followed() {
    play("r3k2r/p1ppqpb1/bn2pnp1/3PN3/1p2P3/2N2Q1p/PPPBBPPP/R3K2R w KQkq - 0 1", 2, 20, 80);
    play("8/2p5/3p4/KP5r/1R3p1k/8/4P1P1/8 w - - 0 1", 3, 40, 60);
}

#[test]
fn games_with_promotions_can_be_followed() {
    play("r3k2r/Pppp1ppp/1b3nbN/nP6/BBP1P3/q4N2/Pp1P2PP/R2Q1RK1 w kq - 0 1", 4, 20, 60);
    play("n1n5/PPPk4/8/8/8/8/4Kppp/5N1N b - - 0 1", 5, 20, 60);
}

#[test]
fn games_with_pawns_on_the_last_ranks_can_be_followed() {
    play("P2pk2P/8/3p4/8/8/4P3/8/p2PK2p w - - 0 1", 6, 40, 60);
    play("pP2k1pP/4p3/8/3P1p2/2p1P3/8/3P4/PpR1K1Pp b - - 0 1", 7, 40, 60);
}

#[test]
fn games_with_eighteen_men_can_be_followed() {
    play("4k3/qq6/8/8/8/NN6/NNNNNNNN/RNBQKBNR w - - 0 1", 8, 20, 60);
    play("rnbqkbnr/nnnnnnnn/n7/8/8/NB6/PNNNNNNN/RNBQKBNR w KQkq - 0 1", 9, 10, 60);
}
