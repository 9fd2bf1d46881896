use chess_search::board::is_laid_out;
use chess_search::board::is_sound;
use chess_search::board::Board;
use chess_search::board::BoardStatus;
use chess_search::board::ChessMove;
use chess_search::board::Color;
use chess_search::board::Piece;
use chess_search::counts::BoardCounts;

const START: &str = "rnbqkbnr/pppppppp/8/8/8/8/PPPPPPPP/RNBQKBNR w KQkq - 0 1";

fn board(fen: &str) -> Board {
    Board::from_fen(fen).unwrap()
}

fn plain(source: u8, dest: u8) -> ChessMove {
    ChessMove { source, dest, promotion: None }
}

#[test]
fn reads_the_first_board() {
    let start = board(START);
    assert_eq!(start.fen(), START);
    assert_eq!(start.side_to_move(), Color::White);
    assert_eq!(start.pieces(Piece::Pawn), 0x00FF_0000_0000_FF00);
    assert_eq!(start.pieces(Piece::Knight), 0x4200_0000_0000_0042);
    assert_eq!(start.pieces(Piece::Bishop), 0x2400_0000_0000_0024);
    assert_eq!(start.pieces(Piece::Rook), 0x8100_0000_0000_0081);
    assert_eq!(start.pieces(Piece::Queen), 0x0800_0000_0000_0008);
    assert_eq!(start.pieces(Piece::King), 0x1000_0000_0000_0010);
    assert_eq!(start.color_combined(Color::White), 0xFFFF);
    assert_eq!(start.color_combined(Color::Black), 0xFFFF_0000_0000_0000);
    assert_eq!(start.checkers(), 0);
    assert_eq!(start.status(), BoardStatus::Ongoing);
    assert_eq!(start.legal_moves().len(), 20);
    assert!(start.legal_moves().contains(&plain(12, 28)));
}

#[test]
fn move_counters_are_forgotten() {
    let later = board("rnbqkbnr/pppppppp/8/8/8/8/PPPPPPPP/RNBQKBNR w KQkq - 5 17");
    assert_eq!(later.fen(), START);
}

#[test]
fn rejects_what_is_no_board() {
    assert!(Board::from_fen("").is_none());
    assert!(Board::from_fen("nonsense").is_none());
    // The side that is not to move stands in check.
    assert!(Board::from_fen("4k3/8/8/8/8/8/4R3/4K3 w - - 0 1").is_none());
    // Unknown side, and too few fields.
    assert!(Board::from_fen("4k3/8/8/8/8/8/8/4K3 x - - 0 1").is_none());
    assert!(Board::from_fen("4k3/8/8/8/8/8/8/4K3 w -").is_none());
}

#[test]
fn rejects_boards_without_two_kings() {
    for side in ["w", "b"] {
        for field in ["8/8/8/8/8/8/8/4K3", "4k3/8/8/8/8/8/8/8", "8/8/8/8/8/8/8/8"] {
            assert!(Board::from_fen(&format!("{} {} - - 0 1", field, side)).is_none());
        }
        for field in ["4k3/8/8/8/8/8/8/K3K3", "k3k3/8/8/8/8/8/8/4K3"] {
            assert!(Board::from_fen(&format!("{} {} - - 0 1", field, side)).is_none());
        }
    }
}

#[test]
fn boards_have_eight_ranks_of_eight_squares() {
    assert!(is_laid_out("4k3/8/8/8/8/8/8/4K3"));
    assert!(is_laid_out("4k3/8/8/8/8/8/8/4K3 and whatever follows"));
    assert!(is_laid_out(START));
    assert!(!is_laid_out(""));
    assert!(!is_laid_out(" 4k3/8/8/8/8/8/8/4K3"));
    assert!(!is_laid_out("4k3/8/8/8/8/8/4K3"));
    assert!(!is_laid_out("4k3/8/8/8/8/8/8/8/4K3"));
    assert!(!is_laid_out("4k3/8/8/8/8/8/8/4K3/"));
    assert!(!is_laid_out("4k4/8/8/8/8/8/8/4K3"));
    assert!(!is_laid_out("4k2/8/8/8/8/8/8/4K3"));
    assert!(!is_laid_out("4k3/9/8/8/8/8/8/4K3"));
    assert!(!is_laid_out("4k3/08/8/8/8/8/8/4K3"));
    assert!(!is_laid_out("4k3/8/8/8/8/8/8/4X3"));
    // A rank that goes on over the king.
    assert!(!is_laid_out("4k3/8/8/8/8/8/8/K7R"));
    assert!(Board::from_fen("4k3/8/8/8/8/8/8/K7R w - - 0 1").is_none());
}

#[test]
fn pawns_may_stand_on_the_last_ranks() {
    let stuck = board("P5k1/8/8/8/8/8/8/4K3 w - - 0 1");
    assert_eq!(stuck.fen(), "P5k1/8/8/8/8/8/8/4K3 w - - 0 1");
    assert_eq!(stuck.legal_moves().len(), 5);
    let first = board("6k1/8/8/8/8/8/8/P3K3 w - - 0 1");
    assert_eq!(first.try_move(plain(0, 8)).unwrap().fen(), "6k1/8/8/8/8/8/P7/4K3 b - - 0 1");
    assert!(first.try_move(plain(0, 16)).is_none());
}

/// White has seventeen men.
const SEVENTEEN: &str = "rnbqkbnr/pppppppp/8/8/8/P7/PPPPPPPP/RNBQKBNR w KQkq - 0 1";
/// Black's pawn on D5 can be taken in passing, while a knight gives check.
const CHECKED: &str = "4k3/8/8/3pP3/8/5n2/8/4K3 w - d6 0 1";

#[test]
fn boards_with_many_men_are_read() {
    let many = board(SEVENTEEN);
    assert_eq!(many.fen(), SEVENTEEN);
    assert!(!many.is_playable());
    assert!(many.has_room());
    assert!(many.is_walkable(2));
    assert_eq!(many.legal_moves().len(), 18);
    // White's nineteen men matter when White is to move.
    let crowd = board("k7/7p/8/8/8/NNN5/PPPPPPPP/RNBQKBNR b - - 0 1");
    assert!(crowd.has_room());
    assert!(!crowd.is_playable());
    assert!(crowd.is_walkable(0));
    assert!(!crowd.is_walkable(1));
    let turned = board("4k3/8/8/8/8/QQ6/PPPPPPPP/RNBQKBNR w - - 0 1");
    assert!(turned.has_room());
    let over = board("4k3/8/8/8/8/QQQ5/PPPPPPPP/RNBQKBNR w - - 0 1");
    assert!(!over.has_room());
    assert!(!over.is_walkable(0));
    assert!(over.try_move(plain(8, 24)).is_none());
    assert!(board(START).is_playable());
    assert!(board(START).has_room());
    assert!(board(START).is_walkable(2));
}

#[test]
fn room_is_kept_for_captures_in_passing() {
    // Seventeen men, and two pawns beside the one that can be taken.
    let fen = "4k3/8/8/2PpP3/8/QQQ5/QQQQQQQQ/RQ1QK3 w - d6 0 1";
    let full = board(fen);
    assert_eq!(full.en_passant(), Some(35));
    assert!(!full.has_room());
    let one_less = board("4k3/8/8/2PpP3/8/QQQ5/QQQQQQQQ/R2QK3 w - d6 0 1");
    assert!(one_less.has_room());
    let other = board("4k3/8/8/2PpP3/8/QQQ5/QQQQQQQQ/RQ1QK3 w - - 0 1");
    assert_eq!(other.en_passant(), None);
    assert!(other.has_room());
}

#[test]
fn a_capture_in_passing_may_lead_to_no_board() {
    let checked = board(CHECKED);
    assert!(!checked.is_playable());
    assert!(checked.is_walkable(0));
    assert!(!checked.is_walkable(1));
    assert!(checked.legal_moves().contains(&plain(36, 43)));
    assert!(checked.try_move(plain(36, 43)).is_none());
    assert!(checked.try_move(plain(4, 12)).is_some());
}

#[test]
fn passing_through_a_piece_is_read_as_it_is() {
    let passing = board("4k3/8/8/8/3Pp3/3N4/8/4K3 b - d3 0 1");
    assert!(!passing.is_playable());
    assert!(passing.has_room());
    assert!(passing.is_walkable(2));
}

#[test]
fn moves_pass_the_turn() {
    let start = board(START);
    for chess_move in start.legal_moves() {
        let next = start.make_move_new(chess_move);
        assert_eq!(next.side_to_move(), Color::Black);
        assert_ne!(next.fen(), start.fen());
    }
}

#[test]
fn a_pawn_can_be_taken_in_passing() {
    let passing = board("4k3/8/8/8/3Pp3/8/8/4K3 b - d3 0 1");
    assert_eq!(passing.fen(), "4k3/8/8/8/3Pp3/8/8/4K3 b - d4 0 1");
    let taken = passing.try_move(plain(28, 19)).unwrap();
    assert_eq!(taken.fen(), "4k3/8/8/8/8/3p4/8/4K3 w - - 0 1");
    let other = board("4k3/8/8/8/3Pp3/8/8/4K3 b - - 0 1");
    assert!(other.try_move(plain(28, 19)).is_none());
}

#[test]
fn soundness_looks_at_men_and_passing() {
    let w = Color::White;
    assert!(is_sound(w, 0xFFFF, 0, 0, 0, 0, None));
    assert!(!is_sound(w, 0x1_FFFF, 0, 0, 0, 0, None));
    assert!(!is_sound(w, 0, 0x1_FFFF, 0, 0, 0, None));
    assert!(is_sound(w, 0, 1 << 32, 1 << 32, 0, 0, Some(32)));
    assert!(!is_sound(w, 0, 0, 0, 0, 0, Some(23)));
    assert!(!is_sound(w, 0, 0, 0, 0, 0, Some(40)));
    assert!(!is_sound(w, 1 << 40, 0, 0, 0, 0, Some(32)));
    assert!(!is_sound(w, 0, 1 << 48, 0, 0, 0, Some(32)));
    assert!(!is_sound(Color::Black, 1 << 16, 0, 0, 0, 0, Some(24)));
    assert!(!is_sound(Color::Black, 0, 1 << 8, 0, 0, 0, Some(24)));
    assert!(is_sound(w, 0, 0, 1 << 32, 0, 1 << 32, Some(32)));
    assert!(!is_sound(w, 0, 0, 1 << 33, 0, 1 << 33, Some(32)));
    assert!(!is_sound(w, 0, 0, 0, 1 << 20, 1 << 20, Some(32)));
}

#[test]
fn legal_moves_are_made() {
    let start = board(START);
    let opened = start.make_move_new(plain(12, 28));
    assert_eq!(opened.fen(), "rnbqkbnr/pppppppp/8/8/4P3/8/PPPP1PPP/RNBQKBNR b KQkq - 0 1");
    assert_eq!(opened.side_to_move(), Color::Black);
    assert_eq!(start.try_move(plain(12, 28)).unwrap().fen(), opened.fen());
}

#[test]
fn illegal_moves_are_refused() {
    let start = board(START);
    assert!(start.try_move(plain(12, 36)).is_none());
    assert!(start.try_move(plain(200, 28)).is_none());
    let promoting = ChessMove { source: 12, dest: 28, promotion: Some(Piece::Queen) };
    assert!(start.try_move(promoting).is_none());
}

#[test]
fn pawns_are_promoted() {
    let last_step = board("8/4P1k1/8/8/8/8/8/4K3 w - - 0 1");
    let moves = last_step.legal_moves();
    assert_eq!(moves.len(), 9);
    assert!(!moves.contains(&plain(52, 60)));
    let kinds = [Piece::Queen, Piece::Rook, Piece::Bishop, Piece::Knight];
    let letters = ["Q", "R", "B", "N"];
    for i in 0..4 {
        let promoting = ChessMove { source: 52, dest: 60, promotion: Some(kinds[i]) };
        assert!(moves.contains(&promoting));
        assert_eq!(
            last_step.try_move(promoting).unwrap().fen(),
            format!("4{}3/6k1/8/8/8/8/8/4K3 b - - 0 1", letters[i])
        );
    }
}

#[test]
fn a_mated_side_is_attacked() {
    let mated = board("rnb1kbnr/pppp1ppp/8/4p3/6Pq/5P2/PPPPP2P/RNBQKBNR w KQkq - 0 1");
    assert_eq!(mated.status(), BoardStatus::Checkmate);
    assert_eq!(mated.checkers(), 1 << 31);
    assert!(mated.legal_moves().is_empty());
}

#[test]
fn a_side_in_stalemate_is_not_attacked() {
    let stuck = board("7k/5Q2/6K1/8/8/8/8/8 b - - 0 1");
    assert_eq!(stuck.status(), BoardStatus::Stalemate);
    assert_eq!(stuck.checkers(), 0);
    assert!(stuck.legal_moves().is_empty());
}

#[test]
fn kinds_are_numbered() {
    assert_eq!(Piece::Pawn.to_index(), 0);
    assert_eq!(Piece::Knight.to_index(), 1);
    assert_eq!(Piece::Bishop.to_index(), 2);
    assert_eq!(Piece::Rook.to_index(), 3);
    assert_eq!(Piece::Queen.to_index(), 4);
    assert_eq!(Piece::King.to_index(), 5);
}

#[test]
fn copies_have_the_same_text() {
    let start = board(START);
    assert_eq!(start.copy().into_fen(), START);
    assert_eq!(start.into_fen(), START);
}

#[test]
fn boards_are_counted_and_taken_back() {
    let start = board(START);
    let opened = start.make_move_new(plain(12, 28));
    let mut counts = BoardCounts::new();
    assert_eq!(counts.times(&start), 0);
    assert_eq!(counts.count(&start), 0);
    assert_eq!(counts.count(&start), 1);
    assert_eq!(counts.times(&start), 2);
    assert_eq!(counts.times(&opened), 0);
    counts.take_back(&start);
    assert_eq!(counts.times(&start), 1);
    counts.count(&opened);
    counts.take_back(&opened);
    assert_eq!(counts.times(&opened), 0);
    assert_eq!(counts.times(&start), 1);
}
