//! Chess boards. The rules of the game are those of the `chess` crate; a board
//! is held as the text that the crate prints for it.
use crate::bits::bit;
use crate::bits::count_bits;
use crate::bits::lemma_count_bound;
use crate::bits::popcnt;
use vstd::prelude::*;
use vstd::string::StrSliceExecFns;

verus! {

/// A side.
#[derive(Clone, Copy, Debug, PartialEq, Eq, Structural)]
pub enum Color {
    White,
    Black,
}

/// A kind of piece.
#[derive(Clone, Copy, Debug, PartialEq, Eq, Structural)]
pub enum Piece {
    Pawn,
    Knight,
    Bishop,
    Rook,
    Queen,
    King,
}

impl Piece {
    /// The place of a kind in tables by kind.
    pub open spec fn index(self) -> int {
        match self {
            Piece::Pawn => 0,
            Piece::Knight => 1,
            Piece::Bishop => 2,
            Piece::Rook => 3,
            Piece::Queen => 4,
            Piece::King => 5,
        }
    }

    /// The place of a kind in tables by kind.
    pub fn to_index(self) -> (r: usize)
        ensures
            r == self.index(),
            r < 6,
    {
        match self {
            Piece::Pawn => 0,
            Piece::Knight => 1,
            Piece::Bishop => 2,
            Piece::Rook => 3,
            Piece::Queen => 4,
            Piece::King => 5,
        }
    }
}

/// A move: the square that the piece leaves, the square that it goes to and the
/// kind that a pawn is promoted to.
#[derive(Clone, Copy, Debug, PartialEq, Eq, Structural)]
pub struct ChessMove {
    pub source: u8,
    pub dest: u8,
    pub promotion: Option<Piece>,
}

/// What a player does when it is their turn.
#[derive(Clone, Copy, Debug, PartialEq, Eq, Structural)]
pub enum Action {
    MakeMove(ChessMove),
    DeclareDraw,
    Resign(Color),
}

/// Whether a game goes on.
#[derive(Clone, Copy, Debug, PartialEq, Eq, Structural)]
pub enum BoardStatus {
    Ongoing,
    Stalemate,
    Checkmate,
}

/// How many squares of a rank a character of Forsyth-Edwards notation stands
/// for, 0 for a character that stands for none.
pub open spec fn squares_for(c: char) -> nat {
    match c {
        '1' => 1,
        '2' => 2,
        '3' => 3,
        '4' => 4,
        '5' => 5,
        '6' => 6,
        '7' => 7,
        '8' => 8,
        'p' | 'n' | 'b' | 'r' | 'q' | 'k' => 1,
        'P' | 'N' | 'B' | 'R' | 'Q' | 'K' => 1,
        _ => 0,
    }
}

/// Whether the rest of the first field, from character `i` on, fills a board of
/// which `ranks` ranks and `files` squares of the next rank are filled and on
/// which White has `white` kings and Black has `black`.
pub open spec fn fills_board(
    fen: Seq<char>,
    i: nat,
    ranks: nat,
    files: nat,
    white: nat,
    black: nat,
) -> bool
    decreases fen.len() - i,
{
    if i >= fen.len() || fen[i as int] == ' ' {
        ranks == 7 && files == 8 && white == 1 && black == 1
    } else {
        let c = fen[i as int];
        if c == '/' {
            ranks < 7 && files == 8 && fills_board(fen, i + 1, ranks + 1, 0, white, black)
        } else {
            squares_for(c) > 0 && files + squares_for(c) <= 8 && fills_board(
                fen,
                i + 1,
                ranks,
                files + squares_for(c),
                if c == 'K' {
                    white + 1
                } else {
                    white
                },
                if c == 'k' {
                    black + 1
                } else {
                    black
                },
            )
        }
    }
}

/// Whether the first field of a text is a board of eight ranks of eight squares
/// with one king of each side.
pub open spec fn laid_out(fen: Seq<char>) -> bool {
    fills_board(fen, 0, 0, 0, 0, 0)
}

/// What `chess` prints for the board that it reads from a text in
/// Forsyth-Edwards notation that is [`laid_out`], or `None` where it rejects the
/// text.
pub uninterp spec fn board_text(fen: Seq<char>) -> Option<Seq<char>>;

/// The side to move, which is the second field of a text.
pub open spec fn side_of(text: Seq<char>) -> Color {
    match text.index_of_first(' ') {
        Some(i) => if text[i + 1] == 'b' {
            Color::Black
        } else {
            Color::White
        },
        None => Color::White,
    }
}

/// The squares with a kind of piece, `chess::Board::pieces`.
pub uninterp spec fn pieces_of(text: Seq<char>, piece: Piece) -> u64;

/// The squares with a piece of a side, `chess::Board::color_combined`.
pub uninterp spec fn men_of(text: Seq<char>, color: Color) -> u64;

/// The squares from which the king of the side to move is attacked,
/// `chess::Board::checkers`.
pub uninterp spec fn checkers_of(text: Seq<char>) -> u64;

/// The square of the pawn that can be taken in passing,
/// `chess::Board::en_passant`.
pub uninterp spec fn en_passant_of(text: Seq<char>) -> Option<u8>;

/// The legal moves in the order in which `chess::MoveGen` gives them.
pub uninterp spec fn moves_of(text: Seq<char>) -> Seq<ChessMove>;

/// The board after a generated move, `chess::Board::make_move_new`, or `None`
/// where the crate does not take what is left for a board: a capture in passing
/// is generated even where it leaves the king in check from a knight or a pawn.
pub uninterp spec fn next_text(text: Seq<char>, chess_move: ChessMove) -> Option<Seq<char>>;

/// The board after a legal move.
pub open spec fn text_after(text: Seq<char>, chess_move: ChessMove) -> Seq<char> {
    next_text(text, chess_move)->Some_0
}

/// Whether the text is what `chess` prints for a board.
pub open spec fn printed(text: Seq<char>) -> bool {
    laid_out(text) && board_text(text) == Some(text)
}

/// The two squares that a pawn passed over or left when it last moved two
/// squares to the square given, with `side` to move next.
pub open spec fn path_behind(side: Color, square: u8) -> u64 {
    match side {
        Color::White => (1u64 << ((square + 8) as u64)) | (1u64 << ((square + 16) as u64)),
        Color::Black => (1u64 << ((square - 8) as u64)) | (1u64 << ((square - 16) as u64)),
    }
}

/// How many of some pawns stand beside the pawn that can be taken in passing.
pub open spec fn flankers(pawns: u64, en_passant: Option<u8>) -> nat {
    match en_passant {
        None => 0,
        Some(square) => {
            let left = if square % 8 > 0 {
                bit(pawns, square - 1) as nat
            } else {
                0
            };
            let right = if square % 8 < 7 {
                bit(pawns, square + 1) as nat
            } else {
                0
            };
            left + right
        },
    }
}

/// How many entries `chess` may need to list the moves of a board: one for each
/// man of the side to move and one for each capture in passing.
pub open spec fn entries_for(text: Seq<char>) -> nat {
    count_bits(men_of(text, side_of(text))) + flankers(
        pieces_of(text, Piece::Pawn) & men_of(text, side_of(text)),
        en_passant_of(text),
    )
}

/// The length of the list in which `chess` collects the moves of a board. It
/// does not look whether there is room.
pub const MOVE_LIST_LENGTH: u32 = 18;

/// Whether there is room for the moves of a board.
pub open spec fn has_room(text: Seq<char>) -> bool {
    entries_for(text) <= MOVE_LIST_LENGTH
}

/// Whether `chess` defines the next `moves` moves from a board, whichever are
/// made: there is room for the moves of each board, and each leads to a board.
pub open spec fn walkable(text: Seq<char>, moves: nat) -> bool
    decreases moves,
{
    &&& printed(text)
    &&& has_room(text)
    &&& moves > 0 ==> forall|i: int|
        0 <= i < moves_of(text).len() ==> leads_on(text, #[trigger] moves_of(text)[i]) && walkable(
            text_after(text, moves_of(text)[i]),
            (moves - 1) as nat,
        )
}

/// Whether a move leads to a board.
pub open spec fn leads_on(text: Seq<char>, chess_move: ChessMove) -> bool {
    next_text(text, chess_move) is Some
}

/// Whether the next `moves` moves from a board are defined. On a [`playable`]
/// board they are, however many; on another they are where it is [`walkable`].
pub open spec fn searchable(text: Seq<char>, moves: nat) -> bool {
    playable(text) || walkable(text, moves)
}

/// What boards that arise in play have besides what `chess` checks when it reads
/// one: no side has more than sixteen men, and a pawn that can be taken in
/// passing has just come straight from its first square, so that no knight and
/// no other pawn gives check. The moves of the crate lead from such a board to
/// such boards, and there always is room for them.
pub open spec fn sound(
    side: Color,
    white: u64,
    black: u64,
    pawns: u64,
    knights: u64,
    checkers: u64,
    en_passant: Option<u8>,
) -> bool {
    &&& count_bits(white) <= 16
    &&& count_bits(black) <= 16
    &&& match en_passant {
        None => true,
        Some(square) => {
            &&& 24 <= square < 40
            &&& (white | black) & path_behind(side, square) == 0
            &&& checkers & (knights | pawns) & !(1u64 << (square as u64)) == 0
        },
    }
}

/// Whether a text stands for a board from which all lines of play are defined.
pub open spec fn playable(text: Seq<char>) -> bool {
    &&& printed(text)
    &&& sound(
        side_of(text),
        men_of(text, Color::White),
        men_of(text, Color::Black),
        pieces_of(text, Piece::Pawn),
        pieces_of(text, Piece::Knight),
        checkers_of(text),
        en_passant_of(text),
    )
}

/// The status of a game: it goes on while there is a legal move, and else ends
/// in stalemate where the king is not attacked and in checkmate where it is.
pub open spec fn status_of(text: Seq<char>) -> BoardStatus {
    if moves_of(text).len() > 0 {
        BoardStatus::Ongoing
    } else if checkers_of(text) == 0 {
        BoardStatus::Stalemate
    } else {
        BoardStatus::Checkmate
    }
}

/// Decides [`sound`].
pub fn is_sound(
    side: Color,
    white: u64,
    black: u64,
    pawns: u64,
    knights: u64,
    checkers: u64,
    en_passant: Option<u8>,
) -> (r: bool)
    ensures
        r == sound(side, white, black, pawns, knights, checkers, en_passant),
{
    if popcnt(white) > 16 || popcnt(black) > 16 {
        return false;
    }
    match en_passant {
        None => true,
        Some(square) => {
            if square < 24 || square >= 40 {
                return false;
            }
            let path: u64 = match side {
                Color::White => (1u64 << ((square + 8) as u64)) | (1u64 << ((square + 16) as u64)),
                Color::Black => (1u64 << ((square - 8) as u64)) | (1u64 << ((square - 16) as u64)),
            };
            (white | black) & path == 0 && checkers & (knights | pawns) & !(1u64 << (
            square as u64)) == 0
        },
    }
}

fn squares_of(c: char) -> (r: usize)
    ensures
        r == squares_for(c),
        r <= 8,
{
    match c {
        '1' => 1,
        '2' => 2,
        '3' => 3,
        '4' => 4,
        '5' => 5,
        '6' => 6,
        '7' => 7,
        '8' => 8,
        'p' | 'n' | 'b' | 'r' | 'q' | 'k' => 1,
        'P' | 'N' | 'B' | 'R' | 'Q' | 'K' => 1,
        _ => 0,
    }
}

/// Decides [`laid_out`].
pub fn is_laid_out(fen: &str) -> (r: bool)
    ensures
        r == laid_out(fen@),
{
    let length: usize = fen.unicode_len();
    let mut i: usize = 0;
    let mut ranks: usize = 0;
    let mut files: usize = 0;
    let mut white: usize = 0;
    let mut black: usize = 0;
    while i < length
        invariant
            length == fen@.len(),
            i <= length,
            ranks <= 7,
            files <= 8,
            white <= i,
            black <= i,
            laid_out(fen@) == fills_board(
                fen@,
                i as nat,
                ranks as nat,
                files as nat,
                white as nat,
                black as nat,
            ),
        decreases length - i,
    {
        let c: char = fen.get_char(i);
        if c == ' ' {
            return ranks == 7 && files == 8 && white == 1 && black == 1;
        }
        if c == '/' {
            if ranks == 7 || files < 8 {
                return false;
            }
            ranks = ranks + 1;
            files = 0;
        } else {
            let squares: usize = squares_of(c);
            if squares == 0 || files + squares > 8 {
                return false;
            }
            files = files + squares;
            if c == 'K' {
                white = white + 1;
            }
            if c == 'k' {
                black = black + 1;
            }
        }
        i = i + 1;
    }
    ranks == 7 && files == 8 && white == 1 && black == 1
}

/// Reads a board with `chess::Board::from_str` and prints it with the crate's
/// `Display`. What is printed names the board: read and printed again it gives
/// the same text. The crate looks for the king of the side to move before it has
/// checked that there is one, so a text with another layout is not handed to it.
#[verifier::external_body]
fn read_board(fen: &str) -> (r: Option<String>)
    requires
        laid_out(fen@),
    ensures
        match r {
            Some(text) => board_text(fen@) == Some(text@) && printed(text@),
            None => board_text(fen@) is None,
        },
{
    fen.parse::<chess::Board>().ok().map(|board| board.to_string())
}

/// Calls `chess::Board::side_to_move`.
#[verifier::external_body]
fn read_side_to_move(text: &str) -> (r: Color)
    requires
        printed(text@),
    ensures
        r == side_of(text@),
{
    match text.parse::<chess::Board>().unwrap().side_to_move() {
        chess::Color::White => Color::White,
        chess::Color::Black => Color::Black,
    }
}

/// Calls `chess::Board::pieces`.
#[verifier::external_body]
fn read_pieces(text: &str, piece: Piece) -> (r: u64)
    requires
        printed(text@),
    ensures
        r == pieces_of(text@, piece),
{
    let piece = match piece {
        Piece::Pawn => chess::Piece::Pawn,
        Piece::Knight => chess::Piece::Knight,
        Piece::Bishop => chess::Piece::Bishop,
        Piece::Rook => chess::Piece::Rook,
        Piece::Queen => chess::Piece::Queen,
        Piece::King => chess::Piece::King,
    };
    text.parse::<chess::Board>().unwrap().pieces(piece).0
}

/// Calls `chess::Board::color_combined`.
#[verifier::external_body]
fn read_color_combined(text: &str, color: Color) -> (r: u64)
    requires
        printed(text@),
    ensures
        r == men_of(text@, color),
{
    let color = match color {
        Color::White => chess::Color::White,
        Color::Black => chess::Color::Black,
    };
    text.parse::<chess::Board>().unwrap().color_combined(color).0
}

/// Calls `chess::Board::checkers`.
#[verifier::external_body]
fn read_checkers(text: &str) -> (r: u64)
    requires
        printed(text@),
    ensures
        r == checkers_of(text@),
{
    text.parse::<chess::Board>().unwrap().checkers().0
}

/// Calls `chess::Board::en_passant`. Squares are numbered from 0 to 63.
#[verifier::external_body]
fn read_en_passant(text: &str) -> (r: Option<u8>)
    requires
        printed(text@),
    ensures
        r == en_passant_of(text@),
        r is Some ==> r->Some_0 < 64,
{
    text.parse::<chess::Board>().unwrap().en_passant().map(|square| square.to_int())
}

/// Calls `chess::Board::status`, which goes by the number of legal moves and by
/// whether the king is attacked.
#[verifier::external_body]
fn read_status(text: &str) -> (r: BoardStatus)
    requires
        printed(text@),
        has_room(text@),
    ensures
        r == status_of(text@),
{
    match text.parse::<chess::Board>().unwrap().status() {
        chess::BoardStatus::Ongoing => BoardStatus::Ongoing,
        chess::BoardStatus::Stalemate => BoardStatus::Stalemate,
        chess::BoardStatus::Checkmate => BoardStatus::Checkmate,
    }
}

/// Runs through `chess::MoveGen::new_legal`. The squares of a move are numbered
/// from 0 to 63.
#[verifier::external_body]
fn read_legal_moves(text: &str) -> (r: Vec<ChessMove>)
    requires
        printed(text@),
        has_room(text@),
    ensures
        r@ == moves_of(text@),
        forall|i: int| 0 <= i < r@.len() ==> (#[trigger] r@[i]).source < 64 && r@[i].dest < 64,
{
    chess::MoveGen::new_legal(&text.parse::<chess::Board>().unwrap()).map(|m| ChessMove {
        source: m.get_source().to_int(),
        dest: m.get_dest().to_int(),
        promotion: m.get_promotion().map(|piece| match piece {
            chess::Piece::Pawn => Piece::Pawn,
            chess::Piece::Knight => Piece::Knight,
            chess::Piece::Bishop => Piece::Bishop,
            chess::Piece::Rook => Piece::Rook,
            chess::Piece::Queen => Piece::Queen,
            chess::Piece::King => Piece::King,
        }),
    }).collect()
}

/// Calls `chess::Board::make_move_new` with a generated move and prints the board
/// that it gives, where `chess::Board::is_sane` takes it for one. The move passes
/// the turn. From a playable board it leads to a playable one.
#[verifier::external_body]
fn read_make_move_new(text: &str, chess_move: ChessMove) -> (r: Option<String>)
    requires
        printed(text@),
        has_room(text@),
        moves_of(text@).contains(chess_move),
        chess_move.source < 64,
        chess_move.dest < 64,
    ensures
        match r {
            Some(next) => {
                &&& next_text(text@, chess_move) == Some(next@)
                &&& printed(next@)
                &&& side_of(next@) != side_of(text@)
                &&& playable(text@) ==> playable(next@)
            },
            None => next_text(text@, chess_move) is None && !playable(text@),
        },
{
    let source = chess::ALL_SQUARES[chess_move.source as usize];
    let dest = chess::ALL_SQUARES[chess_move.dest as usize];
    let promotion = chess_move.promotion.map(|piece| match piece {
        Piece::Pawn => chess::Piece::Pawn,
        Piece::Knight => chess::Piece::Knight,
        Piece::Bishop => chess::Piece::Bishop,
        Piece::Rook => chess::Piece::Rook,
        Piece::Queen => chess::Piece::Queen,
        Piece::King => chess::Piece::King,
    });
    let board = text.parse::<chess::Board>().unwrap();
    let next = board.make_move_new(chess::ChessMove::new(source, dest, promotion));
    next.is_sane().then_some(next.to_string())
}

/// A board with the side to move, the castling rights and the pawn that can be
/// taken in passing. Two boards are the same where their texts are.
pub struct Board {
    text: String,
}

impl View for Board {
    type V = Seq<char>;

    closed spec fn view(&self) -> Seq<char> {
        self.text@
    }
}

impl Board {
    #[verifier::type_invariant]
    spec fn is_printed(self) -> bool {
        printed(self.text@)
    }

    /// Reads a board in Forsyth-Edwards notation. Gives `None` where the text
    /// is not laid out as a board with two kings, and where `chess` rejects it.
    pub fn from_fen(fen: &str) -> (r: Option<Board>)
        ensures
            match r {
                Some(board) => laid_out(fen@) && board_text(fen@) == Some(board@),
                None => !laid_out(fen@) || board_text(fen@) is None,
            },
    {
        if !is_laid_out(fen) {
            return None;
        }
        match read_board(fen) {
            None => None,
            Some(text) => Some(Board { text }),
        }
    }

    /// Decides [`playable`].
    pub fn is_playable(&self) -> (r: bool)
        ensures
            r == playable(self@),
    {
        proof {
            use_type_invariant(self);
        }
        is_sound(
            self.side_to_move(),
            self.color_combined(Color::White),
            self.color_combined(Color::Black),
            self.pieces(Piece::Pawn),
            self.pieces(Piece::Knight),
            self.checkers(),
            self.en_passant(),
        )
    }

    /// Decides [`has_room`].
    pub fn has_room(&self) -> (r: bool)
        ensures
            r == crate::board::has_room(self@),
    {
        let own: u64 = self.color_combined(self.side_to_move());
        let pawns: u64 = self.pieces(Piece::Pawn) & own;
        let beside: u32 = match self.en_passant() {
            None => 0,
            Some(square) => {
                let left: u32 = if square % 8 > 0 {
                    bit_of(pawns, square - 1)
                } else {
                    0
                };
                let right: u32 = if square % 8 < 7 {
                    bit_of(pawns, square + 1)
                } else {
                    0
                };
                left + right
            },
        };
        proof {
            lemma_count_bound(own, 64);
        }
        popcnt(own) + beside <= MOVE_LIST_LENGTH
    }

    /// Decides [`walkable`], by making all the moves.
    pub fn is_walkable(&self, moves: u32) -> (r: bool)
        ensures
            r == walkable(self@, moves as nat),
        decreases moves,
    {
        proof {
            use_type_invariant(self);
        }
        if !self.has_room() {
            return false;
        }
        if moves == 0 {
            return true;
        }
        let all: Vec<ChessMove> = self.legal_moves();
        let mut i: usize = 0;
        while i < all.len()
            invariant
                i <= all@.len(),
                moves > 0,
                all@ == moves_of(self@),
                printed(self@),
                crate::board::has_room(self@),
                forall|j: int|
                    0 <= j < all@.len() ==> (#[trigger] all@[j]).source < 64 && all@[j].dest < 64,
                forall|j: int|
                    0 <= j < i ==> leads_on(self@, #[trigger] moves_of(self@)[j]) && walkable(
                        text_after(self@, moves_of(self@)[j]),
                        (moves - 1) as nat,
                    ),
            decreases all@.len() - i,
        {
            assert(moves_of(self@).contains(all@[i as int]));
            match self.after(all[i]) {
                None => {
                    assert(!leads_on(self@, moves_of(self@)[i as int]));
                    return false;
                },
                Some(next) => {
                    if !next.is_walkable(moves - 1) {
                        assert(leads_on(self@, moves_of(self@)[i as int]));
                        return false;
                    }
                },
            }
            i = i + 1;
        }
        true
    }

    /// The text of the board.
    pub fn fen(&self) -> (r: &str)
        ensures
            r@ == self@,
    {
        self.text.as_str()
    }

    /// The text of the board.
    pub fn into_fen(self) -> (r: String)
        ensures
            r@ == self@,
    {
        self.text
    }

    /// A copy of the board.
    pub fn copy(&self) -> (r: Board)
        ensures
            r@ == self@,
    {
        proof {
            use_type_invariant(self);
        }
        Board { text: self.text.clone() }
    }

    /// The side to move.
    pub fn side_to_move(&self) -> (r: Color)
        ensures
            r == side_of(self@),
    {
        proof {
            use_type_invariant(self);
        }
        read_side_to_move(self.text.as_str())
    }

    /// The squares with a kind of piece.
    pub fn pieces(&self, piece: Piece) -> (r: u64)
        ensures
            r == pieces_of(self@, piece),
    {
        proof {
            use_type_invariant(self);
        }
        read_pieces(self.text.as_str(), piece)
    }

    /// The squares with a piece of a side.
    pub fn color_combined(&self, color: Color) -> (r: u64)
        ensures
            r == men_of(self@, color),
    {
        proof {
            use_type_invariant(self);
        }
        read_color_combined(self.text.as_str(), color)
    }

    /// The squares from which the king of the side to move is attacked.
    pub fn checkers(&self) -> (r: u64)
        ensures
            r == checkers_of(self@),
    {
        proof {
            use_type_invariant(self);
        }
        read_checkers(self.text.as_str())
    }

    /// The square of the pawn that can be taken in passing.
    pub fn en_passant(&self) -> (r: Option<u8>)
        ensures
            r == en_passant_of(self@),
            r is Some ==> r->Some_0 < 64,
    {
        proof {
            use_type_invariant(self);
        }
        read_en_passant(self.text.as_str())
    }

    /// Whether the game goes on.
    pub fn status(&self) -> (r: BoardStatus)
        requires
            crate::board::has_room(self@),
        ensures
            r == status_of(self@),
    {
        proof {
            use_type_invariant(self);
        }
        read_status(self.text.as_str())
    }

    /// The legal moves.
    pub fn legal_moves(&self) -> (r: Vec<ChessMove>)
        requires
            crate::board::has_room(self@),
        ensures
            r@ == moves_of(self@),
            forall|i: int|
                0 <= i < r@.len() ==> (#[trigger] r@[i]).source < 64 && r@[i].dest < 64,
    {
        proof {
            use_type_invariant(self);
        }
        read_legal_moves(self.text.as_str())
    }

    fn after(&self, chess_move: ChessMove) -> (r: Option<Board>)
        requires
            crate::board::has_room(self@),
            moves_of(self@).contains(chess_move),
            chess_move.source < 64,
            chess_move.dest < 64,
        ensures
            match r {
                Some(board) => {
                    &&& next_text(self@, chess_move) == Some(board@)
                    &&& side_of(board@) != side_of(self@)
                    &&& playable(self@) ==> playable(board@)
                },
                None => next_text(self@, chess_move) is None && !playable(self@),
            },
    {
        proof {
            use_type_invariant(self);
        }
        match read_make_move_new(self.text.as_str(), chess_move) {
            Some(text) => Some(Board { text }),
            None => None,
        }
    }

    /// The board after a legal move.
    pub fn make_move_new(&self, chess_move: ChessMove) -> (r: Board)
        requires
            crate::board::has_room(self@),
            moves_of(self@).contains(chess_move),
            playable(self@) || leads_on(self@, chess_move),
            chess_move.source < 64,
            chess_move.dest < 64,
        ensures
            r@ == text_after(self@, chess_move),
            leads_on(self@, chess_move),
            side_of(r@) != side_of(self@),
            playable(self@) ==> playable(r@),
    {
        self.after(chess_move).unwrap()
    }

    /// The board after a move, or `None` where there is no room for the moves of
    /// this board, the move is not legal or it leads to no board.
    pub fn try_move(&self, chess_move: ChessMove) -> (r: Option<Board>)
        ensures
            match r {
                Some(board) => {
                    &&& crate::board::has_room(self@)
                    &&& moves_of(self@).contains(chess_move)
                    &&& next_text(self@, chess_move) == Some(board@)
                    &&& side_of(board@) != side_of(self@)
                    &&& playable(self@) ==> playable(board@)
                },
                None => {
                    ||| !crate::board::has_room(self@)
                    ||| !moves_of(self@).contains(chess_move)
                    ||| !leads_on(self@, chess_move) && !playable(self@)
                },
            },
    {
        if !self.has_room() {
            return None;
        }
        let moves: Vec<ChessMove> = self.legal_moves();
        let mut i: usize = 0;
        while i < moves.len()
            invariant
                i <= moves@.len(),
                crate::board::has_room(self@),
                moves@ == moves_of(self@),
                forall|j: int|
                    0 <= j < moves@.len() ==> (#[trigger] moves@[j]).source < 64 && moves@[j].dest
                        < 64,
                forall|j: int| 0 <= j < i ==> moves@[j] != chess_move,
            decreases moves@.len() - i,
        {
            if moves[i] == chess_move {
                return self.after(chess_move);
            }
            i = i + 1;
        }
        None
    }
}

fn bit_of(bits: u64, square: u8) -> (r: u32)
    requires
        square < 64,
    ensures
        r == bit(bits, square as int),
        r <= 1,
{
    let s: u64 = square as u64;
    assert((bits >> s) & 1 <= 1) by (bit_vector);
    ((bits >> s) & 1) as u32
}

/// There is room for the moves of a playable board.
pub proof fn law_playable_boards_have_room(text: Seq<char>)
    requires
        playable(text),
    ensures
        has_room(text),
{
    let pawns = pieces_of(text, Piece::Pawn) & men_of(text, side_of(text));
    match en_passant_of(text) {
        None => {},
        Some(square) => {
            let left = (square - 1) as u64;
            let right = (square + 1) as u64;
            assert((pawns >> left) & 1 <= 1) by (bit_vector);
            assert((pawns >> right) & 1 <= 1) by (bit_vector);
        },
    }
}

/// What is defined for a number of moves is defined for fewer.
pub proof fn law_fewer_moves_are_searchable(text: Seq<char>, moves: nat, fewer: nat)
    requires
        searchable(text, moves),
        fewer <= moves,
    ensures
        searchable(text, fewer),
{
    if !playable(text) {
        lemma_fewer_moves_are_walkable(text, moves, fewer);
    }
}

proof fn lemma_fewer_moves_are_walkable(text: Seq<char>, moves: nat, fewer: nat)
    requires
        walkable(text, moves),
        fewer <= moves,
    ensures
        walkable(text, fewer),
    decreases fewer,
{
    if fewer > 0 {
        assert forall|i: int| 0 <= i < moves_of(text).len() implies leads_on(
            text,
            #[trigger] moves_of(text)[i],
        ) && walkable(text_after(text, moves_of(text)[i]), (fewer - 1) as nat) by {
            lemma_fewer_moves_are_walkable(
                text_after(text, moves_of(text)[i]),
                (moves - 1) as nat,
                (fewer - 1) as nat,
            );
        }
    }
}

} // verus!
