//! What texts stand for boards, and what boards arise in play.
use crate::bits::bit;
use crate::bits::count_bits;
use crate::board::board_text;
use crate::board::checkers_of;
use crate::board::en_passant_of;
use crate::board::fills_board;
use crate::board::has_room;
use crate::board::laid_out;
use crate::board::leads_on;
use crate::board::men_of;
use crate::board::moves_of;
use crate::board::next_text;
use crate::board::pieces_of;
use crate::board::playable;
use crate::board::printed;
use crate::board::side_of;
use crate::board::squares_for;
use crate::board::walkable;
use crate::board::Color;
use crate::board::Piece;
use vstd::prelude::*;

verus! {

/// Whether the first field of a text ends before character `end`.
pub open spec fn is_field(text: Seq<char>, end: nat) -> bool {
    &&& end <= text.len()
    &&& end < text.len() ==> text[end as int] == ' '
    &&& forall|i: int| 0 <= i < end ==> #[trigger] text[i] != ' '
}

/// How often a character occurs among the first `n` of a text.
pub open spec fn occurrences(text: Seq<char>, c: char, n: nat) -> nat
    decreases n,
{
    if n == 0 {
        0
    } else {
        occurrences(text, c, (n - 1) as nat) + if text[n - 1] == c {
            1nat
        } else {
            0
        }
    }
}

/// Whether a character is a digit from 1 to 8.
pub open spec fn is_digit(c: char) -> bool {
    '1' <= c <= '8'
}

/// Whether a character is a letter for a man of White or of Black.
pub open spec fn is_man(c: char) -> bool {
    seq!['P', 'N', 'B', 'R', 'Q', 'K', 'p', 'n', 'b', 'r', 'q', 'k'].contains(c)
}

/// How many squares the first `n` characters of a text fill: a digit as many as
/// it says, a letter for a man one.
pub open spec fn filled(text: Seq<char>, n: nat) -> int
    decreases n,
{
    if n == 0 {
        0
    } else {
        let c = text[n - 1];
        filled(text, (n - 1) as nat) + if is_digit(c) {
            c as int - 48
        } else if is_man(c) {
            1int
        } else {
            0
        }
    }
}

/// Whether the character at `i` continues a board: it is a digit or a man and
/// fills no more than the rank at hand, or it is a slash and that rank is full.
pub open spec fn continues(text: Seq<char>, i: int) -> bool {
    let ranks = occurrences(text, '/', i as nat);
    let c = text[i];
    if c == '/' {
        filled(text, i as nat) == 8 * (ranks + 1)
    } else {
        (is_digit(c) || is_man(c)) && filled(text, (i + 1) as nat) <= 8 * (ranks + 1)
    }
}

proof fn lemma_width(c: char)
    ensures
        squares_for(c) == if is_digit(c) {
            c as int - 48
        } else if is_man(c) {
            1
        } else {
            0
        },
        squares_for(c) > 0 <==> is_digit(c) || is_man(c),
        !is_digit('/') && !is_man('/'),
{
    let men = seq!['P', 'N', 'B', 'R', 'Q', 'K', 'p', 'n', 'b', 'r', 'q', 'k'];
    assert(men.len() == 12);
    assert(men[0] == 'P' && men[1] == 'N' && men[2] == 'B' && men[3] == 'R' && men[4] == 'Q'
        && men[5] == 'K');
    assert(men[6] == 'p' && men[7] == 'n' && men[8] == 'b' && men[9] == 'r' && men[10] == 'q'
        && men[11] == 'k');
}

proof fn lemma_occurrences_grow(text: Seq<char>, c: char, i: nat, n: nat)
    requires
        i <= n,
    ensures
        occurrences(text, c, i) <= occurrences(text, c, n),
    decreases n,
{
    if i < n {
        lemma_occurrences_grow(text, c, i, (n - 1) as nat);
    }
}

proof fn lemma_fills_board(text: Seq<char>, end: nat, i: nat, ranks: nat, files: nat)
    requires
        is_field(text, end),
        i <= end,
        ranks == occurrences(text, '/', i),
        files == filled(text, i) - 8 * ranks,
        ranks <= 7,
    ensures
        fills_board(
            text,
            i,
            ranks,
            files,
            occurrences(text, 'K', i),
            occurrences(text, 'k', i),
        ) <==> {
            &&& forall|j: int| i <= j < end ==> #[trigger] continues(text, j)
            &&& occurrences(text, '/', end) == 7
            &&& filled(text, end) == 64
            &&& occurrences(text, 'K', end) == 1
            &&& occurrences(text, 'k', end) == 1
        },
    decreases end - i,
{
    if i < end {
        let c = text[i as int];
        lemma_width(c);
        lemma_occurrences_grow(text, '/', i + 1, end);
        assert(c != ' ');
        assert(continues(text, i as int) <==> if c == '/' {
            files == 8
        } else {
            squares_for(c) > 0 && files + squares_for(c) <= 8
        });
        if c == '/' {
            if ranks < 7 && files == 8 {
                lemma_fills_board(text, end, i + 1, ranks + 1, 0);
            }
        } else {
            lemma_fills_board(text, end, i + 1, ranks, files + squares_for(c));
        }
        assert((forall|j: int| i <= j < end ==> #[trigger] continues(text, j)) <==> continues(
            text,
            i as int,
        ) && (forall|j: int| i + 1 <= j < end ==> #[trigger] continues(text, j)));
    }
}

/// A text is laid out if and only if its first field is made of digits, letters
/// for men and seven slashes, each of which ends a rank of eight squares, fills 64
/// squares in all, never more than the rank at hand, and has one king of White
/// and one of Black.
pub proof fn law_layouts_fill_eight_ranks(text: Seq<char>, end: nat)
    requires
        is_field(text, end),
    ensures
        laid_out(text) <==> {
            &&& forall|i: int| 0 <= i < end ==> #[trigger] continues(text, i)
            &&& occurrences(text, '/', end) == 7
            &&& filled(text, end) == 64
            &&& occurrences(text, 'K', end) == 1
            &&& occurrences(text, 'k', end) == 1
        },
{
    lemma_fills_board(text, end, 0, 0, 0);
}

/// The side to move is Black if and only if the second field begins with `b`.
pub proof fn law_the_second_field_is_the_side_to_move(text: Seq<char>, end: nat)
    requires
        is_field(text, end),
        end + 1 < text.len(),
    ensures
        side_of(text) == Color::Black <==> text[end as int + 1] == 'b',
        side_of(text) == Color::White <==> text[end as int + 1] != 'b',
{
    assert(text[end as int] == ' ');
    text.index_of_first_ensures(' ');
    let i = text.index_of_first(' ')->Some_0;
    assert(i == end);
}

/// On a board that arises in play no side has more than sixteen men. A pawn that
/// can be taken in passing stands on the fourth or the fifth rank, the two
/// squares behind it are empty, and no other pawn and no knight gives check.
pub proof fn law_play_is_sound(text: Seq<char>, square: u8, other: u8)
    requires
        playable(text),
        other < 64,
    ensures
        count_bits(men_of(text, Color::White)) <= 16,
        count_bits(men_of(text, Color::Black)) <= 16,
        en_passant_of(text) == Some(square) ==> {
            let men = men_of(text, Color::White) | men_of(text, Color::Black);
            &&& square / 8 == 3 || square / 8 == 4
            &&& side_of(text) == Color::White ==> bit(men, square + 8) == 0 && bit(men, square + 16)
                == 0
            &&& side_of(text) == Color::Black ==> bit(men, square - 8) == 0 && bit(men, square - 16)
                == 0
            &&& other != square && bit(checkers_of(text), other as int) == 1 ==> bit(
                pieces_of(text, Piece::Pawn),
                other as int,
            ) == 0 && bit(pieces_of(text, Piece::Knight), other as int) == 0
        },
{
    if en_passant_of(text) == Some(square) {
        let men = men_of(text, Color::White) | men_of(text, Color::Black);
        match side_of(text) {
            Color::White => {
                lemma_two_squares(men, (square + 8) as u64, (square + 16) as u64);
            },
            Color::Black => {
                lemma_two_squares(men, (square - 8) as u64, (square - 16) as u64);
            },
        }
        let checkers = checkers_of(text);
        let pawns = pieces_of(text, Piece::Pawn);
        let knights = pieces_of(text, Piece::Knight);
        let s = square as u64;
        let t = other as u64;
        assert(s < 64 && t < 64 && s != t && (checkers >> t) & 1 == 1 && checkers & (knights
            | pawns) & !(1u64 << s) == 0 ==> (pawns >> t) & 1 == 0 && (knights >> t) & 1 == 0)
            by (bit_vector);
    }
}

proof fn lemma_two_squares(men: u64, a: u64, b: u64)
    requires
        a < 64,
        b < 64,
        men & ((1u64 << a) | (1u64 << b)) == 0,
    ensures
        bit(men, a as int) == 0,
        bit(men, b as int) == 0,
{
    assert(a < 64 && b < 64 && men & ((1u64 << a) | (1u64 << b)) == 0 ==> (men >> a) & 1 == 0
        && (men >> b) & 1 == 0) by (bit_vector);
}

/// Whether a square is taken by a pawn or a knight that gives check.
pub open spec fn checks_from(text: Seq<char>, square: int) -> bool {
    &&& bit(checkers_of(text), square) == 1
    &&& bit(pieces_of(text, Piece::Pawn), square) == 1 || bit(
        pieces_of(text, Piece::Knight),
        square,
    ) == 1
}

/// A board that is printed, with at most sixteen men on each side, is playable
/// where no pawn can be taken in passing, and also where one can that stands on
/// the fourth or the fifth rank before two empty squares, if neither another pawn
/// nor a knight gives check.
pub proof fn law_sound_boards_are_playable(text: Seq<char>)
    requires
        printed(text),
        count_bits(men_of(text, Color::White)) <= 16,
        count_bits(men_of(text, Color::Black)) <= 16,
        match en_passant_of(text) {
            None => true,
            Some(square) => {
                let men = men_of(text, Color::White) | men_of(text, Color::Black);
                &&& square / 8 == 3 || square / 8 == 4
                &&& match side_of(text) {
                    Color::White => bit(men, square + 8) == 0 && bit(men, square + 16) == 0,
                    Color::Black => bit(men, square - 8) == 0 && bit(men, square - 16) == 0,
                }
                &&& forall|other: int|
                    0 <= other < 64 && other != square ==> !#[trigger] checks_from(text, other)
            },
        },
    ensures
        playable(text),
{
    if let Some(square) = en_passant_of(text) {
        let men = men_of(text, Color::White) | men_of(text, Color::Black);
        let (a, b) = match side_of(text) {
            Color::White => ((square + 8) as u64, (square + 16) as u64),
            Color::Black => ((square - 8) as u64, (square - 16) as u64),
        };
        assert(a < 64 && b < 64 && (men >> a) & 1 == 0 && (men >> b) & 1 == 0 ==> men & ((1u64 << a)
            | (1u64 << b)) == 0) by (bit_vector);
        let checkers = checkers_of(text);
        let pawns = pieces_of(text, Piece::Pawn);
        let knights = pieces_of(text, Piece::Knight);
        let s = square as u64;
        let others = checkers & (knights | pawns) & !(1u64 << s);
        assert forall|t: u64| t < 64 implies (#[trigger] (others >> t)) & 1 == 0 by {
            assert(!(t != s && checks_from(text, t as int)));
            assert(s < 64 && t < 64 && (((checkers & (knights | pawns) & !(1u64 << s)) >> t) & 1
                != 0) ==> t != s && (checkers >> t) & 1 == 1 && ((pawns >> t) & 1 == 1 || (knights
                >> t) & 1 == 1)) by (bit_vector);
        }
        lemma_no_square(others, 63);
        assert(others == (others >> 63) << 63 && (others >> 63) & 1 == 0 ==> others == 0)
            by (bit_vector);
        assert((others >> 63u64) & 1 == 0);
    }
}

proof fn lemma_no_square(bits: u64, n: u64)
    requires
        n < 64,
        forall|t: u64| t < 64 ==> (#[trigger] (bits >> t)) & 1 == 0,
    ensures
        bits == (bits >> n) << n,
    decreases n,
{
    if n == 0 {
        assert(bits == (bits >> 0) << 0) by (bit_vector);
    } else {
        let m = (n - 1) as u64;
        lemma_no_square(bits, m);
        assert((bits >> m) & 1 == 0);
        assert(bits == (bits >> n) << n) by (bit_vector)
            requires
                0 < n < 64,
                m == n - 1,
                (bits >> m) & 1 == 0,
                bits == (bits >> m) << m,
        ;
    }
}

/// There is room for the moves of a board where the men of the side to move and
/// its pawns beside a pawn that can be taken in passing are eighteen together at
/// most.
pub proof fn law_room_is_for_eighteen(text: Seq<char>, square: u8)
    requires
        square < 64,
    ensures
        ({
            let men = men_of(text, side_of(text));
            let pawns = pieces_of(text, Piece::Pawn) & men;
            let left = if square % 8 == 0 {
                0
            } else {
                bit(pawns, square - 1) as int
            };
            let right = if square % 8 == 7 {
                0
            } else {
                bit(pawns, square + 1) as int
            };
            &&& en_passant_of(text) is None ==> (has_room(text) <==> count_bits(men) <= 18)
            &&& en_passant_of(text) == Some(square) ==> (has_room(text) <==> count_bits(men) + left
                + right <= 18)
        }),
{
}

/// Lines of no moves are defined on a board that is printed and has room for its
/// moves. Lines of one more move are defined there if and only if each legal move
/// leads to a board on which the rest is.
pub proof fn law_lines_are_defined_move_by_move(text: Seq<char>, moves: nat)
    ensures
        walkable(text, 0) <==> laid_out(text) && board_text(text) == Some(text) && has_room(text),
        walkable(text, moves + 1) <==> walkable(text, 0) && forall|i: int|
            0 <= i < moves_of(text).len() ==> match next_text(text, #[trigger] moves_of(text)[i]) {
                Some(next) => walkable(next, moves),
                None => false,
            },
{
    if walkable(text, moves + 1) {
        assert forall|i: int| 0 <= i < moves_of(text).len() implies match next_text(
            text,
            #[trigger] moves_of(text)[i],
        ) {
            Some(next) => walkable(next, moves),
            None => false,
        } by {
            assert(leads_on(text, moves_of(text)[i]));
        }
    }
}

/// The kinds of pieces are numbered from the pawn to the king.
pub proof fn law_kinds_are_numbered()
    ensures
        Piece::Pawn.index() == 0,
        Piece::Knight.index() == 1,
        Piece::Bishop.index() == 2,
        Piece::Rook.index() == 3,
        Piece::Queen.index() == 4,
        Piece::King.index() == 5,
{
}

} // verus!
