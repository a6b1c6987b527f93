//! The en-passant field, and the two ways of naming an en-passant chance:
//! by the empty square behind the pawn that just advanced two squares, as
//! the text does, or by the square of that pawn itself, as a position does.
//!
//! A square is a pair of a file index, 0 for file `a` up to 7 for file `h`,
//! and a rank index, which runs against the rank numbers: 0 for rank 8 down
//! to 7 for rank 1.

use vstd::prelude::*;
use crate::error::FenError;
use crate::piece::Color;
use crate::text::{digit_symbol, is_single};

verus! {

/// Whether `c` is a file letter, `a` to `h`.
pub open spec fn is_file_letter(c: char) -> bool {
    'a' <= c <= 'h'
}

/// Whether `c` is a rank digit, `1` to `8`.
pub open spec fn is_rank_digit(c: char) -> bool {
    '1' <= c <= '8'
}

/// The file index of a file letter.
pub open spec fn file_index(c: char) -> int {
    c as int - 'a' as int
}

/// The rank index of a rank digit: eight minus the rank number.
pub open spec fn rank_index(c: char) -> int {
    '8' as int - c as int
}

/// The letter of the file with index `file`.
pub open spec fn file_letter(file: int) -> char {
    ('a' as int + file) as char
}

/// The digit of the rank with index `rank`.
pub open spec fn rank_digit(rank: int) -> char {
    ('8' as int - rank) as char
}

/// Whether a square lies on the board.
pub open spec fn on_board(square: (int, int)) -> bool {
    0 <= square.0 < 8 && 0 <= square.1 < 8
}

/// A square, or none, with its indices as mathematical integers.
pub open spec fn square_view(square: Option<(usize, usize)>) -> Option<(int, int)> {
    match square {
        Some((file, rank)) => Some((file as int, rank as int)),
        None => None,
    }
}

/// What reading an en-passant field gives.
pub open spec fn parse_square(field: Seq<char>) -> Result<Option<(int, int)>, FenError> {
    if field == seq!['-'] {
        Ok(None)
    } else if field.len() != 2 {
        Err(FenError::WrongLength)
    } else if !is_file_letter(field[0]) || !is_rank_digit(field[1]) {
        Err(FenError::UnknownCharacter)
    } else {
        Ok(Some((file_index(field[0]), rank_index(field[1]))))
    }
}

/// The en-passant field of a square, or `-` for none.
pub open spec fn square_text(square: Option<(int, int)>) -> Seq<char> {
    match square {
        Some((file, rank)) => seq![file_letter(file), rank_digit(rank)],
        None => seq!['-'],
    }
}

/// The square of the pawn that just advanced two squares, given the empty
/// square behind it and the side to move. The pawn belongs to the other
/// side, so it stands one rank index higher when White is to move and one
/// lower when Black is.
pub open spec fn pawn_square(landing: (int, int), turn: Color) -> (int, int) {
    match turn {
        Color::White => (landing.0, landing.1 + 1),
        Color::Black => (landing.0, landing.1 - 1),
    }
}

/// The empty square behind the pawn that just advanced two squares, given
/// the pawn's square and the side to move.
pub open spec fn landing_square(pawn: (int, int), turn: Color) -> (int, int) {
    match turn {
        Color::White => (pawn.0, pawn.1 - 1),
        Color::Black => (pawn.0, pawn.1 + 1),
    }
}

/// Going from the empty square to the pawn's square and back, or the other
/// way round, ends where it began, whichever side is to move.
pub proof fn lemma_pawn_landing_inverse(square: (int, int), turn: Color)
    ensures
        landing_square(pawn_square(square, turn), turn) == square,
        pawn_square(landing_square(square, turn), turn) == square,
{
}

/// An en-passant field that is accepted names no square or one on the board,
/// and is written back as it was read.
pub proof fn lemma_square_read_write(field: Seq<char>)
    requires
        parse_square(field) is Ok,
    ensures
        parse_square(field).unwrap() matches Some(square) ==> on_board(square),
        square_text(parse_square(field).unwrap()) == field,
{
}

/// The field written for no square, or for a square on the board, reads as
/// that.
pub proof fn lemma_square_write_read(square: Option<(int, int)>)
    requires
        square matches Some(s) ==> on_board(s),
    ensures
        parse_square(square_text(square)) == Ok::<Option<(int, int)>, FenError>(square),
{
}

/// Reads an en-passant field: `-` for no square, else a file letter and a
/// rank digit.
pub fn en_passant(fen_part: &str) -> (res: Result<Option<(usize, usize)>, FenError>)
    ensures
        match res {
            Ok(square) => parse_square(fen_part@) == Ok::<Option<(int, int)>, FenError>(
                square_view(square),
            ),
            Err(e) => parse_square(fen_part@) == Err::<Option<(int, int)>, FenError>(e),
        },
{
    if is_single(fen_part, '-') {
        return Ok(None);
    }
    if fen_part.unicode_len() != 2 {
        return Err(FenError::WrongLength);
    }
    let file: usize = match fen_part.get_char(0) {
        'a' => 0,
        'b' => 1,
        'c' => 2,
        'd' => 3,
        'e' => 4,
        'f' => 5,
        'g' => 6,
        'h' => 7,
        _ => {
            return Err(FenError::UnknownCharacter);
        },
    };
    let rank: usize = match fen_part.get_char(1) {
        '1' => 7,
        '2' => 6,
        '3' => 5,
        '4' => 4,
        '5' => 3,
        '6' => 2,
        '7' => 1,
        '8' => 0,
        _ => {
            return Err(FenError::UnknownCharacter);
        },
    };
    Ok(Some((file, rank)))
}

/// The letter of a file, as a one-character string.
pub fn file_symbol(file: usize) -> (s: &'static str)
    requires
        file < 8,
    ensures
        s@ == seq![file_letter(file as int)],
{
    proof {
        reveal_strlit("a");
        reveal_strlit("b");
        reveal_strlit("c");
        reveal_strlit("d");
        reveal_strlit("e");
        reveal_strlit("f");
        reveal_strlit("g");
        reveal_strlit("h");
    }
    match file {
        0 => "a",
        1 => "b",
        2 => "c",
        3 => "d",
        4 => "e",
        5 => "f",
        6 => "g",
        _ => "h",
    }
}

/// Writes the en-passant field of a square on the board, or of none.
pub fn en_passant_field(square: Option<(usize, usize)>) -> (field: String)
    requires
        square matches Some(s) ==> s.0 < 8 && s.1 < 8,
    ensures
        field@ == square_text(square_view(square)),
{
    match square {
        Some((file, rank)) => {
            let mut field = String::new();
            field.append(file_symbol(file));
            field.append(digit_symbol(8 - rank));
            field
        },
        None => {
            proof {
                reveal_strlit("-");
            }
            String::from_str("-")
        },
    }
}

/// The square of the pawn that just advanced two squares, given the empty
/// square behind it and the side to move; none if that square is off the
/// board.
pub fn pawn_behind(landing: (usize, usize), turn: Color) -> (pawn: Option<(usize, usize)>)
    ensures
        square_view(pawn) == if on_board(
            pawn_square((landing.0 as int, landing.1 as int), turn),
        ) {
            Some(pawn_square((landing.0 as int, landing.1 as int), turn))
        } else {
            None
        },
{
    if landing.0 >= 8 {
        return None;
    }
    match turn {
        Color::White => if landing.1 < 7 {
            Some((landing.0, landing.1 + 1))
        } else {
            None
        },
        Color::Black => if 1 <= landing.1 && landing.1 <= 8 {
            Some((landing.0, landing.1 - 1))
        } else {
            None
        },
    }
}

/// The empty square behind the pawn that just advanced two squares, given
/// the pawn's square and the side to move.
pub fn square_behind(pawn: (usize, usize), turn: Color) -> (landing: (usize, usize))
    requires
        on_board(landing_square((pawn.0 as int, pawn.1 as int), turn)),
    ensures
        (landing.0 as int, landing.1 as int) == landing_square(
            (pawn.0 as int, pawn.1 as int),
            turn,
        ),
{
    match turn {
        Color::White => (pawn.0, pawn.1 - 1),
        Color::Black => (pawn.0, pawn.1 + 1),
    }
}

} // verus!
