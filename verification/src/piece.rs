//! Colours, piece kinds, pieces, and the letters that stand for them.

use vstd::prelude::*;

verus! {

/// One of the two sides.
#[derive(Clone, Copy, Debug, PartialEq, Eq, Structural)]
pub enum Color {
    White,
    Black,
}

/// The kind of a piece.
#[derive(Clone, Copy, Debug, PartialEq, Eq, Structural)]
pub enum PieceType {
    Pawn,
    Knight,
    Bishop,
    Rook,
    Queen,
    King,
}

/// A piece on the board.
#[derive(Clone, Copy, Debug, PartialEq, Eq, Structural)]
pub struct Piece {
    pub piece_type: PieceType,
    pub color: Color,
}

impl Color {
    /// The other side.
    pub open spec fn spec_opposite(self) -> Color {
        match self {
            Color::White => Color::Black,
            Color::Black => Color::White,
        }
    }

    /// The other side.
    #[verifier::when_used_as_spec(spec_opposite)]
    pub fn opposite(self) -> (other: Color)
        ensures
            other == self.spec_opposite(),
    {
        match self {
            Color::White => Color::Black,
            Color::Black => Color::White,
        }
    }
}

/// The upper-case letter of a piece kind.
pub open spec fn kind_letter(kind: PieceType) -> char {
    match kind {
        PieceType::Pawn => 'P',
        PieceType::Knight => 'N',
        PieceType::Bishop => 'B',
        PieceType::Rook => 'R',
        PieceType::Queen => 'Q',
        PieceType::King => 'K',
    }
}

/// The piece kind that an upper-case letter stands for, if any.
pub open spec fn letter_kind(c: char) -> Option<PieceType> {
    if c == 'P' {
        Some(PieceType::Pawn)
    } else if c == 'N' {
        Some(PieceType::Knight)
    } else if c == 'B' {
        Some(PieceType::Bishop)
    } else if c == 'R' {
        Some(PieceType::Rook)
    } else if c == 'Q' {
        Some(PieceType::Queen)
    } else if c == 'K' {
        Some(PieceType::King)
    } else {
        None
    }
}

/// Whether `c` is one of `a` to `z`.
pub open spec fn is_lower(c: char) -> bool {
    'a' <= c <= 'z'
}

/// The upper-case form of a letter `a` to `z`; any other character unchanged.
pub open spec fn to_upper(c: char) -> char {
    if is_lower(c) {
        ((c as int) - 32) as char
    } else {
        c
    }
}

/// The lower-case form of a letter `A` to `Z`; any other character unchanged.
pub open spec fn to_lower(c: char) -> char {
    if 'A' <= c <= 'Z' {
        ((c as int) + 32) as char
    } else {
        c
    }
}

/// The letter that stands for a piece in a placement: upper case for White,
/// lower case for Black.
pub open spec fn piece_letter(piece: Piece) -> char {
    match piece.color {
        Color::White => kind_letter(piece.piece_type),
        Color::Black => to_lower(kind_letter(piece.piece_type)),
    }
}

/// The piece that a letter stands for, if any.
pub open spec fn letter_piece(c: char) -> Option<Piece> {
    match letter_kind(to_upper(c)) {
        Some(kind) => Some(
            Piece { piece_type: kind, color: if is_lower(c) { Color::Black } else { Color::White } },
        ),
        None => None,
    }
}

/// Reading the letter of a piece gives the piece back.
pub proof fn lemma_letter_of_piece(piece: Piece)
    ensures
        letter_piece(piece_letter(piece)) == Some(piece),
{
}

/// A letter that stands for a piece is the letter of that piece.
pub proof fn lemma_piece_of_letter(c: char)
    requires
        letter_piece(c) is Some,
    ensures
        piece_letter(letter_piece(c).unwrap()) == c,
{
}

impl Piece {
    /// The piece that a placement letter stands for, if any.
    pub fn from_letter(c: char) -> (piece: Option<Piece>)
        ensures
            piece == letter_piece(c),
    {
        let color = if 'a' <= c && c <= 'z' {
            Color::Black
        } else {
            Color::White
        };
        let kind = match c {
            'P' | 'p' => PieceType::Pawn,
            'N' | 'n' => PieceType::Knight,
            'B' | 'b' => PieceType::Bishop,
            'R' | 'r' => PieceType::Rook,
            'Q' | 'q' => PieceType::Queen,
            'K' | 'k' => PieceType::King,
            _ => {
                return None;
            },
        };
        Some(Piece { piece_type: kind, color })
    }

    /// The placement letter of this piece, as a one-character string.
    pub fn symbol(&self) -> (s: &'static str)
        ensures
            s@ == seq![piece_letter(*self)],
    {
        proof {
            reveal_strlit("P");
            reveal_strlit("N");
            reveal_strlit("B");
            reveal_strlit("R");
            reveal_strlit("Q");
            reveal_strlit("K");
            reveal_strlit("p");
            reveal_strlit("n");
            reveal_strlit("b");
            reveal_strlit("r");
            reveal_strlit("q");
            reveal_strlit("k");
        }
        match self.color {
            Color::White => match self.piece_type {
                PieceType::Pawn => "P",
                PieceType::Knight => "N",
                PieceType::Bishop => "B",
                PieceType::Rook => "R",
                PieceType::Queen => "Q",
                PieceType::King => "K",
            },
            Color::Black => match self.piece_type {
                PieceType::Pawn => "p",
                PieceType::Knight => "n",
                PieceType::Bishop => "b",
                PieceType::Rook => "r",
                PieceType::Queen => "q",
                PieceType::King => "k",
            },
        }
    }
}

} // verus!
