//! The ways in which reading a position can fail.

use vstd::prelude::*;

verus! {

/// Why a piece placement was rejected.
#[derive(Clone, Copy, Debug, PartialEq, Eq)]
pub enum PlacementError {
    /// The placement is not made of eight ranks separated by `/`.
    WrongRankCount,
    /// A rank holds a character that is neither a piece letter nor a digit
    /// from `1` to `8`.
    UnknownCharacter,
    /// Two digits stand side by side in a rank.
    AdjacentDigits,
    /// A rank does not describe exactly eight squares.
    WrongRankWidth,
}

/// Why a position text was rejected.
#[derive(Clone, Copy, Debug, PartialEq, Eq)]
pub enum FenError {
    /// The text is not made of four fields separated by single spaces.
    WrongFieldCount,
    /// The piece placement was rejected.
    InvalidPlacement(PlacementError),
    /// The side to move is neither `w` nor `b`.
    UnknownTurn,
    /// The castling field has more than four characters.
    TooLong,
    /// A character occurs twice in the castling field.
    DuplicateCastlingChar,
    /// A field holds a character that its alphabet does not have.
    UnknownCharacter,
    /// The en-passant field is neither `-` nor two characters long.
    WrongLength,
    /// No pawn of the side that just moved stands where the en-passant
    /// field says one advanced two squares.
    InvalidEnPassant,
}

impl From<PlacementError> for FenError {
    /// A rejected placement as the reason why the whole text is rejected.
    fn from(e: PlacementError) -> (err: FenError) {
        FenError::InvalidPlacement(e)
    }
}

impl vstd::std_specs::convert::FromSpecImpl<PlacementError> for FenError {
    open spec fn obeys_from_spec() -> bool {
        true
    }

    open spec fn from_spec(e: PlacementError) -> FenError {
        FenError::InvalidPlacement(e)
    }
}

} // verus!
