//! Chess positions and their text in Forsyth–Edwards Notation.
//!
//! [`Game::from_fen`] reads a position from a text of four fields: piece
//! placement, side to move, castling rights and en-passant square.
//! [`Game::fen`] writes it back. What both do is stated over sequences of
//! characters by `game::decode` and `game::encode`, and the laws that tie
//! the two together are proved beside them.
//!
//! Squares are named by a file index, 0 for file `a` up to 7 for file `h`,
//! and a rank index that runs against the rank numbers: 0 for rank 8 down
//! to 7 for rank 1. A position keeps the en-passant chance as the square of
//! the pawn that just advanced two squares; the text names the empty square
//! behind that pawn.

pub mod board;
pub mod castling;
pub mod en_passant;
pub mod error;
pub mod game;
pub mod piece;
pub mod text;

pub use board::Board;
pub use error::{FenError, PlacementError};
pub use game::Game;
pub use piece::{Color, Piece, PieceType};
