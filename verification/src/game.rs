//! A position and its text in Forsyth–Edwards Notation: four fields
//! separated by single spaces, which are the piece placement, the side to
//! move, the castling rights and the en-passant square.

use vstd::prelude::*;
use crate::board::{
    lemma_placement_has_no_space, lemma_placement_read_write, lemma_placement_write_read,
    parse_placement, placement_text, tile_at, Board,
};
use crate::castling::{
    castling_field, castling_part, castling_text, in_castling_order, lemma_castling_read_write,
    lemma_castling_write_read, parse_castling,
};
use crate::en_passant::{
    en_passant, en_passant_field, landing_square, lemma_square_read_write, on_board,
    parse_square, pawn_behind, pawn_square, square_behind, square_text, square_view,
};
use crate::error::FenError;
use crate::piece::{Color, Piece, PieceType};
use crate::text::{
    count_char, count_of, is_single, join_with, lemma_join_four, lemma_join_split, lemma_split_count,
    lemma_split_join, split_fields, split_on,
};

verus! {

/// A position as mathematical values.
pub struct Position {
    /// The 64 squares, rank by rank from rank 8 down to rank 1.
    pub board: Seq<Option<Piece>>,
    /// The side to move.
    pub turn: Color,
    /// The four castling rights: White's king side and queen side, then
    /// Black's.
    pub castling: Seq<bool>,
    /// The square of the pawn that just advanced two squares, if one did.
    pub en_passant: Option<(int, int)>,
}

/// The pawn that the side not to move has.
pub open spec fn pawn_to_take(turn: Color) -> Piece {
    Piece { piece_type: PieceType::Pawn, color: turn.spec_opposite() }
}

impl Position {
    /// Whether the position holds together: the board has 64 squares, there
    /// are four castling rights, and where an en-passant square is given, a
    /// pawn of the side not to move stands on it and the square behind that
    /// pawn is on the board.
    pub open spec fn valid(self) -> bool {
        &&& self.board.len() == 64
        &&& self.castling.len() == 4
        &&& self.en_passant matches Some(pawn) ==> {
            &&& on_board(landing_square(pawn, self.turn))
            &&& tile_at(self.board, pawn.0, pawn.1) == Some(pawn_to_take(self.turn))
        }
    }
}

/// The position with these parts.
pub open spec fn position_of(
    board: Seq<Option<Piece>>,
    turn: Color,
    castling: Seq<bool>,
    en_passant: Option<(int, int)>,
) -> Position {
    Position { board, turn, castling, en_passant }
}

/// The side to move that a field names, if it names one.
pub open spec fn parse_turn(field: Seq<char>) -> Option<Color> {
    if field == seq!['w'] {
        Some(Color::White)
    } else if field == seq!['b'] {
        Some(Color::Black)
    } else {
        None
    }
}

/// The field of a side to move.
pub open spec fn turn_text(turn: Color) -> Seq<char> {
    match turn {
        Color::White => seq!['w'],
        Color::Black => seq!['b'],
    }
}

/// What reading the en-passant field gives, once the board and the side to
/// move are known: no square, or the square of the pawn that just advanced,
/// which has to stand there.
pub open spec fn parse_en_passant(field: Seq<char>, board: Seq<Option<Piece>>, turn: Color) -> Result<
    Option<(int, int)>,
    FenError,
> {
    match parse_square(field) {
        Err(e) => Err(e),
        Ok(None) => Ok(None),
        Ok(Some(landing)) => {
            let pawn = pawn_square(landing, turn);
            if tile_at(board, pawn.0, pawn.1) == Some(pawn_to_take(turn)) {
                Ok(Some(pawn))
            } else {
                Err(FenError::InvalidEnPassant)
            }
        },
    }
}

/// What reading a position text gives: the position, or the first thing
/// that is wrong with the text, fields taken from left to right.
pub open spec fn decode(fen: Seq<char>) -> Result<Position, FenError> {
    let fields = split_on(fen, ' ');
    if fields.len() != 4 {
        Err(FenError::WrongFieldCount)
    } else {
        match parse_placement(fields[0]) {
            Err(e) => Err(FenError::InvalidPlacement(e)),
            Ok(board) => match parse_turn(fields[1]) {
                None => Err(FenError::UnknownTurn),
                Some(turn) => match parse_castling(fields[2]) {
                    Err(e) => Err(e),
                    Ok(castling) => match parse_en_passant(fields[3], board, turn) {
                        Err(e) => Err(e),
                        Ok(en_passant) => Ok(Position { board, turn, castling, en_passant }),
                    },
                },
            },
        }
    }
}

/// The en-passant field of a position: the square behind the pawn that just
/// advanced, or `-`.
pub open spec fn en_passant_text(en_passant: Option<(int, int)>, turn: Color) -> Seq<char> {
    match en_passant {
        Some(pawn) => square_text(Some(landing_square(pawn, turn))),
        None => square_text(None),
    }
}

/// The text of a position.
pub open spec fn encode(position: Position) -> Seq<char> {
    join_with(
        seq![
            placement_text(position.board),
            turn_text(position.turn),
            castling_text(position.castling),
            en_passant_text(position.en_passant, position.turn),
        ],
        ' ',
    )
}

/// A text whose pieces between single spaces are not four in number, which
/// is one that does not hold exactly three spaces, is rejected for that,
/// whatever the pieces hold.
pub proof fn lemma_wrong_field_count(fen: Seq<char>)
    ensures
        split_on(fen, ' ').len() != 4 <==> count_of(fen, ' ') != 3,
        split_on(fen, ' ').len() != 4 ==> decode(fen) == Err::<Position, FenError>(
            FenError::WrongFieldCount,
        ),
        split_on(fen, ' ').len() == 4 ==> decode(fen) != Err::<Position, FenError>(
            FenError::WrongFieldCount,
        ),
{
    lemma_split_count(fen, ' ');
}

/// A position that is read holds together.
pub proof fn lemma_decode_valid(fen: Seq<char>)
    requires
        decode(fen) is Ok,
    ensures
        decode(fen).unwrap().valid(),
{
}

/// Where the placement and the side to move are accepted, a castling field
/// of at most four characters in which one occurs twice is rejected for
/// that.
pub proof fn lemma_repeated_castling_char(fen: Seq<char>)
    requires
        split_on(fen, ' ').len() == 4,
        parse_placement(split_on(fen, ' ')[0]) is Ok,
        parse_turn(split_on(fen, ' ')[1]) is Some,
        split_on(fen, ' ')[2].len() <= 4,
        !split_on(fen, ' ')[2].no_duplicates(),
    ensures
        decode(fen) == Err::<Position, FenError>(FenError::DuplicateCastlingChar),
{
}

/// Where the first three fields are accepted and the en-passant field names
/// a square, the text is accepted exactly if a pawn of the side not to move
/// stands one rank behind that square, as that pawn sees it; otherwise it
/// is rejected as an invalid en-passant square. An accepted position keeps
/// the square of that pawn.
pub proof fn lemma_en_passant_needs_pawn(fen: Seq<char>)
    requires
        split_on(fen, ' ').len() == 4,
        parse_placement(split_on(fen, ' ')[0]) is Ok,
        parse_turn(split_on(fen, ' ')[1]) is Some,
        parse_castling(split_on(fen, ' ')[2]) is Ok,
        parse_square(split_on(fen, ' ')[3]) matches Ok(Some(_)),
    ensures
        ({
            let board = parse_placement(split_on(fen, ' ')[0]).unwrap();
            let turn = parse_turn(split_on(fen, ' ')[1]).unwrap();
            let landing = parse_square(split_on(fen, ' ')[3]).unwrap().unwrap();
            let pawn = pawn_square(landing, turn);
            if tile_at(board, pawn.0, pawn.1) == Some(pawn_to_take(turn)) {
                decode(fen) is Ok && decode(fen).unwrap().en_passant == Some(pawn)
            } else {
                decode(fen) == Err::<Position, FenError>(FenError::InvalidEnPassant)
            }
        }),
{
}

/// A text that is accepted is written back letter for letter exactly if its
/// castling field is `-`, or is not empty and has its characters in the
/// order `K`, `Q`, `k`, `q`.
pub proof fn lemma_decode_encode(fen: Seq<char>)
    requires
        decode(fen) is Ok,
    ensures
        encode(decode(fen).unwrap()) == fen <==> in_castling_order(split_on(fen, ' ')[2]),
{
    let fields = split_on(fen, ' ');
    let position = decode(fen).unwrap();
    let written = castling_text(position.castling);
    lemma_placement_read_write(fields[0]);
    lemma_square_read_write(fields[3]);
    lemma_join_split(fen, ' ');
    assert(fields =~= seq![fields[0], fields[1], fields[2], fields[3]]);
    lemma_join_four(fields[0], fields[1], fields[2], fields[3], ' ');
    lemma_join_four(fields[0], fields[1], written, fields[3], ' ');
    if in_castling_order(fields[2]) {
        lemma_castling_read_write(fields[2]);
    }
    if encode(position) == fen {
        let head = fields[0] + seq![' '] + fields[1] + seq![' '];
        let tail = seq![' '] + fields[3];
        assert(encode(position) =~= head + written + tail);
        assert forall|k: int| 0 <= k < written.len() implies written[k] == fields[2][k] by {
            assert((head + written + tail)[head.len() + k] == written[k]);
        }
        lemma_castling_write_read(position.castling);
    }
}

/// The text of a position that holds together is accepted and gives the
/// position back.
pub proof fn lemma_encode_decode(position: Position)
    requires
        position.valid(),
    ensures
        decode(encode(position)) == Ok::<Position, FenError>(position),
{
    let placement = placement_text(position.board);
    let turn = turn_text(position.turn);
    let castling = castling_text(position.castling);
    let square = en_passant_text(position.en_passant, position.turn);
    let parts = seq![placement, turn, castling, square];
    lemma_placement_has_no_space(position.board);
    lemma_placement_write_read(position.board);
    lemma_castling_write_read(position.castling);
    lemma_split_join(parts, ' ');
    assert(parse_turn(turn) == Some(position.turn)) by {
        assert(turn[0] == 'w' <==> position.turn == Color::White);
    }
}

/// A position: the board, the side to move, the castling rights that are
/// left, and the pawn that may be taken en passant, if there is one.
#[derive(Clone, Copy, Debug, PartialEq, Eq)]
pub struct Game {
    board: Board,
    turn: Color,
    en_passant: Option<(usize, usize)>,
    white_kingside_castle: bool,
    white_queenside_castle: bool,
    black_kingside_castle: bool,
    black_queenside_castle: bool,
}

impl View for Game {
    type V = Position;

    closed spec fn view(&self) -> Position {
        Position {
            board: self.board@,
            turn: self.turn,
            castling: seq![
                self.white_kingside_castle,
                self.white_queenside_castle,
                self.black_kingside_castle,
                self.black_queenside_castle,
            ],
            en_passant: square_view(self.en_passant),
        }
    }
}

/// The field of a side to move, as a string.
pub fn turn_symbol(turn: Color) -> (s: &'static str)
    ensures
        s@ == turn_text(turn),
{
    proof {
        reveal_strlit("w");
        reveal_strlit("b");
    }
    match turn {
        Color::White => "w",
        Color::Black => "b",
    }
}

impl Game {
    /// Every game holds together, as `Position::valid` says.
    #[verifier::type_invariant]
    spec fn consistent(self) -> bool {
        self@.valid()
    }

    /// The position with these parts, if they hold together: where a pawn
    /// is named as the one that may be taken en passant, it has to stand on
    /// its square and belong to the side not to move, and the square behind
    /// it has to be on the board.
    pub fn new(
        board: Board,
        turn: Color,
        castling: [bool; 4],
        en_passant: Option<(usize, usize)>,
    ) -> (res: Option<Game>)
        ensures
            res is Some <==> position_of(board@, turn, castling@, square_view(en_passant)).valid(),
            res matches Some(game) ==> game@ == position_of(
                board@,
                turn,
                castling@,
                square_view(en_passant),
            ),
    {
        match en_passant {
            Some(pawn) => {
                match board.get_tile(pawn.0, pawn.1) {
                    Some(piece) => {
                        if piece.piece_type != PieceType::Pawn || piece.color == turn {
                            return None;
                        }
                    },
                    None => {
                        return None;
                    },
                }
                let behind_on_board = match turn {
                    Color::White => pawn.1 >= 1,
                    Color::Black => pawn.1 <= 6,
                };
                if !behind_on_board {
                    return None;
                }
            },
            None => {},
        }
        let game = Game {
            board,
            turn,
            en_passant,
            white_kingside_castle: castling[0],
            white_queenside_castle: castling[1],
            black_kingside_castle: castling[2],
            black_queenside_castle: castling[3],
        };
        assert(game@.castling =~= castling@);
        Some(game)
    }

    /// Reads a position from its text.
    pub fn from_fen(fen: &str) -> (res: Result<Game, FenError>)
        ensures
            match res {
                Ok(game) => decode(fen@) == Ok::<Position, FenError>(game@) && game@.valid(),
                Err(e) => decode(fen@) == Err::<Position, FenError>(e),
            },
    {
        proof {
            lemma_split_count(fen@, ' ');
        }
        if count_char(fen, ' ') != 3 {
            return Err(FenError::WrongFieldCount);
        }
        let fen_parts = split_fields(fen, ' ');
        let board = match Board::from_fen(fen_parts[0]) {
            Ok(board) => board,
            Err(e) => {
                return Err(FenError::from(e));
            },
        };
        let turn = if is_single(fen_parts[1], 'w') {
            Color::White
        } else if is_single(fen_parts[1], 'b') {
            Color::Black
        } else {
            return Err(FenError::UnknownTurn);
        };
        let castling = match castling_part(fen_parts[2]) {
            Ok(castling) => castling,
            Err(e) => {
                return Err(e);
            },
        };
        let landing = match en_passant(fen_parts[3]) {
            Ok(landing) => landing,
            Err(e) => {
                return Err(e);
            },
        };
        let en_passant = match landing {
            Some(square) => {
                // The position keeps the square of the pawn that can be
                // taken, not the empty square behind it.
                let pawn = match pawn_behind(square, turn) {
                    Some(pawn) => pawn,
                    None => {
                        return Err(FenError::InvalidEnPassant);
                    },
                };
                match board.get_tile(pawn.0, pawn.1) {
                    Some(piece) => {
                        if piece.piece_type != PieceType::Pawn || piece.color == turn {
                            return Err(FenError::InvalidEnPassant);
                        }
                    },
                    None => {
                        return Err(FenError::InvalidEnPassant);
                    },
                }
                Some(pawn)
            },
            None => None,
        };
        let game = Game {
            board,
            turn,
            en_passant,
            white_kingside_castle: castling[0],
            white_queenside_castle: castling[1],
            black_kingside_castle: castling[2],
            black_queenside_castle: castling[3],
        };
        assert(game@.castling =~= castling@);
        Ok(game)
    }

    /// Writes the position as text.
    pub fn fen(&self) -> (text: String)
        ensures
            text@ == encode(self@),
    {
        proof {
            use_type_invariant(self);
        }
        let rights = [
            self.white_kingside_castle,
            self.white_queenside_castle,
            self.black_kingside_castle,
            self.black_queenside_castle,
        ];
        let castling = castling_field(rights);
        let landing = match self.en_passant {
            Some(pawn) => Some(square_behind(pawn, self.turn)),
            None => None,
        };
        let en_passant = en_passant_field(landing);
        let mut text = self.board.fen();
        text.append(" ");
        text.append(turn_symbol(self.turn));
        text.append(" ");
        text.append(castling.as_str());
        text.append(" ");
        text.append(en_passant.as_str());
        proof {
            reveal_strlit(" ");
            assert(" "@ =~= seq![' ']);
            lemma_join_four(
                placement_text(self@.board),
                turn_text(self@.turn),
                castling_text(self@.castling),
                en_passant_text(self@.en_passant, self@.turn),
                ' ',
            );
        }
        text
    }

    /// The board.
    pub fn board(&self) -> (board: &Board)
        ensures
            board@ == self@.board,
    {
        &self.board
    }

    /// The side to move.
    pub fn turn(&self) -> (turn: Color)
        ensures
            turn == self@.turn,
    {
        self.turn
    }

    /// The square of the pawn that may be taken en passant, if there is one:
    /// its file index and its rank index.
    pub fn en_passant(&self) -> (pawn: Option<(usize, usize)>)
        ensures
            square_view(pawn) == self@.en_passant,
    {
        self.en_passant
    }

    /// Whether White may still castle on the king side.
    pub fn white_kingside_castle(&self) -> (right: bool)
        ensures
            right == self@.castling[0],
    {
        self.white_kingside_castle
    }

    /// Whether White may still castle on the queen side.
    pub fn white_queenside_castle(&self) -> (right: bool)
        ensures
            right == self@.castling[1],
    {
        self.white_queenside_castle
    }

    /// Whether Black may still castle on the king side.
    pub fn black_kingside_castle(&self) -> (right: bool)
        ensures
            right == self@.castling[2],
    {
        self.black_kingside_castle
    }

    /// Whether Black may still castle on the queen side.
    pub fn black_queenside_castle(&self) -> (right: bool)
        ensures
            right == self@.castling[3],
    {
        self.black_queenside_castle
    }
}

} // verus!
