//! The board and its piece placement text.
//!
//! A placement is eight ranks separated by `/`, from rank 8 down to rank 1.
//! In a rank a letter stands for a piece and a digit from `1` to `8` for
//! that many empty squares, from file `a` to file `h`. Every run of empty
//! squares is written as one digit, so every board has exactly one
//! placement.

use vstd::prelude::*;
use crate::error::PlacementError;
use crate::piece::{letter_piece, piece_letter, Piece};
use crate::text::{
    count_char, digit_char, digit_symbol, join_with, lemma_join_push, lemma_join_split,
    lemma_join_without, lemma_split_count, lemma_split_join, split_fields, split_on, views,
};

verus! {

/// Whether `c` is a digit from `1` to `8`.
pub open spec fn is_run_digit(c: char) -> bool {
    '1' <= c <= '8'
}

/// The number that a digit stands for.
pub open spec fn digit_value(c: char) -> int {
    c as int - '0' as int
}

/// Whether `c` may stand in a rank: a piece letter or a digit from `1` to `8`.
pub open spec fn is_rank_char(c: char) -> bool {
    is_run_digit(c) || letter_piece(c) is Some
}

/// `n` empty squares.
pub open spec fn empty_squares(n: int) -> Seq<Option<Piece>> {
    Seq::new(n as nat, |i: int| None)
}

/// The squares that one character of a rank stands for.
pub open spec fn char_squares(c: char) -> Seq<Option<Piece>> {
    if is_run_digit(c) {
        empty_squares(digit_value(c))
    } else {
        seq![letter_piece(c)]
    }
}

/// The squares that the text of a rank stands for, from file `a` on.
pub open spec fn rank_squares(text: Seq<char>) -> Seq<Option<Piece>>
    decreases text.len(),
{
    if text.len() == 0 {
        Seq::empty()
    } else {
        rank_squares(text.drop_last()) + char_squares(text.last())
    }
}

/// Whether every character of a rank's text may stand in a rank.
pub open spec fn all_rank_chars(text: Seq<char>) -> bool {
    forall|i: int| 0 <= i < text.len() ==> is_rank_char(#[trigger] text[i])
}

/// Whether two digits stand side by side in a rank's text.
pub open spec fn has_adjacent_digits(text: Seq<char>) -> bool {
    exists|i: int|
        0 <= i && i + 1 < text.len() && is_run_digit(#[trigger] text[i]) && is_run_digit(
            text[i + 1],
        )
}

/// The board that eight rank texts stand for, each of them eight squares
/// wide: rank by rank, the first text first.
pub open spec fn board_of(ranks: Seq<Seq<char>>) -> Seq<Option<Piece>> {
    Seq::new(64, |i: int| rank_squares(ranks[i / 8])[i % 8])
}

/// What reading a placement gives.
pub open spec fn parse_placement(text: Seq<char>) -> Result<Seq<Option<Piece>>, PlacementError> {
    let ranks = split_on(text, '/');
    if ranks.len() != 8 {
        Err(PlacementError::WrongRankCount)
    } else if exists|r: int| 0 <= r < 8 && !all_rank_chars(#[trigger] ranks[r]) {
        Err(PlacementError::UnknownCharacter)
    } else if exists|r: int| 0 <= r < 8 && has_adjacent_digits(#[trigger] ranks[r]) {
        Err(PlacementError::AdjacentDigits)
    } else if exists|r: int| 0 <= r < 8 && rank_squares(#[trigger] ranks[r]).len() != 8 {
        Err(PlacementError::WrongRankWidth)
    } else {
        Ok(board_of(ranks))
    }
}

/// The number of empty squares at the end of a row of squares.
pub open spec fn trailing_empty(squares: Seq<Option<Piece>>) -> nat
    decreases squares.len(),
{
    if squares.len() == 0 || squares.last() is Some {
        0
    } else {
        1 + trailing_empty(squares.drop_last())
    }
}

/// The run of empty squares at the end of a row lies within the row, is made
/// of empty squares, and has a piece before it or the start of the row.
pub proof fn lemma_trailing_empty(squares: Seq<Option<Piece>>)
    ensures
        trailing_empty(squares) <= squares.len(),
        squares.len() > 0 && squares.last() is None ==> trailing_empty(squares) >= 1,
        forall|i: int|
            squares.len() - trailing_empty(squares) <= i < squares.len() ==> squares[i] is None,
        trailing_empty(squares) < squares.len() ==> squares[squares.len() - trailing_empty(squares)
            - 1] is Some,
    decreases squares.len(),
{
    if !(squares.len() == 0 || squares.last() is Some) {
        let front = squares.drop_last();
        lemma_trailing_empty(front);
        assert forall|i: int|
            squares.len() - trailing_empty(squares) <= i < squares.len() implies squares[i]
            is None by {
            if i < front.len() {
                assert(squares[i] == front[i]);
            }
        }
    }
}

/// The text of a row of squares: it ends with the letter of the last piece,
/// or with the digit that counts the empty squares at the end.
pub open spec fn rank_text(squares: Seq<Option<Piece>>) -> Seq<char>
    decreases squares.len(),
{
    if squares.len() == 0 {
        Seq::empty()
    } else {
        match squares.last() {
            Some(piece) => rank_text(squares.drop_last()).push(piece_letter(piece)),
            None => {
                proof {
                    lemma_trailing_empty(squares);
                }
                let run = trailing_empty(squares);
                rank_text(squares.take(squares.len() - run)).push(digit_char(run as int))
            },
        }
    }
}

/// The eight ranks of a board, as rows of eight squares.
pub open spec fn board_ranks(board: Seq<Option<Piece>>) -> Seq<Seq<Option<Piece>>> {
    Seq::new(8, |r: int| board.subrange(8 * r, 8 * r + 8))
}

/// The placement of a board of 64 squares.
pub open spec fn placement_text(board: Seq<Option<Piece>>) -> Seq<char> {
    join_with(Seq::new(8, |r: int| rank_text(board_ranks(board)[r])), '/')
}

/// The piece on the square with file index `file` and rank index `rank`, if
/// the square is on the board and a piece stands there.
pub open spec fn tile_at(board: Seq<Option<Piece>>, file: int, rank: int) -> Option<Piece> {
    if 0 <= file < 8 && 0 <= rank < 8 {
        board[rank * 8 + file]
    } else {
        None
    }
}

/// Taking a longer start of a rank's text gives at least as many squares.
pub proof fn lemma_rank_squares_grow(text: Seq<char>, i: int)
    requires
        0 <= i <= text.len(),
    ensures
        rank_squares(text.take(i)).len() <= rank_squares(text).len(),
    decreases text.len() - i,
{
    if i < text.len() {
        lemma_rank_squares_grow(text, i + 1);
        assert(text.take(i + 1).drop_last() =~= text.take(i));
    } else {
        assert(text.take(i) =~= text);
    }
}

/// The text of a row of at most eight squares is made of piece letters and
/// digits from `1` to `8`, has no two digits side by side, ends with a
/// letter if the row ends with a piece, and stands for the row.
pub proof fn lemma_rank_write_read(squares: Seq<Option<Piece>>)
    requires
        squares.len() <= 8,
    ensures
        all_rank_chars(rank_text(squares)),
        !has_adjacent_digits(rank_text(squares)),
        squares.len() > 0 && squares.last() is Some ==> rank_text(squares).len() > 0
            && !is_run_digit(rank_text(squares).last()),
        rank_squares(rank_text(squares)) == squares,
    decreases squares.len(),
{
    if squares.len() > 0 {
        let text = rank_text(squares);
        match squares.last() {
            Some(piece) => {
                let front = squares.drop_last();
                lemma_rank_write_read(front);
                assert(text.drop_last() =~= rank_text(front));
            },
            None => {
                lemma_trailing_empty(squares);
                let run = trailing_empty(squares);
                let front = squares.take(squares.len() - run);
                lemma_rank_write_read(front);
                assert(text.drop_last() =~= rank_text(front));
            },
        }
    }
}

/// Putting `n` empty squares after a row makes its run of empty squares at
/// the end longer by `n`.
proof fn lemma_trailing_empty_more(squares: Seq<Option<Piece>>, n: int)
    requires
        0 <= n,
    ensures
        trailing_empty(squares + empty_squares(n)) == trailing_empty(squares) + n,
    decreases n,
{
    if n > 0 {
        lemma_trailing_empty_more(squares, n - 1);
        assert((squares + empty_squares(n)).drop_last() =~= squares + empty_squares(n - 1));
    }
}

/// A rank's text that is made of piece letters and digits from `1` to `8`,
/// with no two digits side by side, is the text of the squares it stands
/// for.
pub proof fn lemma_rank_read_write(text: Seq<char>)
    requires
        all_rank_chars(text),
        !has_adjacent_digits(text),
    ensures
        rank_text(rank_squares(text)) == text,
        text.len() > 0 && !is_run_digit(text.last()) ==> rank_squares(text).len() > 0
            && rank_squares(text).last() is Some,
    decreases text.len(),
{
    if text.len() > 0 {
        let front = text.drop_last();
        let c = text.last();
        lemma_rank_read_write(front);
        let squares = rank_squares(text);
        if is_run_digit(c) {
            let n = digit_value(c);
            lemma_trailing_empty_more(rank_squares(front), n);
            assert(squares.take(squares.len() - n) =~= rank_squares(front));
        } else {
            assert(squares.drop_last() =~= rank_squares(front));
        }
    }
}

/// The rank with index `r` of the board that eight rank texts stand for is
/// what the text with index `r` stands for.
proof fn lemma_board_of_rank(ranks: Seq<Seq<char>>, r: int)
    requires
        ranks.len() == 8,
        0 <= r < 8,
        forall|k: int| 0 <= k < 8 ==> rank_squares(#[trigger] ranks[k]).len() == 8,
    ensures
        board_ranks(board_of(ranks))[r] == rank_squares(ranks[r]),
{
    assert(board_of(ranks).subrange(8 * r, 8 * r + 8) =~= rank_squares(ranks[r]));
}

/// A placement that is accepted is the placement of the board it gives.
pub proof fn lemma_placement_read_write(text: Seq<char>)
    requires
        parse_placement(text) is Ok,
    ensures
        parse_placement(text).unwrap().len() == 64,
        placement_text(parse_placement(text).unwrap()) == text,
{
    let ranks = split_on(text, '/');
    let board = board_of(ranks);
    let rows = Seq::new(8, |r: int| rank_text(board_ranks(board)[r]));
    assert forall|r: int| 0 <= r < 8 implies rows[r] == ranks[r] by {
        lemma_board_of_rank(ranks, r);
        lemma_rank_read_write(ranks[r]);
    }
    assert(rows =~= ranks);
    lemma_join_split(text, '/');
}

/// The placement of a board is accepted and gives the board back.
pub proof fn lemma_placement_write_read(board: Seq<Option<Piece>>)
    requires
        board.len() == 64,
    ensures
        parse_placement(placement_text(board)) == Ok::<Seq<Option<Piece>>, PlacementError>(board),
{
    let rows = Seq::new(8, |r: int| rank_text(board_ranks(board)[r]));
    assert forall|r: int| 0 <= r < 8 implies all_rank_chars(#[trigger] rows[r])
        && !has_adjacent_digits(rows[r]) && rank_squares(rows[r]) == board_ranks(board)[r] by {
        lemma_rank_write_read(board_ranks(board)[r]);
    }
    lemma_split_join(rows, '/');
    assert(board_of(rows) =~= board);
}

/// No space stands in the placement of a board.
pub proof fn lemma_placement_has_no_space(board: Seq<Option<Piece>>)
    requires
        board.len() == 64,
    ensures
        forall|k: int| 0 <= k < placement_text(board).len() ==> placement_text(board)[k] != ' ',
{
    let rows = Seq::new(8, |r: int| rank_text(board_ranks(board)[r]));
    assert forall|i: int, j: int| 0 <= i < rows.len() && 0 <= j < rows[i].len() implies (
    #[trigger] rows[i][j]) != ' ' by {
        lemma_rank_write_read(board_ranks(board)[i]);
    }
    lemma_join_without(rows, '/', ' ');
}

/// A board: 64 squares, rank by rank from rank 8 down to rank 1, and in each
/// rank from file `a` to file `h`. The square with file index `file` and
/// rank index `rank` has the index `rank * 8 + file`.
#[derive(Clone, Copy, Debug, PartialEq, Eq)]
pub struct Board {
    pub squares: [Option<Piece>; 64],
}

impl View for Board {
    type V = Seq<Option<Piece>>;

    open spec fn view(&self) -> Seq<Option<Piece>> {
        self.squares@
    }
}

/// Whether every character of a rank's text is a piece letter or a digit
/// from `1` to `8`.
pub fn known_chars(text: &str) -> (known: bool)
    ensures
        known == all_rank_chars(text@),
{
    for c in it: text.chars()
        invariant
            it.seq() == text@,
            forall|j: int| 0 <= j < it.index() ==> is_rank_char(#[trigger] text@[j]),
    {
        if !('1' <= c && c <= '8') && Piece::from_letter(c).is_none() {
            return false;
        }
    }
    true
}

/// Whether two digits from `1` to `8` stand side by side in a rank's text.
pub fn adjacent_digits(text: &str) -> (found: bool)
    ensures
        found == has_adjacent_digits(text@),
{
    let mut after_digit = false;
    for c in it: text.chars()
        invariant
            it.seq() == text@,
            after_digit == (it.index() > 0 && is_run_digit(text@[it.index() - 1])),
            forall|j: int|
                0 <= j && j + 1 < it.index() ==> !(is_run_digit(#[trigger] text@[j])
                    && is_run_digit(text@[j + 1])),
    {
        let digit = '1' <= c && c <= '8';
        if digit && after_digit {
            assert(is_run_digit(text@[it.index() - 1]) && is_run_digit(text@[it.index() - 1 + 1]));
            return true;
        }
        after_digit = digit;
    }
    false
}

/// The eight squares that the text of a rank stands for; none if it stands
/// for fewer or more than eight.
pub fn rank_row(text: &str) -> (row: Option<[Option<Piece>; 8]>)
    ensures
        match row {
            Some(squares) => squares@ == rank_squares(text@),
            None => rank_squares(text@).len() != 8,
        },
{
    let n = text.unicode_len();
    let mut squares: [Option<Piece>; 8] = [None; 8];
    let mut filled: usize = 0;
    let mut i: usize = 0;
    while i < n
        invariant
            n == text@.len(),
            0 <= i <= n,
            0 <= filled <= 8,
            filled == rank_squares(text@.take(i as int)).len(),
            forall|k: int| 0 <= k < filled ==> squares@[k] == rank_squares(text@.take(i as int))[k],
            forall|k: int| filled <= k < 8 ==> squares@[k] is None,
        decreases n - i,
    {
        let c = text.get_char(i);
        proof {
            assert(text@.take(i + 1).drop_last() =~= text@.take(i as int));
            lemma_rank_squares_grow(text@, i + 1);
        }
        let width: usize = match c {
            '1' => 1,
            '2' => 2,
            '3' => 3,
            '4' => 4,
            '5' => 5,
            '6' => 6,
            '7' => 7,
            '8' => 8,
            _ => 0,
        };
        if width > 0 {
            if width > 8 - filled {
                return None;
            }
            filled += width;
        } else {
            if filled == 8 {
                return None;
            }
            squares[filled] = Piece::from_letter(c);
            filled += 1;
        }
        i += 1;
    }
    assert(text@.take(n as int) =~= text@);
    if filled == 8 {
        Some(squares)
    } else {
        None
    }
}

impl Board {
    /// Reads a placement.
    pub fn from_fen(text: &str) -> (res: Result<Board, PlacementError>)
        ensures
            match res {
                Ok(board) => parse_placement(text@) == Ok::<Seq<Option<Piece>>, PlacementError>(
                    board@,
                ),
                Err(e) => parse_placement(text@) == Err::<Seq<Option<Piece>>, PlacementError>(e),
            },
    {
        proof {
            lemma_split_count(text@, '/');
        }
        if count_char(text, '/') != 7 {
            return Err(PlacementError::WrongRankCount);
        }
        let ranks = split_fields(text, '/');
        let ghost texts = split_on(text@, '/');
        let mut r: usize = 0;
        while r < 8
            invariant
                0 <= r <= 8,
                ranks@.len() == 8,
                views(ranks@) == texts,
                texts == split_on(text@, '/'),
                forall|k: int| 0 <= k < r ==> all_rank_chars(#[trigger] texts[k]),
            decreases 8 - r,
        {
            assert(texts[r as int] == ranks@[r as int]@);
            if !known_chars(ranks[r]) {
                return Err(PlacementError::UnknownCharacter);
            }
            r += 1;
        }
        r = 0;
        while r < 8
            invariant
                0 <= r <= 8,
                ranks@.len() == 8,
                views(ranks@) == texts,
                texts == split_on(text@, '/'),
                forall|k: int| 0 <= k < 8 ==> all_rank_chars(#[trigger] texts[k]),
                forall|k: int| 0 <= k < r ==> !has_adjacent_digits(#[trigger] texts[k]),
            decreases 8 - r,
        {
            assert(texts[r as int] == ranks@[r as int]@);
            if adjacent_digits(ranks[r]) {
                return Err(PlacementError::AdjacentDigits);
            }
            r += 1;
        }
        let mut squares: [Option<Piece>; 64] = [None; 64];
        r = 0;
        while r < 8
            invariant
                0 <= r <= 8,
                ranks@.len() == 8,
                views(ranks@) == texts,
                texts == split_on(text@, '/'),
                forall|k: int| 0 <= k < 8 ==> all_rank_chars(#[trigger] texts[k]),
                forall|k: int| 0 <= k < 8 ==> !has_adjacent_digits(#[trigger] texts[k]),
                forall|k: int| 0 <= k < r ==> rank_squares(#[trigger] texts[k]).len() == 8,
                forall|i: int| 0 <= i < 8 * r ==> squares@[i] == board_of(texts)[i],
            decreases 8 - r,
        {
            match rank_row(ranks[r]) {
                None => {
                    return Err(PlacementError::WrongRankWidth);
                },
                Some(row) => {
                    let mut f: usize = 0;
                    while f < 8
                        invariant
                            0 <= r < 8,
                            0 <= f <= 8,
                            texts.len() == 8,
                            row@ == rank_squares(texts[r as int]),
                            forall|i: int| 0 <= i < 8 * r + f ==> squares@[i] == board_of(texts)[i],
                        decreases 8 - f,
                    {
                        squares[r * 8 + f] = row[f];
                        f += 1;
                    }
                },
            }
            r += 1;
        }
        assert(squares@ =~= board_of(texts));
        Ok(Board { squares })
    }

    /// The piece on the square with file index `x` and rank index `y`; none
    /// if the square is empty or off the board.
    pub fn get_tile(&self, x: usize, y: usize) -> (tile: Option<Piece>)
        ensures
            tile == tile_at(self@, x as int, y as int),
    {
        if x < 8 && y < 8 {
            self.squares[y * 8 + x]
        } else {
            None
        }
    }

    /// The text of the rank with rank index `rank`.
    pub fn rank_fen(&self, rank: usize) -> (text: String)
        requires
            rank < 8,
        ensures
            text@ == rank_text(board_ranks(self@)[rank as int]),
    {
        let ghost row = board_ranks(self@)[rank as int];
        let mut text = String::new();
        let mut run: usize = 0;
        let mut f: usize = 0;
        while f < 8
            invariant
                rank < 8,
                0 <= run <= f <= 8,
                row == self@.subrange(8 * rank, 8 * rank + 8),
                run == trailing_empty(row.take(f as int)),
                text@ == rank_text(row.take(f - run)),
            decreases 8 - f,
        {
            let ghost before = row.take(f as int);
            assert(row.take(f + 1).drop_last() =~= before);
            match self.squares[rank * 8 + f] {
                Some(piece) => {
                    if run > 0 {
                        text.append(digit_symbol(run));
                        proof {
                            assert(before.take(before.len() - run) =~= row.take(f - run));
                            assert(text@ =~= rank_text(before));
                        }
                        run = 0;
                    }
                    text.append(piece.symbol());
                },
                None => {
                    run += 1;
                },
            }
            f += 1;
        }
        assert(row.take(8) =~= row);
        if run > 0 {
            text.append(digit_symbol(run));
        }
        text
    }

    /// Writes the placement of the board.
    pub fn fen(&self) -> (text: String)
        ensures
            text@ == placement_text(self@),
    {
        let ghost rows = Seq::new(8, |r: int| rank_text(board_ranks(self@)[r]));
        let mut text = self.rank_fen(0);
        let mut r: usize = 1;
        while r < 8
            invariant
                1 <= r <= 8,
                rows == Seq::new(8, |r: int| rank_text(board_ranks(self@)[r])),
                text@ == join_with(rows.take(r as int), '/'),
            decreases 8 - r,
        {
            let rank = self.rank_fen(r);
            text.append("/");
            text.append(rank.as_str());
            proof {
                reveal_strlit("/");
                lemma_join_push(rows.take(r as int), rows[r as int], '/');
                assert(rows.take(r as int).push(rows[r as int]) =~= rows.take(r + 1));
            }
            r += 1;
        }
        assert(rows.take(8) =~= rows);
        text
    }
}

} // verus!
