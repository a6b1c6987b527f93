//! The castling field: which of the four castling rights are left.

use vstd::prelude::*;
use crate::error::FenError;
use crate::text::{has_repeat, is_single};

verus! {

/// The letter of the castling right with index `i`: `K` and `Q` for White's
/// king side and queen side, `k` and `q` for Black's.
pub open spec fn castling_letter(i: int) -> char {
    if i == 0 {
        'K'
    } else if i == 1 {
        'Q'
    } else if i == 2 {
        'k'
    } else {
        'q'
    }
}

/// The index of the castling right that `c` stands for, or -1.
pub open spec fn castling_index(c: char) -> int {
    if c == 'K' {
        0
    } else if c == 'Q' {
        1
    } else if c == 'k' {
        2
    } else if c == 'q' {
        3
    } else {
        -1
    }
}

/// The four rights that a field names: each is set exactly if its letter
/// occurs in the field.
pub open spec fn rights_named(field: Seq<char>) -> Seq<bool> {
    Seq::new(4, |i: int| field.contains(castling_letter(i)))
}

/// What reading a castling field gives.
pub open spec fn parse_castling(field: Seq<char>) -> Result<Seq<bool>, FenError> {
    if field == seq!['-'] {
        Ok(seq![false, false, false, false])
    } else if field.len() > 4 {
        Err(FenError::TooLong)
    } else if !field.no_duplicates() {
        Err(FenError::DuplicateCastlingChar)
    } else if exists|i: int| 0 <= i < field.len() && castling_index(#[trigger] field[i]) < 0 {
        Err(FenError::UnknownCharacter)
    } else {
        Ok(rights_named(field))
    }
}

/// The letter of a right if it is set, else nothing.
pub open spec fn letter_if(set: bool, c: char) -> Seq<char> {
    if set {
        seq![c]
    } else {
        Seq::empty()
    }
}

/// The letters of the rights that are set, in the order `K`, `Q`, `k`, `q`.
pub open spec fn letters_of(rights: Seq<bool>) -> Seq<char> {
    letter_if(rights[0], 'K') + letter_if(rights[1], 'Q') + letter_if(rights[2], 'k') + letter_if(
        rights[3],
        'q',
    )
}

/// The castling field of four rights: the letters of those that are set, or
/// `-` if none is.
pub open spec fn castling_text(rights: Seq<bool>) -> Seq<char> {
    if letters_of(rights).len() == 0 {
        seq!['-']
    } else {
        letters_of(rights)
    }
}

/// Whether a field is `-`, or not empty with its characters in the order
/// `K`, `Q`, `k`, `q`.
pub open spec fn in_castling_order(field: Seq<char>) -> bool {
    field == seq!['-'] || (field.len() > 0 && forall|i: int, j: int|
        0 <= i < j < field.len() ==> castling_index(#[trigger] field[i]) < castling_index(
            #[trigger] field[j],
        ))
}

/// A castling field reads the same however its characters are ordered: two
/// fields with the same characters, each as often as in the other, give the
/// same rights or the same error.
pub proof fn lemma_castling_any_order(field: Seq<char>, other: Seq<char>)
    requires
        field.to_multiset() == other.to_multiset(),
    ensures
        parse_castling(field) == parse_castling(other),
{
    field.to_multiset_ensures();
    other.to_multiset_ensures();
    assert forall|c: char| field.contains(c) <==> other.contains(c) by {
        assert(field.contains(c) <==> field.to_multiset().count(c) > 0);
    }
    if field == seq!['-'] {
        assert(field[0] == '-');
        assert(field.contains('-'));
        assert(other =~= seq!['-']);
    }
    if other == seq!['-'] {
        assert(other[0] == '-');
        assert(other.contains('-'));
        assert(field =~= seq!['-']);
    }
    if field.no_duplicates() {
        field.lemma_multiset_has_no_duplicates();
        other.lemma_multiset_has_no_duplicates_conv();
    }
    if other.no_duplicates() {
        other.lemma_multiset_has_no_duplicates();
        field.lemma_multiset_has_no_duplicates_conv();
    }
    assert forall|i: int| 0 <= i < field.len() && castling_index(#[trigger] field[i]) < 0 implies (
    exists|j: int| 0 <= j < other.len() && castling_index(#[trigger] other[j]) < 0) by {
        assert(field.contains(field[i]));
        let j = choose|j: int| 0 <= j < other.len() && other[j] == field[i];
        assert(castling_index(other[j]) < 0);
    }
    assert forall|i: int| 0 <= i < other.len() && castling_index(#[trigger] other[i]) < 0 implies (
    exists|j: int| 0 <= j < field.len() && castling_index(#[trigger] field[j]) < 0) by {
        assert(other.contains(other[i]));
        let j = choose|j: int| 0 <= j < field.len() && field[j] == other[i];
        assert(castling_index(field[j]) < 0);
    }
    assert(rights_named(field) =~= rights_named(other));
}

/// In a field of at most four characters, `c` occurs exactly if it stands
/// at one of the four places.
proof fn lemma_contains_in_four(field: Seq<char>, c: char)
    requires
        field.len() <= 4,
    ensures
        field.contains(c) <==> (field.len() >= 1 && field[0] == c) || (field.len() >= 2 && field[1]
            == c) || (field.len() >= 3 && field[2] == c) || (field.len() >= 4 && field[3] == c),
{
}

/// A field made of letters of castling rights, none of them twice, gives
/// the rights whose letters it holds, in whatever order they stand.
pub proof fn lemma_castling_letters(field: Seq<char>)
    requires
        field.no_duplicates(),
        forall|i: int| 0 <= i < field.len() ==> castling_index(#[trigger] field[i]) >= 0,
    ensures
        field.len() <= 4,
        parse_castling(field) == Ok::<Seq<bool>, FenError>(rights_named(field)),
{
    if field.len() > 4 {
        assert(castling_index(field[0]) >= 0);
        assert(castling_index(field[1]) >= 0);
        assert(castling_index(field[2]) >= 0);
        assert(castling_index(field[3]) >= 0);
        assert(castling_index(field[4]) >= 0);
    }
    if field == seq!['-'] {
        assert(castling_index(field[0]) >= 0);
    }
}

/// A field that is accepted and has its characters in the order `K`, `Q`,
/// `k`, `q` is written back as it was read.
pub proof fn lemma_castling_read_write(field: Seq<char>)
    requires
        parse_castling(field) is Ok,
        in_castling_order(field),
    ensures
        castling_text(parse_castling(field).unwrap()) == field,
{
    if field != seq!['-'] {
        lemma_contains_in_four(field, 'K');
        lemma_contains_in_four(field, 'Q');
        lemma_contains_in_four(field, 'k');
        lemma_contains_in_four(field, 'q');
    }
}

/// The field written for four rights is in order, and reading it gives the
/// rights back.
pub proof fn lemma_castling_write_read(rights: Seq<bool>)
    requires
        rights.len() == 4,
    ensures
        in_castling_order(castling_text(rights)),
        parse_castling(castling_text(rights)) == Ok::<Seq<bool>, FenError>(rights),
{
    let field = castling_text(rights);
    if letters_of(rights).len() == 0 {
        assert(rights =~= seq![false, false, false, false]);
    } else {
        lemma_contains_in_four(field, 'K');
        lemma_contains_in_four(field, 'Q');
        lemma_contains_in_four(field, 'k');
        lemma_contains_in_four(field, 'q');
        assert(rights_named(field) =~= rights);
    }
}

/// Reads a castling field into the four rights: White's king side and queen
/// side, then Black's.
pub fn castling_part(fen_part: &str) -> (res: Result<[bool; 4], FenError>)
    ensures
        match res {
            Ok(rights) => parse_castling(fen_part@) == Ok::<Seq<bool>, FenError>(rights@),
            Err(e) => parse_castling(fen_part@) == Err::<Seq<bool>, FenError>(e),
        },
{
    if is_single(fen_part, '-') {
        let none = [false; 4];
        assert(none@ =~= seq![false, false, false, false]);
        return Ok(none);
    }
    let n = fen_part.unicode_len();
    if n > 4 {
        return Err(FenError::TooLong);
    }
    if has_repeat(fen_part) {
        return Err(FenError::DuplicateCastlingChar);
    }
    let mut castling: [bool; 4] = [false; 4];
    let mut i: usize = 0;
    while i < n
        invariant
            n == fen_part@.len(),
            0 <= i <= n <= 4,
            fen_part@ != seq!['-'],
            fen_part@.no_duplicates(),
            forall|j: int| 0 <= j < i ==> castling_index(#[trigger] fen_part@[j]) >= 0,
            castling@ =~= rights_named(fen_part@.take(i as int)),
        decreases n - i,
    {
        let c = fen_part.get_char(i);
        proof {
            let before = fen_part@.take(i as int);
            let after = fen_part@.take(i + 1);
            assert forall|x: char| after.contains(x) <==> (before.contains(x) || x == c) by {
                if before.contains(x) {
                    let k = choose|k: int| 0 <= k < before.len() && before[k] == x;
                    assert(after[k] == x);
                }
                if x == c {
                    assert(after[i as int] == x);
                }
            }
        }
        match c {
            'K' => {
                castling[0] = true;
            },
            'Q' => {
                castling[1] = true;
            },
            'k' => {
                castling[2] = true;
            },
            'q' => {
                castling[3] = true;
            },
            _ => {
                return Err(FenError::UnknownCharacter);
            },
        }
        i += 1;
    }
    assert(fen_part@.take(n as int) =~= fen_part@);
    Ok(castling)
}

/// Writes the castling field of four rights.
pub fn castling_field(rights: [bool; 4]) -> (field: String)
    ensures
        field@ == castling_text(rights@),
{
    proof {
        reveal_strlit("K");
        reveal_strlit("Q");
        reveal_strlit("k");
        reveal_strlit("q");
        reveal_strlit("-");
    }
    let mut field = String::new();
    if rights[0] {
        field.append("K");
    }
    if rights[1] {
        field.append("Q");
    }
    if rights[2] {
        field.append("k");
    }
    if rights[3] {
        field.append("q");
    }
    if field.as_str().unicode_len() == 0 {
        field.append("-");
    }
    field
}

} // verus!
