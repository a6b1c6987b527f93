//! Splitting a text at a separator character and joining it again.

use vstd::prelude::*;

verus! {

/// The index of the first `sep` in `s`, or the length of `s` if it has none.
pub open spec fn first_at(s: Seq<char>, sep: char) -> int
    decreases s.len(),
{
    if s.len() == 0 || s[0] == sep {
        0
    } else {
        1 + first_at(s.skip(1), sep)
    }
}

/// The pieces of `s` between its separators, in order. A text with `n`
/// separators has `n + 1` pieces, some of which may be empty.
pub open spec fn split_on(s: Seq<char>, sep: char) -> Seq<Seq<char>>
    decreases s.len(),
{
    let i = first_at(s, sep);
    if 0 <= i < s.len() {
        seq![s.take(i)] + split_on(s.skip(i + 1), sep)
    } else {
        seq![s]
    }
}

/// How often `sep` stands in `s`.
pub open spec fn count_of(s: Seq<char>, sep: char) -> nat
    decreases s.len(),
{
    if s.len() == 0 {
        0
    } else if s[0] == sep {
        1 + count_of(s.skip(1), sep)
    } else {
        count_of(s.skip(1), sep)
    }
}

/// The pieces put together with one `sep` between each two neighbours.
pub open spec fn join_with(parts: Seq<Seq<char>>, sep: char) -> Seq<char>
    decreases parts.len(),
{
    if parts.len() == 0 {
        Seq::empty()
    } else if parts.len() == 1 {
        parts[0]
    } else {
        parts[0] + seq![sep] + join_with(parts.skip(1), sep)
    }
}

/// `first_at` is the position `k` before which no `sep` stands and at which
/// one stands or the text ends.
pub proof fn lemma_first_at(s: Seq<char>, sep: char, k: int)
    requires
        0 <= k <= s.len(),
        forall|j: int| 0 <= j < k ==> s[j] != sep,
        k < s.len() ==> s[k] == sep,
    ensures
        first_at(s, sep) == k,
    decreases s.len(),
{
    if k > 0 {
        lemma_first_at(s.skip(1), sep, k - 1);
    }
}

/// `first_at` lies within the text or at its end, no `sep` stands before it,
/// and one stands at it unless it is the end.
pub proof fn lemma_first_at_is_first(s: Seq<char>, sep: char)
    ensures
        0 <= first_at(s, sep) <= s.len(),
        forall|j: int| 0 <= j < first_at(s, sep) ==> s[j] != sep,
        first_at(s, sep) < s.len() ==> s[first_at(s, sep)] == sep,
    decreases s.len(),
{
    if !(s.len() == 0 || s[0] == sep) {
        let t = s.skip(1);
        lemma_first_at_is_first(t, sep);
        assert forall|j: int| 0 <= j < first_at(s, sep) implies s[j] != sep by {
            if j > 0 {
                assert(s[j] == t[j - 1]);
            }
        }
    }
}

/// One more character at the end counts if it is the separator.
pub proof fn lemma_count_push(s: Seq<char>, c: char, sep: char)
    ensures
        count_of(s.push(c), sep) == count_of(s, sep) + if c == sep {
            1nat
        } else {
            0nat
        },
    decreases s.len(),
{
    if s.len() > 0 {
        lemma_count_push(s.skip(1), c, sep);
        assert(s.push(c).skip(1) =~= s.skip(1).push(c));
    } else {
        assert(s.push(c).skip(1) =~= s);
    }
}

/// A text has one piece more than it has separators.
pub proof fn lemma_split_count(s: Seq<char>, sep: char)
    ensures
        split_on(s, sep).len() == count_of(s, sep) + 1,
    decreases s.len(),
{
    if s.len() > 0 {
        let rest = s.skip(1);
        lemma_split_count(rest, sep);
        lemma_first_at_is_first(rest, sep);
        if s[0] != sep {
            let k = first_at(s, sep);
            if k < s.len() {
                assert(s.skip(k + 1) =~= rest.skip(k - 1 + 1));
            }
        }
    }
}

/// Splitting gives at least one piece, and no piece holds the separator.
pub proof fn lemma_split_pieces(s: Seq<char>, sep: char)
    ensures
        split_on(s, sep).len() >= 1,
        forall|i: int, j: int|
            0 <= i < split_on(s, sep).len() && 0 <= j < split_on(s, sep)[i].len()
                ==> #[trigger] split_on(s, sep)[i][j] != sep,
    decreases s.len(),
{
    lemma_first_at_is_first(s, sep);
    let k = first_at(s, sep);
    if k < s.len() {
        lemma_split_pieces(s.skip(k + 1), sep);
    }
}

/// Joining the pieces of a text gives the text back.
pub proof fn lemma_join_split(s: Seq<char>, sep: char)
    ensures
        join_with(split_on(s, sep), sep) == s,
    decreases s.len(),
{
    lemma_first_at_is_first(s, sep);
    let k = first_at(s, sep);
    if k < s.len() {
        let rest = s.skip(k + 1);
        lemma_join_split(rest, sep);
        let parts = split_on(s, sep);
        assert(parts.skip(1) =~= split_on(rest, sep));
    }
}

/// Splitting a joined text gives its pieces back, where there is at least
/// one piece and none holds the separator.
pub proof fn lemma_split_join(parts: Seq<Seq<char>>, sep: char)
    requires
        parts.len() >= 1,
        forall|i: int, j: int|
            0 <= i < parts.len() && 0 <= j < parts[i].len() ==> #[trigger] parts[i][j] != sep,
    ensures
        split_on(join_with(parts, sep), sep) == parts,
    decreases parts.len(),
{
    let s = join_with(parts, sep);
    if parts.len() == 1 {
        lemma_first_at(s, sep, s.len() as int);
    } else {
        let rest = parts.skip(1);
        lemma_split_join(rest, sep);
        let k = parts[0].len() as int;
        lemma_first_at(s, sep, k);
        assert(s.take(k) =~= parts[0]);
        assert(s.skip(k + 1) =~= join_with(rest, sep));
    }
}

/// Joining with one more piece at the end puts a separator and that piece
/// after what was joined before.
pub proof fn lemma_join_push(parts: Seq<Seq<char>>, last: Seq<char>, sep: char)
    requires
        parts.len() >= 1,
    ensures
        join_with(parts.push(last), sep) == join_with(parts, sep) + seq![sep] + last,
    decreases parts.len(),
{
    let all = parts.push(last);
    if parts.len() == 1 {
        assert(join_with(all.skip(1), sep) == last);
    } else {
        lemma_join_push(parts.skip(1), last, sep);
        assert(all.skip(1) =~= parts.skip(1).push(last));
    }
}

/// A character that is not the separator and stands in none of the pieces
/// does not stand in what they are joined to.
pub proof fn lemma_join_without(parts: Seq<Seq<char>>, sep: char, c: char)
    requires
        c != sep,
        forall|i: int, j: int|
            0 <= i < parts.len() && 0 <= j < parts[i].len() ==> #[trigger] parts[i][j] != c,
    ensures
        forall|k: int| 0 <= k < join_with(parts, sep).len() ==> join_with(parts, sep)[k] != c,
    decreases parts.len(),
{
    if parts.len() >= 2 {
        let rest = parts.skip(1);
        lemma_join_without(rest, sep, c);
        let joined = join_with(parts, sep);
        assert forall|k: int| 0 <= k < joined.len() implies joined[k] != c by {
            if k > parts[0].len() {
                assert(joined[k] == join_with(rest, sep)[k - parts[0].len() - 1]);
            }
        }
    }
}

/// Four pieces joined are the pieces in order with a separator after each
/// but the last.
pub proof fn lemma_join_four(a: Seq<char>, b: Seq<char>, c: Seq<char>, d: Seq<char>, sep: char)
    ensures
        join_with(seq![a, b, c, d], sep) == a + seq![sep] + b + seq![sep] + c + seq![sep] + d,
{
    lemma_join_push(seq![a], b, sep);
    assert(seq![a].push(b) =~= seq![a, b]);
    lemma_join_push(seq![a, b], c, sep);
    assert(seq![a, b].push(c) =~= seq![a, b, c]);
    lemma_join_push(seq![a, b, c], d, sep);
    assert(seq![a, b, c].push(d) =~= seq![a, b, c, d]);
}

/// The views of a vector of string slices.
pub open spec fn views(parts: Seq<&str>) -> Seq<Seq<char>> {
    Seq::new(parts.len(), |i: int| parts[i]@)
}

/// Whether `s` is the one character `c`.
pub fn is_single(s: &str, c: char) -> (b: bool)
    ensures
        b == (s@ == seq![c]),
{
    if s.unicode_len() != 1 {
        return false;
    }
    let found = s.get_char(0) == c;
    assert(found ==> s@ =~= seq![c]);
    found
}

/// The digit that stands for the number `n`, from 0 to 9.
pub open spec fn digit_char(n: int) -> char {
    ('0' as int + n) as char
}

/// The digit of a number from 1 to 8, as a one-character string.
pub fn digit_symbol(n: usize) -> (s: &'static str)
    requires
        1 <= n <= 8,
    ensures
        s@ == seq![digit_char(n as int)],
{
    proof {
        reveal_strlit("1");
        reveal_strlit("2");
        reveal_strlit("3");
        reveal_strlit("4");
        reveal_strlit("5");
        reveal_strlit("6");
        reveal_strlit("7");
        reveal_strlit("8");
    }
    match n {
        1 => "1",
        2 => "2",
        3 => "3",
        4 => "4",
        5 => "5",
        6 => "6",
        7 => "7",
        _ => "8",
    }
}

/// Whether some character occurs twice in `s`.
pub fn has_repeat(s: &str) -> (b: bool)
    ensures
        b == !s@.no_duplicates(),
{
    let n = s.unicode_len();
    let mut i: usize = 0;
    while i < n
        invariant
            n == s@.len(),
            0 <= i <= n,
            forall|a: int, b: int| 0 <= a < i && a < b < n ==> s@[a] != s@[b],
        decreases n - i,
    {
        let c = s.get_char(i);
        let mut j: usize = i + 1;
        while j < n
            invariant
                n == s@.len(),
                0 <= i < j <= n,
                c == s@[i as int],
                forall|b: int| i < b < j ==> s@[i as int] != s@[b],
            decreases n - j,
        {
            if s.get_char(j) == c {
                return true;
            }
            j += 1;
        }
        i += 1;
    }
    false
}

/// How often `sep` stands in `s`.
pub fn count_char(s: &str, sep: char) -> (n: usize)
    ensures
        n == count_of(s@, sep),
{
    let len = s.unicode_len();
    let mut n: usize = 0;
    for c in it: s.chars()
        invariant
            it.seq() == s@,
            len == s@.len(),
            n <= it.index() <= len,
            n == count_of(s@.take(it.index() as int), sep),
    {
        proof {
            lemma_count_push(s@.take(it.index() as int), c, sep);
            assert(s@.take(it.index() + 1) =~= s@.take(it.index() as int).push(c));
        }
        if c == sep {
            n += 1;
        }
    }
    assert(s@.take(len as int) =~= s@);
    n
}

/// Splits `s` at every `sep`. Each piece is cut out of `s` on its own, so
/// the time this takes grows with the number of pieces times the length.
pub fn split_fields<'a>(s: &'a str, sep: char) -> (parts: Vec<&'a str>)
    ensures
        views(parts@) == split_on(s@, sep),
{
    let len = s.unicode_len();
    let mut parts: Vec<&'a str> = Vec::new();
    let mut start: usize = 0;
    let mut i: usize = 0;
    assert(s@.skip(0) =~= s@);
    for c in it: s.chars()
        invariant
            it.seq() == s@,
            len == s@.len(),
            i == it.index(),
            0 <= start <= i <= len,
            forall|j: int| start <= j < i ==> s@[j] != sep,
            views(parts@) + split_on(s@.skip(start as int), sep) == split_on(s@, sep),
    {
        if c == sep {
            let part = s.substring_char(start, i);
            proof {
                let tail = s@.skip(start as int);
                assert forall|j: int| 0 <= j < i - start implies tail[j] != sep by {}
                lemma_first_at(tail, sep, i - start);
                assert(tail.take(i - start) =~= part@);
                assert(tail.skip(i - start + 1) =~= s@.skip(i + 1));
            }
            parts.push(part);
            start = i + 1;
        }
        i += 1;
    }
    let part = s.substring_char(start, len);
    proof {
        let tail = s@.skip(start as int);
        assert forall|j: int| 0 <= j < len - start implies tail[j] != sep by {}
        lemma_first_at(tail, sep, len - start);
    }
    parts.push(part);
    parts
}

} // verus!
