use vstd::prelude::*;
use vstd::string::StrSliceExecFns;

use crate::game::MoveError;

verus! {

/// A whitespace character in Unicode's sense (the property `White_Space`),
/// the set that `char::is_whitespace` tests for.
pub open spec fn is_space(c: char) -> bool {
    let u = c as u32;
    ||| 0x09 <= u <= 0x0D
    ||| u == 0x20
    ||| u == 0x85
    ||| u == 0xA0
    ||| u == 0x1680
    ||| 0x2000 <= u <= 0x200A
    ||| u == 0x2028
    ||| u == 0x2029
    ||| u == 0x202F
    ||| u == 0x205F
    ||| u == 0x3000
}

/// How many characters at the start of `s` come before the first whitespace.
pub open spec fn word_len(s: Seq<char>) -> nat
    decreases s.len(),
{
    if s.len() == 0 || is_space(s[0]) {
        0
    } else {
        1 + word_len(s.drop_first())
    }
}

/// The maximal runs of non-whitespace characters of `s`, in order.
pub open spec fn words(s: Seq<char>) -> Seq<Seq<char>>
    decreases s.len(),
    via words_decreases
{
    if s.len() == 0 {
        seq![]
    } else if is_space(s[0]) {
        words(s.drop_first())
    } else {
        seq![s.take(word_len(s) as int)] + words(s.skip(word_len(s) as int))
    }
}

/// A word never runs past the end of the text.
pub proof fn lemma_word_len_bound(s: Seq<char>)
    ensures
        word_len(s) <= s.len(),
    decreases s.len(),
{
    if s.len() > 0 && !is_space(s[0]) {
        lemma_word_len_bound(s.drop_first());
    }
}

#[via_fn]
proof fn words_decreases(s: Seq<char>) {
    lemma_word_len_bound(s);
}

/// One of the characters `0` to `9`.
pub open spec fn is_digit(c: char) -> bool {
    '0' as u32 <= c as u32 <= '9' as u32
}

/// The decimal number that the digits `d` write.
pub open spec fn decimal(d: Seq<char>) -> nat
    decreases d.len(),
{
    if d.len() == 0 {
        0
    } else {
        decimal(d.drop_last()) * 10 + (d.last() as u32 - '0' as u32) as nat
    }
}

/// `t` without the `+` that may stand in front of its digits.
pub open spec fn digits_part(t: Seq<char>) -> Seq<char> {
    if t.len() > 0 && t[0] == '+' {
        t.drop_first()
    } else {
        t
    }
}

/// The value of `t` read as an unsigned integer: one or more decimal digits,
/// with a `+` in front or not.
pub open spec fn unsigned_value(t: Seq<char>) -> Option<nat> {
    let d = digits_part(t);
    if d.len() > 0 && forall|i: int| 0 <= i < d.len() ==> is_digit(#[trigger] d[i]) {
        Some(decimal(d))
    } else {
        None
    }
}

/// The zero-based index that the word `t` names: a number from 1 to 3, less one.
pub open spec fn coordinate(t: Seq<char>) -> Option<usize> {
    match unsigned_value(t) {
        Some(v) => if 1 <= v <= 3 {
            Some((v - 1) as usize)
        } else {
            None
        },
        None => None,
    }
}

/// The cell that a line of input asks for: exactly two words, each a number
/// from 1 to 3, the row first. Rows and columns count from zero in the result.
pub open spec fn requested_cell(s: Seq<char>) -> Option<(usize, usize)> {
    let w = words(s);
    if w.len() == 2 && coordinate(w[0]) is Some && coordinate(w[1]) is Some {
        Some((coordinate(w[0])->0, coordinate(w[1])->0))
    } else {
        None
    }
}

/// Whether `c` is whitespace.
fn is_whitespace(c: char) -> (r: bool)
    ensures
        r == is_space(c),
{
    let u = c as u32;
    (0x09 <= u && u <= 0x0D) || u == 0x20 || u == 0x85 || u == 0xA0 || u == 0x1680 || (0x2000 <= u
        && u <= 0x200A) || u == 0x2028 || u == 0x2029 || u == 0x202F || u == 0x205F || u == 0x3000
}

/// Where the word that starts at `start` ends: the index of the first
/// whitespace character from `start` on, or the end of the line.
fn word_end(line: &str, n: usize, start: usize) -> (end: usize)
    requires
        n == line@.len(),
        start <= n,
    ensures
        start <= end <= n,
        end == start + word_len(line@.skip(start as int)),
{
    let ghost s = line@;
    let mut j = start;
    while j < n && !is_whitespace(line.get_char(j))
        invariant
            n == s.len(),
            s == line@,
            start <= j <= n,
            word_len(s.skip(start as int)) == (j - start) + word_len(s.skip(j as int)),
        decreases n - j,
    {
        assert(s.skip(j as int).drop_first() =~= s.skip(j + 1));
        j += 1;
    }
    j
}

/// The coordinate that the word `line[start..end]` names, if it names one.
fn coordinate_of(line: &str, n: usize, start: usize, end: usize) -> (r: Option<usize>)
    requires
        n == line@.len(),
        start < end <= n,
    ensures
        r == coordinate(line@.subrange(start as int, end as int)),
{
    let ghost s = line@;
    let ghost t = s.subrange(start as int, end as int);
    let mut k = start;
    if line.get_char(start) == '+' {
        k += 1;
    }
    let ds = k;
    let ghost d = s.subrange(ds as int, end as int);
    assert(d =~= digits_part(t));
    if ds == end {
        return None;
    }
    // The value read so far, or 4 once it is past the largest coordinate.
    let mut value: u32 = 0;
    while k < end
        invariant
            n == s.len(),
            s == line@,
            start <= ds <= k <= end <= n,
            d == s.subrange(ds as int, end as int),
            d == digits_part(s.subrange(start as int, end as int)),
            value <= 4,
            value == if decimal(s.subrange(ds as int, k as int)) < 4 {
                decimal(s.subrange(ds as int, k as int))
            } else {
                4
            },
            forall|i: int| ds <= i < k ==> is_digit(#[trigger] s[i]),
        decreases end - k,
    {
        let c = line.get_char(k);
        if !('0' <= c && c <= '9') {
            assert(!is_digit(d[k - ds]));
            return None;
        }
        let ghost prefix = s.subrange(ds as int, k + 1);
        assert(prefix.drop_last() =~= s.subrange(ds as int, k as int));
        let digit = c as u32 - '0' as u32;
        if value < 4 {
            value = value * 10 + digit;
            if value > 4 {
                value = 4;
            }
        }
        k += 1;
    }
    assert(s.subrange(ds as int, k as int) =~= d);
    assert forall|i: int| 0 <= i < d.len() implies is_digit(#[trigger] d[i]) by {
        assert(d[i] == s[ds + i]);
    }
    if 1 <= value && value <= 3 {
        Some((value - 1) as usize)
    } else {
        None
    }
}

/// Reads the cell that a line of input asks for: exactly two words separated
/// by whitespace, each a number from 1 to 3, the row first. The result counts
/// rows and columns from zero.
pub fn parse_move(line: &str) -> (r: Result<(usize, usize), MoveError>)
    ensures
        r == match requested_cell(line@) {
            Some(p) => Ok(p),
            None => Err(MoveError::MalformedInput),
        },
{
    let ghost s = line@;
    let n = line.unicode_len();
    let mut i: usize = 0;
    let mut count: usize = 0;
    let mut first: Option<usize> = None;
    let mut second: Option<usize> = None;
    let ghost mut done: Seq<Seq<char>> = seq![];
    assert(s.skip(0) =~= s);
    while i < n
        invariant
            n == s.len(),
            s == line@,
            i <= n,
            count == done.len(),
            count <= 2,
            words(s) == done + words(s.skip(i as int)),
            count >= 1 ==> first == coordinate(done[0]),
            count >= 2 ==> second == coordinate(done[1]),
        decreases n - i,
    {
        let ghost rest = s.skip(i as int);
        if is_whitespace(line.get_char(i)) {
            assert(rest.drop_first() =~= s.skip(i + 1));
            i += 1;
        } else {
            let end = word_end(line, n, i);
            let ghost w = s.subrange(i as int, end as int);
            assert(rest.take(word_len(rest) as int) =~= w);
            assert(rest.skip(word_len(rest) as int) =~= s.skip(end as int));
            assert(words(s) =~= done.push(w) + words(s.skip(end as int)));
            if count == 2 {
                return Err(MoveError::MalformedInput);
            }
            let v = coordinate_of(line, n, i, end);
            if count == 0 {
                first = v;
            } else {
                second = v;
            }
            proof {
                done = done.push(w);
            }
            count += 1;
            i = end;
        }
    }
    assert(words(s) =~= done);
    match (first, second) {
        (Some(row), Some(col)) if count == 2 => Ok((row, col)),
        _ => Err(MoveError::MalformedInput),
    }
}

} // verus!
