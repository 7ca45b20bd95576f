//! Character-level helpers: decimal numbers and ASCII case folding.

use vstd::prelude::*;
use vstd::utf8::{valid_utf8, decode_utf8};

verus! {

/// `c` is one of the ASCII digits `0` to `9`.
pub open spec fn is_digit(c: char) -> bool {
    '0' <= c && c <= '9'
}

/// The number that a run of decimal digits spells, most significant first.
pub open spec fn digits_value(d: Seq<char>) -> int
    decreases d.len(),
{
    if d.len() == 0 {
        0
    } else {
        digits_value(d.drop_last()) * 10 + (d.last() as int - '0' as int)
    }
}

/// The digits of an unsigned decimal number: a single leading `+` is
/// allowed and dropped.
pub open spec fn unsigned_digits(s: Seq<char>) -> Seq<char> {
    if s.len() > 0 && s[0] == '+' {
        s.drop_first()
    } else {
        s
    }
}

/// How an unsigned integer type whose largest value is `max` reads `s` as a
/// decimal number: an optional `+`, then one or more ASCII digits whose value
/// is at most `max`. Anything else (an empty string, a `-`, whitespace, any
/// other character, a value above `max`) is not a number.
pub open spec fn parse_unsigned(s: Seq<char>, max: int) -> Option<int> {
    let d = unsigned_digits(s);
    if d.len() > 0 && (forall|i: int| 0 <= i < d.len() ==> is_digit(#[trigger] d[i]))
        && digits_value(d) <= max {
        Some(digits_value(d))
    } else {
        None
    }
}

proof fn lemma_digits_value_nonneg(d: Seq<char>)
    requires
        forall|i: int| 0 <= i < d.len() ==> is_digit(#[trigger] d[i]),
    ensures
        digits_value(d) >= 0,
    decreases d.len(),
{
    if d.len() > 0 {
        let p = d.drop_last();
        assert(is_digit(d[d.len() - 1]));
        assert forall|i: int| 0 <= i < p.len() implies is_digit(#[trigger] p[i]) by {
            assert(p[i] == d[i]);
        }
        lemma_digits_value_nonneg(p);
    }
}

/// A number that is read lies between 0 and the largest value allowed.
pub proof fn lemma_parse_unsigned_range(s: Seq<char>, max: int)
    ensures
        parse_unsigned(s, max) matches Some(v) ==> 0 <= v <= max,
{
    let d = unsigned_digits(s);
    if parse_unsigned(s, max) is Some {
        lemma_digits_value_nonneg(d);
    }
}

/// What reading a number accepts: a result lies between 0 and `max` and
/// comes from a non-empty string of ASCII digits, possibly after one `+`; a
/// string that starts with `-` is never a number; a string of digits whose
/// value is at most `max` always is. Each further digit multiplies the value
/// so far by ten and adds itself.
pub proof fn lemma_parse_unsigned_shape(s: Seq<char>, max: int, c: char)
    ensures
        parse_unsigned(s, max) matches Some(v) ==> 0 <= v <= max && s.len() > 0 && forall|i: int|
            0 <= i < s.len() ==> is_digit(#[trigger] s[i]) || (i == 0 && s[i] == '+' && s.len()
                > 1),
        s.len() > 0 && s[0] == '-' ==> parse_unsigned(s, max) is None,
        s.len() > 0 && (forall|i: int| 0 <= i < s.len() ==> is_digit(#[trigger] s[i])) && digits_value(s)
            <= max ==> parse_unsigned(s, max) == Some(digits_value(s)),
        digits_value(s.push(c)) == digits_value(s) * 10 + (c as int - '0' as int),
{
    lemma_parse_unsigned_range(s, max);
    let d = unsigned_digits(s);
    if parse_unsigned(s, max) is Some {
        assert forall|i: int| 0 <= i < s.len() implies is_digit(#[trigger] s[i]) || (i == 0 && s[i]
            == '+' && s.len() > 1) by {
            if s[0] == '+' {
                if i > 0 {
                    assert(s[i] == d[i - 1]);
                }
            } else {
                assert(s[i] == d[i]);
            }
        }
    }
    if s.len() > 0 && s[0] == '-' {
        assert(d == s);
        assert(!is_digit(d[0]));
    }
    if s.len() > 0 && (forall|i: int| 0 <= i < s.len() ==> is_digit(#[trigger] s[i])) {
        assert(is_digit(s[0]));
        assert(d == s);
    }
    assert(s.push(c).drop_last() =~= s);
}

/// Reads `s` as an unsigned decimal number no larger than `max`, as the
/// standard library's `from_str` does for an unsigned type whose largest
/// value is `max`.
pub fn parse_decimal(s: &str, max: u64) -> (result: Option<u64>)
    ensures
        match result {
            Some(v) => parse_unsigned(s@, max as int) == Some(v as int),
            None => parse_unsigned(s@, max as int) is None,
        },
{
    let len = s.unicode_len();
    let first: usize = if len > 0 && s.get_char(0) == '+' {
        1
    } else {
        0
    };
    let ghost d = unsigned_digits(s@);
    assert(d =~= s@.subrange(first as int, len as int));
    if first >= len {
        assert(d.len() == 0);
        return None;
    }
    let mut value: u64 = 0;
    let mut overflow = false;
    let mut j: usize = first;
    while j < len
        invariant
            first <= j <= len,
            len == s@.len(),
            first < len,
            d =~= s@.subrange(first as int, len as int),
            d == unsigned_digits(s@),
            forall|i: int| 0 <= i < j - first ==> is_digit(#[trigger] d[i]),
            !overflow ==> value as int == digits_value(d.subrange(0, j - first)),
            !overflow ==> value <= max,
            overflow ==> digits_value(d.subrange(0, j - first)) > max,
        decreases len - j,
    {
        let c = s.get_char(j);
        if c < '0' || c > '9' {
            assert(!is_digit(d[j - first]));
            return None;
        }
        let ghost p = d.subrange(0, j + 1 - first);
        assert(p.drop_last() =~= d.subrange(0, j - first));
        assert(p.last() == c);
        let dig: u64 = (c as u32 - '0' as u32) as u64;
        assert(dig as int == c as int - '0' as int);
        if !overflow {
            let next: u128 = value as u128 * 10 + dig as u128;
            if next > max as u128 {
                overflow = true;
            } else {
                value = next as u64;
            }
        }
        j = j + 1;
    }
    assert(d.subrange(0, j - first) =~= d);
    if overflow {
        None
    } else {
        Some(value)
    }
}

/// The code point of `c` once an ASCII upper-case letter is mapped to lower
/// case.
pub open spec fn ascii_lower(c: char) -> u32 {
    if 'A' <= c && c <= 'Z' {
        (c as u32 + 32) as u32
    } else {
        c as u32
    }
}

/// Computes [`ascii_lower`].
pub fn ascii_lower_code(c: char) -> (code: u32)
    ensures
        code == ascii_lower(c),
{
    if 'A' <= c && c <= 'Z' {
        c as u32 + 32
    } else {
        c as u32
    }
}

/// `a` and `b` are equal once ASCII letters are folded to lower case.
pub open spec fn eq_ignore_ascii_case(a: Seq<char>, b: Seq<char>) -> bool {
    a.len() == b.len() && forall|i: int| 0 <= i < a.len() ==> ascii_lower(#[trigger] a[i]) == ascii_lower(b[i])
}

/// The text that `String::from_utf8_lossy` makes of `bytes`: the bytes
/// decoded as UTF-8, with each invalid sequence replaced by U+FFFD.
pub uninterp spec fn lossy_text(bytes: Seq<u8>) -> Seq<char>;

/// Calls `String::from_utf8_lossy` and takes the text as an owned `String`.
/// Trusted: the result is [`lossy_text`] of the bytes; valid UTF-8 is
/// decoded as it is, and so is any valid UTF-8 prefix of the bytes, whose
/// text starts the result. How invalid sequences are replaced is not stated.
#[verifier::external_body]
pub(crate) fn from_utf8_lossy(bytes: &[u8]) -> (text: String)
    ensures
        text@ == lossy_text(bytes@),
        valid_utf8(bytes@) ==> text@ == decode_utf8(bytes@),
        forall|i: int|
            0 <= i <= bytes@.len() && #[trigger] valid_utf8(bytes@.take(i)) ==> decode_utf8(
                bytes@.take(i),
            ).is_prefix_of(text@),
{
    String::from_utf8_lossy(bytes).into_owned()
}

} // verus!
