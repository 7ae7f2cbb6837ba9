use vstd::prelude::*;

verus! {

/// One dot-delimited token of a version string.
#[derive(Debug, Clone, PartialEq, Eq)]
pub enum VersionPart {
    /// A token that reads as a signed 32-bit decimal integer.
    Number(i32),
    /// Any other token, kept as it was written.
    Text(String),
}

/// The smallest value of a number part.
pub open spec fn min_number() -> int {
    i32::MIN as int
}

/// The largest value of a number part.
pub open spec fn max_number() -> int {
    i32::MAX as int
}

pub open spec fn is_digit(c: char) -> bool {
    '0' <= c && c <= '9'
}

pub open spec fn digit_value(c: char) -> int {
    (c as u32) as int - ('0' as u32) as int
}

/// A non-empty sequence of decimal digits.
pub open spec fn all_digits(d: Seq<char>) -> bool {
    d.len() > 0 && forall|k: int| 0 <= k < d.len() ==> is_digit(#[trigger] d[k])
}

/// The value of a sequence of decimal digits, most significant first.
pub open spec fn digits_value(d: Seq<char>) -> int
    decreases d.len(),
{
    if d.len() == 0 {
        0
    } else {
        10 * digits_value(d.drop_last()) + digit_value(d.last())
    }
}

/// The integer that `t` writes in base 10, with an optional leading minus, if it writes one.
pub open spec fn decimal_value(t: Seq<char>) -> Option<int> {
    if t.len() > 0 && t[0] == '-' {
        if all_digits(t.drop_first()) {
            Some(-digits_value(t.drop_first()))
        } else {
            None
        }
    } else if all_digits(t) {
        Some(digits_value(t))
    } else {
        None
    }
}

/// The value of `t` as a number part: its decimal value, where that fits in an `i32`.
pub open spec fn number_value(t: Seq<char>) -> Option<int> {
    match decimal_value(t) {
        Some(v) => if min_number() <= v <= max_number() {
            Some(v)
        } else {
            None
        },
        None => None,
    }
}

/// `p` is the classification of the token `t`: a number where `t` reads as one, else text.
pub open spec fn classifies(p: VersionPart, t: Seq<char>) -> bool {
    match p {
        VersionPart::Number(n) => number_value(t) == Some(n as int),
        VersionPart::Text(s) => number_value(t) is None && s@ == t,
    }
}

proof fn lemma_digits_value_nonneg(d: Seq<char>)
    requires
        forall|k: int| 0 <= k < d.len() ==> is_digit(#[trigger] d[k]),
    ensures
        digits_value(d) >= 0,
    decreases d.len(),
{
    if d.len() > 0 {
        lemma_digits_value_nonneg(d.drop_last());
    }
}

/// Appending digits never makes the value smaller.
proof fn lemma_digits_value_prefix(d: Seq<char>, k: int)
    requires
        0 <= k <= d.len(),
        forall|i: int| 0 <= i < d.len() ==> is_digit(#[trigger] d[i]),
    ensures
        digits_value(d.take(k)) <= digits_value(d),
    decreases d.len(),
{
    if k < d.len() {
        assert(d.take(k) =~= d.drop_last().take(k));
        lemma_digits_value_prefix(d.drop_last(), k);
        lemma_digits_value_nonneg(d.drop_last());
    } else {
        assert(d.take(k) =~= d);
    }
}

/// Reads `t` as a signed 32-bit decimal integer: an optional leading minus and at least
/// one digit, nothing else, and a value in range.
pub fn parse_number(t: &str) -> (r: Option<i32>)
    ensures
        match r {
            Some(n) => number_value(t@) == Some(n as int),
            None => number_value(t@) is None,
        },
{
    let len = t.unicode_len();
    let negative = len > 0 && t.get_char(0) == '-';
    let start: usize = if negative { 1 } else { 0 };
    let ghost digits = t@.subrange(start as int, len as int);
    proof {
        if negative {
            assert(digits =~= t@.drop_first());
        } else {
            assert(digits =~= t@);
        }
    }
    if start == len {
        return None;
    }
    let mut acc: i64 = 0;
    let mut i: usize = start;
    while i < len
        invariant
            start <= i <= len,
            len == t@.len(),
            digits == t@.subrange(start as int, len as int),
            negative == (t@.len() > 0 && t@[0] == '-'),
            negative ==> start == 1 && digits == t@.drop_first(),
            !negative ==> start == 0 && digits == t@,
            forall|k: int| 0 <= k < i - start ==> is_digit(#[trigger] digits[k]),
            acc as int == digits_value(digits.take(i - start)),
            0 <= acc <= 2147483648,
        decreases len - i,
    {
        let c = t.get_char(i);
        if !('0' <= c && c <= '9') {
            assert(!is_digit(digits[i - start]));
            return None;
        }
        proof {
            assert(digits.take(i + 1 - start).drop_last() =~= digits.take(i - start));
            assert(digits.take(i + 1 - start).last() == c);
        }
        acc = acc * 10 + (c as u32 - '0' as u32) as i64;
        i = i + 1;
        if acc > 2147483648 {
            proof {
                if all_digits(digits) {
                    lemma_digits_value_prefix(digits, i - start);
                }
            }
            return None;
        }
    }
    proof {
        assert(digits.take(len - start) =~= digits);
    }
    if negative {
        Some((-acc) as i32)
    } else if acc <= 2147483647 {
        Some(acc as i32)
    } else {
        None
    }
}

/// Classifies one token: a number part where it reads as one, a text part otherwise.
pub fn classify(t: &str) -> (r: VersionPart)
    ensures
        classifies(r, t@),
{
    match parse_number(t) {
        Some(n) => VersionPart::Number(n),
        None => VersionPart::Text(t.to_string()),
    }
}

} // verus!
