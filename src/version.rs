use vstd::prelude::*;

use crate::comp_op::{admits, is_outcome, lemma_admits_invert, spec_flip, spec_invert, CompOp};
use crate::version_part::{classifies, classify, number_value, VersionPart};

verus! {

/// The pieces of `s` between dots, empty ones included, left to right.
pub open spec fn pieces(s: Seq<char>) -> Seq<Seq<char>>
    decreases s.len(),
{
    if s.len() == 0 {
        seq![Seq::empty()]
    } else {
        let init = pieces(s.drop_last());
        if s.last() == '.' {
            init.push(Seq::empty())
        } else {
            init.update(init.len() - 1, init.last().push(s.last()))
        }
    }
}

/// The tokens of a version string: its non-empty pieces between dots.
pub open spec fn tokens(s: Seq<char>) -> Seq<Seq<char>> {
    pieces(s).filter(|t: Seq<char>| t.len() > 0)
}

/// A version string is valid when it has no token at all, or at least one numeric token.
pub open spec fn is_valid_version(s: Seq<char>) -> bool {
    let toks = tokens(s);
    toks.len() == 0 || exists|k: int| 0 <= k < toks.len() && (#[trigger] number_value(toks[k])) is Some
}

/// `parts` classifies the tokens `toks` one by one, in order.
pub open spec fn parts_of(parts: Seq<VersionPart>, toks: Seq<Seq<char>>) -> bool {
    &&& parts.len() == toks.len()
    &&& forall|k: int| 0 <= k < parts.len() ==> classifies(#[trigger] parts[k], toks[k])
}

/// The values of the number parts, in order; text parts are left out.
pub open spec fn numbers(parts: Seq<VersionPart>) -> Seq<int>
    decreases parts.len(),
{
    if parts.len() == 0 {
        Seq::empty()
    } else {
        match parts[0] {
            VersionPart::Number(n) => seq![n as int] + numbers(parts.drop_first()),
            VersionPart::Text(_) => numbers(parts.drop_first()),
        }
    }
}

/// Compares two sequences of numbers position by position; the first position that
/// differs decides, else they are equal. Where one side has run out, a zero on the
/// other side is passed over, and any other number makes that side the greater.
pub open spec fn compare_numbers(a: Seq<int>, b: Seq<int>) -> CompOp
    decreases a.len() + b.len(),
{
    if a.len() == 0 && b.len() == 0 {
        CompOp::EQ
    } else if a.len() == 0 {
        if b[0] == 0 {
            compare_numbers(a, b.drop_first())
        } else {
            CompOp::LT
        }
    } else if b.len() == 0 {
        if a[0] == 0 {
            compare_numbers(a.drop_first(), b)
        } else {
            CompOp::GT
        }
    } else if a[0] < b[0] {
        CompOp::LT
    } else if a[0] > b[0] {
        CompOp::GT
    } else {
        compare_numbers(a.drop_first(), b.drop_first())
    }
}

proof fn lemma_pieces_nonempty(s: Seq<char>)
    ensures
        pieces(s).len() >= 1,
    decreases s.len(),
{
    if s.len() > 0 {
        lemma_pieces_nonempty(s.drop_last());
    }
}

proof fn lemma_filter_push(ps: Seq<Seq<char>>, t: Seq<char>)
    ensures
        ps.push(t).filter(|t: Seq<char>| t.len() > 0) == if t.len() > 0 {
            ps.filter(|t: Seq<char>| t.len() > 0).push(t)
        } else {
            ps.filter(|t: Seq<char>| t.len() > 0)
        },
{
    reveal(Seq::filter);
    assert(ps.push(t).drop_last() =~= ps);
}

proof fn lemma_numbers_skip(parts: Seq<VersionPart>, i: int)
    requires
        0 <= i <= parts.len(),
    ensures
        i == parts.len() ==> numbers(parts.skip(i)) == Seq::<int>::empty(),
        i < parts.len() ==> numbers(parts.skip(i)) == match parts[i] {
            VersionPart::Number(n) => seq![n as int] + numbers(parts.skip(i + 1)),
            VersionPart::Text(_) => numbers(parts.skip(i + 1)),
        },
{
    if i < parts.len() {
        assert(parts.skip(i).drop_first() =~= parts.skip(i + 1));
    }
}

/// Swapping the operands of a comparison flips its outcome.
pub proof fn lemma_compare_numbers_swap(a: Seq<int>, b: Seq<int>)
    ensures
        compare_numbers(a, b) == spec_flip(compare_numbers(b, a)),
        is_outcome(compare_numbers(a, b)),
    decreases a.len() + b.len(),
{
    if a.len() == 0 && b.len() == 0 {
    } else if a.len() == 0 {
        if b[0] == 0 {
            lemma_compare_numbers_swap(a, b.drop_first());
        }
    } else if b.len() == 0 {
        if a[0] == 0 {
            lemma_compare_numbers_swap(a.drop_first(), b);
        }
    } else if a[0] == b[0] {
        lemma_compare_numbers_swap(a.drop_first(), b.drop_first());
    }
}

/// A sequence of numbers compares equal to itself.
pub proof fn lemma_compare_numbers_same(a: Seq<int>)
    ensures
        compare_numbers(a, a) == CompOp::EQ,
    decreases a.len(),
{
    if a.len() > 0 {
        lemma_compare_numbers_same(a.drop_first());
    }
}

/// Every number in `a` is zero or more.
pub open spec fn all_nonneg(a: Seq<int>) -> bool {
    forall|k: int| 0 <= k < a.len() ==> #[trigger] a[k] >= 0
}

/// The first number of `a`, or zero where `a` is empty.
pub open spec fn head_or_zero(a: Seq<int>) -> int {
    if a.len() == 0 {
        0
    } else {
        a[0]
    }
}

/// `a` without its first number, or `a` itself where it is empty.
pub open spec fn rest(a: Seq<int>) -> Seq<int> {
    if a.len() == 0 {
        a
    } else {
        a.drop_first()
    }
}

/// Without negative numbers, a missing number behaves exactly as a zero.
proof fn lemma_compare_numbers_padded(a: Seq<int>, b: Seq<int>)
    requires
        all_nonneg(a),
        all_nonneg(b),
    ensures
        compare_numbers(a, b) == if a.len() == 0 && b.len() == 0 {
            CompOp::EQ
        } else if head_or_zero(a) < head_or_zero(b) {
            CompOp::LT
        } else if head_or_zero(a) > head_or_zero(b) {
            CompOp::GT
        } else {
            compare_numbers(rest(a), rest(b))
        },
{
    if a.len() > 0 {
        assert(a[0] >= 0);
    }
    if b.len() > 0 {
        assert(b[0] >= 0);
    }
}

/// Without negative numbers, comparison is transitive: "not greater" and "less"
/// chain, and so does "equal".
pub proof fn lemma_compare_numbers_transitive(a: Seq<int>, b: Seq<int>, c: Seq<int>)
    requires
        all_nonneg(a),
        all_nonneg(b),
        all_nonneg(c),
    ensures
        compare_numbers(a, b) != CompOp::GT && compare_numbers(b, c) != CompOp::GT
            ==> compare_numbers(a, c) != CompOp::GT,
        compare_numbers(a, b) == CompOp::EQ && compare_numbers(b, c) == CompOp::EQ
            ==> compare_numbers(a, c) == CompOp::EQ,
        compare_numbers(a, b) == CompOp::LT && compare_numbers(b, c) != CompOp::GT
            ==> compare_numbers(a, c) == CompOp::LT,
        compare_numbers(a, b) != CompOp::GT && compare_numbers(b, c) == CompOp::LT
            ==> compare_numbers(a, c) == CompOp::LT,
    decreases a.len() + b.len() + c.len(),
{
    lemma_compare_numbers_padded(a, b);
    lemma_compare_numbers_padded(b, c);
    lemma_compare_numbers_padded(a, c);
    lemma_compare_numbers_swap(a, b);
    lemma_compare_numbers_swap(b, c);
    lemma_compare_numbers_swap(a, c);
    if a.len() > 0 || b.len() > 0 || c.len() > 0 {
        assert(all_nonneg(rest(a)));
        assert(all_nonneg(rest(b)));
        assert(all_nonneg(rest(c)));
        lemma_compare_numbers_transitive(rest(a), rest(b), rest(c));
    }
}

/// Why a string is not a version.
#[derive(Debug, Clone, Copy, PartialEq, Eq, Structural)]
pub enum ParseFailure {
    /// The string has tokens, but none of them is a number.
    NoNumericSegment,
}

/// A version: the string it was read from, and the parts of that string.
pub struct Version {
    version: String,
    parts: Vec<VersionPart>,
}

impl Version {
    /// The string the version was read from.
    pub closed spec fn spec_raw(&self) -> Seq<char> {
        self.version@
    }

    /// The parts of the version, left to right.
    pub closed spec fn spec_parts(&self) -> Seq<VersionPart> {
        self.parts@
    }

    /// The parts are the classified tokens of a valid version string.
    pub open spec fn wf(&self) -> bool {
        is_valid_version(self.spec_raw()) && parts_of(self.spec_parts(), tokens(self.spec_raw()))
    }

    /// `self` is what reading the string `s` gives.
    pub open spec fn parsed_from(&self, s: Seq<char>) -> bool {
        self.spec_raw() == s && self.wf()
    }

    /// The raw outcome of comparing `self` with `other`.
    pub open spec fn spec_compare(&self, other: &Version) -> CompOp {
        compare_numbers(numbers(self.spec_parts()), numbers(other.spec_parts()))
    }

    /// Reads a version from a string, or says why it is not one.
    pub fn parse(version: &str) -> (r: Result<Version, ParseFailure>)
        ensures
            match r {
                Ok(v) => v.parsed_from(version@),
                Err(e) => e == ParseFailure::NoNumericSegment && !is_valid_version(version@),
            },
    {
        match Self::split_version_str(version) {
            Some(parts) => Ok(Version { version: version.to_string(), parts }),
            None => Err(ParseFailure::NoNumericSegment),
        }
    }

    /// Creates a `Version` from a version string; `None` where it is not one.
    pub fn from(version: &str) -> (r: Option<Version>)
        ensures
            match r {
                Some(v) => v.parsed_from(version@),
                None => !is_valid_version(version@),
            },
    {
        match Self::parse(version) {
            Ok(v) => Some(v),
            Err(_) => None,
        }
    }

    /// Splits `version` on dots and classifies each non-empty token; `None` where tokens
    /// exist but none of them is a number.
    fn split_version_str(version: &str) -> (r: Option<Vec<VersionPart>>)
        ensures
            match r {
                Some(parts) => is_valid_version(version@) && parts_of(parts@, tokens(version@)),
                None => !is_valid_version(version@),
            },
    {
        let len = version.unicode_len();
        let mut parts: Vec<VersionPart> = Vec::new();
        let mut has_number = false;
        let mut start: usize = 0;
        let mut i: usize = 0;
        let ghost mut done: Seq<Seq<char>> = Seq::empty();
        let ghost s = version@;
        proof {
            assert(s.take(0) =~= Seq::<char>::empty());
            reveal(Seq::filter);
        }
        while i < len
            invariant
                len == s.len(),
                s == version@,
                start <= i <= len,
                pieces(s.take(i as int)) == done.push(s.subrange(start as int, i as int)),
                parts_of(parts@, done.filter(|t: Seq<char>| t.len() > 0)),
                has_number == exists|k: int| 0 <= k < parts@.len() && (#[trigger] parts@[k]) is Number,
            decreases len - i,
        {
            let c = version.get_char(i);
            let ghost cur = s.subrange(start as int, i as int);
            proof {
                assert(s.take(i + 1).drop_last() =~= s.take(i as int));
                assert(s.take(i + 1).last() == c);
                lemma_pieces_nonempty(s.take(i as int));
                lemma_filter_push(done, cur);
            }
            if c == '.' {
                if i > start {
                    let part = classify(version.substring_char(start, i));
                    let ghost old_parts = parts@;
                    let is_number = matches!(part, VersionPart::Number(_));
                    parts.push(part);
                    has_number = has_number || is_number;
                    proof {
                        assert forall|k: int| 0 <= k < old_parts.len() implies
                            parts@[k] == #[trigger] old_parts[k] by {}
                        if has_number && !is_number {
                            let k = choose|k: int| 0 <= k < old_parts.len() && (#[trigger] old_parts[k]) is Number;
                            assert(parts@[k] is Number);
                        }
                        if is_number {
                            assert(parts@[old_parts.len() as int] is Number);
                        }
                    }
                }
                proof {
                    assert(s.subrange(i + 1, i + 1) =~= Seq::<char>::empty());
                    assert(done.push(cur).push(s.subrange(i + 1, i + 1)) =~= done.push(cur).push(Seq::empty()));
                    done = done.push(cur);
                }
                start = i + 1;
            } else {
                proof {
                    assert(cur.push(c) =~= s.subrange(start as int, i + 1));
                    assert(done.push(cur).update(done.len() as int, cur.push(c)) =~= done.push(s.subrange(start as int, i + 1)));
                }
            }
            i = i + 1;
        }
        let ghost cur = s.subrange(start as int, len as int);
        proof {
            assert(s.take(len as int) =~= s);
            lemma_filter_push(done, cur);
        }
        if len > start {
            let part = classify(version.substring_char(start, len));
            let ghost old_parts = parts@;
            let is_number = matches!(part, VersionPart::Number(_));
            parts.push(part);
            has_number = has_number || is_number;
            proof {
                assert forall|k: int| 0 <= k < old_parts.len() implies
                    parts@[k] == #[trigger] old_parts[k] by {}
                if has_number && !is_number {
                    let k = choose|k: int| 0 <= k < old_parts.len() && (#[trigger] old_parts[k]) is Number;
                    assert(parts@[k] is Number);
                }
                if is_number {
                    assert(parts@[old_parts.len() as int] is Number);
                }
            }
        }
        let ghost toks = tokens(s);
        if !has_number && parts.len() > 0 {
            proof {
                assert forall|k: int| 0 <= k < toks.len() implies !(#[trigger] number_value(toks[k]) is Some) by {
                    assert(classifies(parts@[k], toks[k]));
                }
            }
            return None;
        }
        proof {
            if has_number {
                let k = choose|k: int| 0 <= k < parts@.len() && (#[trigger] parts@[k]) is Number;
                assert(classifies(parts@[k], toks[k]));
            }
        }
        Some(parts)
    }

    /// Get the original version string.
    pub fn as_str(&self) -> (r: &str)
        ensures
            r@ == self.spec_raw(),
    {
        self.version.as_str()
    }

    /// Get the part at `index`; an error where the index is out of bounds.
    pub fn part(&self, index: usize) -> (r: Result<&VersionPart, ()>)
        ensures
            match r {
                Ok(p) => index < self.spec_parts().len() && *p == self.spec_parts()[index as int],
                Err(_) => index >= self.spec_parts().len(),
            },
    {
        if index >= self.parts.len() {
            return Err(());
        }
        Ok(&self.parts[index])
    }

    /// Get all parts, left to right.
    pub fn parts(&self) -> (r: &Vec<VersionPart>)
        ensures
            r@ == self.spec_parts(),
    {
        &self.parts
    }

    /// Get the number of parts.
    pub fn part_count(&self) -> (r: usize)
        ensures
            r == self.spec_parts().len(),
    {
        self.parts.len()
    }

    /// Compare this version to `other`: LT, EQ or GT.
    pub fn compare(&self, other: &Version) -> (r: CompOp)
        ensures
            r == self.spec_compare(other),
            is_outcome(r),
    {
        proof {
            assert(self.parts@.skip(0) =~= self.parts@);
            assert(other.parts@.skip(0) =~= other.parts@);
            lemma_compare_numbers_swap(numbers(self.parts@), numbers(other.parts@));
        }
        Self::compare_iter(&self.parts, 0, &other.parts, 0)
    }

    /// Compare this version to `other`, and tell whether `operator` holds between them.
    pub fn compare_to(&self, other: &Version, operator: &CompOp) -> (r: bool)
        ensures
            r == admits(self.spec_compare(other), *operator),
            is_outcome(self.spec_compare(other)),
    {
        let result = self.compare(other);
        match result {
            CompOp::EQ => match operator {
                CompOp::EQ | CompOp::LE | CompOp::GE => true,
                _ => false,
            },
            CompOp::LT => match operator {
                CompOp::NE | CompOp::LT | CompOp::LE => true,
                _ => false,
            },
            CompOp::GT => match operator {
                CompOp::NE | CompOp::GT | CompOp::GE => true,
                _ => false,
            },
            // Not reached: `compare` gives LT, EQ or GT.
            _ => {
                proof {
                    assert(is_outcome(result));
                }
                false
            },
        }
    }

    /// Compares the number parts of `a` from `i0` on with those of `b` from `j0` on,
    /// skipping text parts on both sides.
    fn compare_iter(a: &Vec<VersionPart>, i0: usize, b: &Vec<VersionPart>, j0: usize) -> (r: CompOp)
        requires
            i0 <= a@.len(),
            j0 <= b@.len(),
        ensures
            r == compare_numbers(numbers(a@.skip(i0 as int)), numbers(b@.skip(j0 as int))),
        decreases a@.len() - i0 + b@.len() - j0, if j0 < b@.len() { 1int } else { 0int },
    {
        let ghost goal = compare_numbers(numbers(a@.skip(i0 as int)), numbers(b@.skip(j0 as int)));
        let mut i: usize = i0;
        let mut j: usize = j0;
        while i < a.len()
            invariant
                i0 <= i <= a@.len(),
                j0 <= j <= b@.len(),
                goal == compare_numbers(numbers(a@.skip(i0 as int)), numbers(b@.skip(j0 as int))),
                goal == compare_numbers(numbers(a@.skip(i as int)), numbers(b@.skip(j as int))),
            decreases a@.len() - i,
        {
            proof {
                lemma_numbers_skip(a@, i as int);
            }
            let p = match &a[i] {
                VersionPart::Number(n) => *n,
                VersionPart::Text(_) => {
                    i = i + 1;
                    continue;
                },
            };
            i = i + 1;

            // The next number part of the other version, if any.
            let ghost j_start = j;
            let mut other: Option<i32> = None;
            while j < b.len() && other.is_none()
                invariant
                    j_start <= j <= b@.len(),
                    other is None ==> numbers(b@.skip(j_start as int)) == numbers(b@.skip(j as int)),
                    other matches Some(s) ==> numbers(b@.skip(j_start as int)) == seq![s as int] + numbers(b@.skip(j as int)),
                decreases b@.len() - j,
            {
                proof {
                    lemma_numbers_skip(b@, j as int);
                }
                match &b[j] {
                    VersionPart::Number(n) => {
                        other = Some(*n);
                    },
                    VersionPart::Text(_) => {},
                }
                j = j + 1;
            }
            proof {
                lemma_numbers_skip(b@, j as int);
                let x = numbers(a@.skip(i as int));
                let y = numbers(b@.skip(j as int));
                let xs = seq![p as int] + x;
                assert(xs.drop_first() =~= x);
                assert(xs[0] == p as int);
                if let Some(s) = other {
                    let ys = seq![s as int] + y;
                    assert(ys.drop_first() =~= y);
                    assert(ys[0] == s as int);
                }
            }
            match other {
                None => {
                    if p != 0 {
                        return CompOp::GT;
                    }
                },
                Some(s) => {
                    if p < s {
                        return CompOp::LT;
                    } else if p > s {
                        return CompOp::GT;
                    }
                },
            }
        }
        proof {
            lemma_numbers_skip(a@, i as int);
            lemma_numbers_skip(b@, j as int);
        }
        if j < b.len() {
            proof {
                lemma_compare_numbers_swap(numbers(b@.skip(j as int)), numbers(a@.skip(i as int)));
            }
            Self::compare_iter(b, j, a, i).flip()
        } else {
            CompOp::EQ
        }
    }
}

/// Reading a valid version string keeps the string exactly as it was given.
pub proof fn lemma_raw_round_trip(s: Seq<char>, v: Version)
    requires
        v.parsed_from(s),
    ensures
        v.spec_raw() == s,
{
}

/// `a` is greater than `b` exactly when `b` is less than `a`, and equal exactly when
/// `b` is equal to `a`.
pub proof fn lemma_compare_antisymmetric(a: Version, b: Version)
    ensures
        (a.spec_compare(&b) == CompOp::GT) == (b.spec_compare(&a) == CompOp::LT),
        (a.spec_compare(&b) == CompOp::EQ) == (b.spec_compare(&a) == CompOp::EQ),
{
    lemma_compare_numbers_swap(numbers(a.spec_parts()), numbers(b.spec_parts()));
}

/// Every version is equal to itself.
pub proof fn lemma_compare_reflexive(a: Version)
    ensures
        a.spec_compare(&a) == CompOp::EQ,
{
    lemma_compare_numbers_same(numbers(a.spec_parts()));
}

/// Of an operator and its inverse, exactly one holds between two versions.
pub proof fn lemma_compare_to_invert(a: Version, b: Version, op: CompOp)
    ensures
        admits(a.spec_compare(&b), spec_invert(op)) == !admits(a.spec_compare(&b), op),
{
    lemma_compare_numbers_swap(numbers(a.spec_parts()), numbers(b.spec_parts()));
    lemma_admits_invert(a.spec_compare(&b), op);
}

/// Among versions without negative numbers, comparison is transitive: "not greater"
/// and "less" chain, and so does "equal".
pub proof fn lemma_compare_transitive(a: Version, b: Version, c: Version)
    requires
        all_nonneg(numbers(a.spec_parts())),
        all_nonneg(numbers(b.spec_parts())),
        all_nonneg(numbers(c.spec_parts())),
    ensures
        a.spec_compare(&b) != CompOp::GT && b.spec_compare(&c) != CompOp::GT
            ==> a.spec_compare(&c) != CompOp::GT,
        a.spec_compare(&b) == CompOp::EQ && b.spec_compare(&c) == CompOp::EQ
            ==> a.spec_compare(&c) == CompOp::EQ,
        a.spec_compare(&b) == CompOp::LT && b.spec_compare(&c) != CompOp::GT
            ==> a.spec_compare(&c) == CompOp::LT,
        a.spec_compare(&b) != CompOp::GT && b.spec_compare(&c) == CompOp::LT
            ==> a.spec_compare(&c) == CompOp::LT,
{
    lemma_compare_numbers_transitive(
        numbers(a.spec_parts()),
        numbers(b.spec_parts()),
        numbers(c.spec_parts()),
    );
}

} // verus!
