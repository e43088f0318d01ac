//! Parsing of range arguments: the textual form `A..B` that the
//! command-line surface hands in for depth, child-count and length
//! bounds.  The split happens at the first `..`; each side must be a
//! plain decimal number that fits the target type.

use vstd::prelude::*;

use crate::random::{U64Range, UsizeRange};

verus! {

/// Why a range argument was rejected.
#[derive(Clone, Copy, Debug, PartialEq, Eq, Structural)]
pub enum RangeParseError {
    /// The text holds no `..` separator.
    NotARange,
    /// What stands before the separator is not a number that fits.
    InvalidStart,
    /// What stands after the separator is not a number that fits.
    InvalidEnd,
}

/// Returns `true` when `b` is an ASCII decimal digit.
pub open spec fn is_digit(b: u8) -> bool {
    48 <= b <= 57
}

/// The number a string of digits denotes, most significant first.
pub open spec fn digits_val(s: Seq<u8>) -> nat
    decreases s.len(),
{
    if s.len() == 0 {
        0
    } else {
        (digits_val(s.drop_last()) * 10 + (s.last() - 48)) as nat
    }
}

/// Whether a byte string is a plain decimal number: nonempty, digits
/// only.
pub open spec fn is_dec(s: Seq<u8>) -> bool {
    s.len() > 0 && forall|i: int| 0 <= i < s.len() ==> is_digit(#[trigger] s[i])
}

/// Whether the two-byte range separator stands at position `i`.
pub open spec fn is_sep_at(s: Seq<u8>, i: int) -> bool {
    0 <= i && i + 2 <= s.len() && s[i] == 46 && s[i + 1] == 46
}

/// Whether no separator stands before position `i`.
pub open spec fn no_sep_before(s: Seq<u8>, i: int) -> bool {
    forall|j: int| 0 <= j < i ==> !is_sep_at(s, j)
}

/// What parsing answers once the text is split at the first separator,
/// standing at `i`: the two sides as a `u64` range, or the first error.
pub open spec fn spec_split_parse_u64(s: Seq<u8>, i: int) -> Result<U64Range, RangeParseError> {
    let a = s.take(i);
    let b = s.skip(i + 2);
    if !(is_dec(a) && digits_val(a) <= u64::MAX) {
        Err(RangeParseError::InvalidStart)
    } else if !(is_dec(b) && digits_val(b) <= u64::MAX) {
        Err(RangeParseError::InvalidEnd)
    } else {
        Ok(U64Range { start: digits_val(a) as u64, end: digits_val(b) as u64 })
    }
}

/// What parsing answers for a `usize` range.
pub open spec fn spec_split_parse_usize(s: Seq<u8>, i: int) -> Result<UsizeRange, RangeParseError> {
    let a = s.take(i);
    let b = s.skip(i + 2);
    if !(is_dec(a) && digits_val(a) <= usize::MAX) {
        Err(RangeParseError::InvalidStart)
    } else if !(is_dec(b) && digits_val(b) <= usize::MAX) {
        Err(RangeParseError::InvalidEnd)
    } else {
        Ok(UsizeRange { start: digits_val(a) as usize, end: digits_val(b) as usize })
    }
}

/// Among digits, a longer run never denotes a smaller number.
proof fn lemma_digits_prefix_le(s: Seq<u8>, i: int)
    requires
        0 <= i <= s.len(),
        forall|j: int| i <= j < s.len() ==> is_digit(#[trigger] s[j]),
    ensures
        digits_val(s) >= digits_val(s.take(i)),
    decreases s.len() - i,
{
    if i < s.len() {
        assert(s.take(i + 1).drop_last() =~= s.take(i));
        assert(s.take(i + 1).last() == s[i]);
        lemma_digits_prefix_le(s, i + 1);
        assert(digits_val(s.take(i + 1)) == digits_val(s.take(i)) * 10 + (s[i] - 48));
        assert(digits_val(s.take(i)) * 10 >= digits_val(s.take(i))) by (nonlinear_arith);
    } else {
        assert(s.take(s.len() as int) =~= s);
    }
}

/// Parses a plain decimal number.  Answers the denoted value exactly
/// when the text is nonempty, all digits, and the value fits a `u64`.
fn parse_u64(s: &[u8]) -> (r: Option<u64>)
    ensures
        r is Some <==> is_dec(s@) && digits_val(s@) <= u64::MAX,
        match r {
            Some(v) => v == digits_val(s@),
            None => true,
        },
{
    if s.len() == 0 {
        return None;
    }
    let mut acc: u64 = 0;
    let mut i: usize = 0;
    while i < s.len()
        invariant
            i <= s@.len(),
            forall|j: int| 0 <= j < i ==> is_digit(#[trigger] s@[j]),
            acc == digits_val(s@.take(i as int)),
        decreases s@.len() - i,
    {
        let b = s[i];
        if b < 48 || b > 57 {
            return None;
        }
        let d = (b - 48) as u64;
        proof {
            assert(s@.take(i as int + 1).drop_last() =~= s@.take(i as int));
            assert(s@.take(i as int + 1).last() == s@[i as int]);
        }
        if acc > (u64::MAX - d) / 10 {
            proof {
                assert(digits_val(s@.take(i as int + 1)) == acc * 10 + d);
                assert(acc * 10 + d > u64::MAX) by (nonlinear_arith)
                    requires
                        acc > (u64::MAX - d) / 10,
                        d <= 9,
                ;
                if is_dec(s@) {
                    lemma_digits_prefix_le(s@, i as int + 1);
                }
            }
            return None;
        }
        acc = acc * 10 + d;
        i = i + 1;
    }
    proof {
        assert(s@.take(s@.len() as int) =~= s@);
    }
    Some(acc)
}

/// Finds the first range separator, if the text holds one.
fn find_sep(s: &[u8]) -> (r: Option<usize>)
    ensures
        match r {
            Some(i) => is_sep_at(s@, i as int) && no_sep_before(s@, i as int),
            None => forall|i: int| !is_sep_at(s@, i),
        },
{
    if s.len() < 2 {
        return None;
    }
    let mut i: usize = 0;
    while i < s.len() - 1
        invariant
            2 <= s@.len(),
            i <= s@.len() - 1,
            no_sep_before(s@, i as int),
        decreases s@.len() - i,
    {
        if s[i] == 46 && s[i + 1] == 46 {
            return Some(i);
        }
        i = i + 1;
    }
    None
}

/// The first separator is the only one with nothing before it.
proof fn lemma_first_sep_unique(s: Seq<u8>, i: int, j: int)
    requires
        is_sep_at(s, i),
        no_sep_before(s, i),
        is_sep_at(s, j),
        no_sep_before(s, j),
    ensures
        i == j,
{
}

/// Parses the textual form `A..B` into a `u64` range, splitting at the
/// first separator; each side must be a plain decimal number that fits.
pub fn parse_range_64(s: &[u8]) -> (r: Result<U64Range, RangeParseError>)
    ensures
        (r matches Err(e) && e is NotARange) <==> (forall|i: int| !is_sep_at(s@, i)),
        forall|i: int|
            is_sep_at(s@, i) && no_sep_before(s@, i) ==> r == spec_split_parse_u64(s@, i),
{
    match find_sep(s) {
        None => Err(RangeParseError::NotARange),
        Some(i) => {
            let n = s.len();
            proof {
                assert forall|i2: int|
                    is_sep_at(s@, i2) && no_sep_before(s@, i2) implies i2 == i as int by {
                    lemma_first_sep_unique(s@, i as int, i2);
                }
            }
            let a = parse_u64(slice_take(s, i));
            let b = parse_u64(slice_skip(s, i + 2));
            match (a, b) {
                (None, _) => Err(RangeParseError::InvalidStart),
                (Some(_), None) => Err(RangeParseError::InvalidEnd),
                (Some(x), Some(y)) => Ok(U64Range { start: x, end: y }),
            }
        },
    }
}

/// Parses the textual form `A..B` into a `usize` range, splitting at the
/// first separator; each side must be a plain decimal number that fits.
pub fn parse_range_usize(s: &[u8]) -> (r: Result<UsizeRange, RangeParseError>)
    ensures
        (r matches Err(e) && e is NotARange) <==> (forall|i: int| !is_sep_at(s@, i)),
        forall|i: int|
            is_sep_at(s@, i) && no_sep_before(s@, i) ==> r == spec_split_parse_usize(s@, i),
{
    match find_sep(s) {
        None => Err(RangeParseError::NotARange),
        Some(i) => {
            let n = s.len();
            proof {
                assert forall|i2: int|
                    is_sep_at(s@, i2) && no_sep_before(s@, i2) implies i2 == i as int by {
                    lemma_first_sep_unique(s@, i as int, i2);
                }
            }
            let a = parse_u64(slice_take(s, i));
            let b = parse_u64(slice_skip(s, i + 2));
            let au = match a {
                None => {
                    return Err(RangeParseError::InvalidStart);
                },
                Some(x) => x,
            };
            if au > usize::MAX as u64 {
                return Err(RangeParseError::InvalidStart);
            }
            let bu = match b {
                None => {
                    return Err(RangeParseError::InvalidEnd);
                },
                Some(y) => y,
            };
            if bu > usize::MAX as u64 {
                return Err(RangeParseError::InvalidEnd);
            }
            Ok(UsizeRange { start: au as usize, end: bu as usize })
        },
    }
}

/// The first `n` bytes of a byte string.
fn slice_take<'a>(s: &'a [u8], n: usize) -> (r: &'a [u8])
    requires
        n <= s@.len(),
    ensures
        r@ == s@.take(n as int),
{
    let r = &s[0..n];
    proof {
        assert(r@ =~= s@.take(n as int));
    }
    r
}

/// The bytes of a byte string from position `n` on.
fn slice_skip<'a>(s: &'a [u8], n: usize) -> (r: &'a [u8])
    requires
        n <= s@.len(),
    ensures
        r@ == s@.skip(n as int),
{
    let r = &s[n..s.len()];
    proof {
        assert(r@ =~= s@.skip(n as int));
    }
    r
}

} // verus!
