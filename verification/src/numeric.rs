//! The width that a type name carries, and the widths that a family allows.

use crate::error::{EncodeError, EncodeFault};
use crate::text::{chars_of, contains, contains_text, is_one_of, lemma_run_len, run_len};
use vstd::prelude::*;

verus! {

/// The widest integer, in bits.
pub const MAX_INT_BITS: usize = 256;

/// The bits of an integer come in whole bytes.
pub const BITS_PER_BYTE: usize = 8;

/// The widest fixed byte string, in bytes.
pub const MAX_FIXED_BYTES: usize = 32;

/// Whether `c` is one of the digits `0` to `9`.
pub open spec fn is_digit(c: char) -> bool {
    0x30 <= c as u32 <= 0x39
}

/// How many digits stand at the end of `text`.
pub open spec fn trailing_digits(text: Seq<char>) -> nat
    decreases text.len(),
{
    if text.len() == 0 || !is_digit(text.last()) {
        0
    } else {
        1 + trailing_digits(text.drop_last())
    }
}

/// The number that the digits `digits` stand for; 0 for none.
pub open spec fn digits_value(digits: Seq<char>) -> nat
    decreases digits.len(),
{
    if digits.len() == 0 {
        0
    } else {
        10 * digits_value(digits.drop_last()) + (digits.last() as u32 - 0x30) as nat
    }
}

/// The name of the base type of a parameter: what stands before its first `[`.
pub open spec fn base_name(parameter: Seq<char>) -> Seq<char> {
    parameter.take(run_len(parameter, "["@) as int)
}

/// The number written at the end of the base type of `parameter`, if any.
pub open spec fn numerical_part(parameter: Seq<char>) -> Option<nat> {
    let base = base_name(parameter);
    let count = trailing_digits(base);
    if count == 0 {
        None
    } else {
        Some(digits_value(base.skip(base.len() - count)))
    }
}

/// `n`, or the largest `usize` where `n` is beyond it.
pub open spec fn capped(n: nat) -> usize {
    if n <= usize::MAX {
        n as usize
    } else {
        usize::MAX
    }
}

/// What is wrong with the width `width` on `parameter`, if anything: an
/// integer has at most 256 bits, in whole bytes; a fixed byte string has 1 to
/// 32 bytes; no other type carries a width.
pub open spec fn width_fault(parameter: Seq<char>, width: nat) -> Option<EncodeFault> {
    if contains_text(parameter, "int"@) {
        if width <= MAX_INT_BITS && width % (BITS_PER_BYTE as nat) == 0 {
            None
        } else {
            Some(EncodeFault::NumericOutOfBounds { parameter, width })
        }
    } else if contains_text(parameter, "bytes"@) {
        if 0 < width <= MAX_FIXED_BYTES {
            None
        } else {
            Some(EncodeFault::NumericOutOfBounds { parameter, width })
        }
    } else {
        Some(EncodeFault::UnsupportedType { parameter })
    }
}

/// What is wrong with the width that `parameter` carries, if it carries one
/// and anything is.
pub open spec fn bounds_fault(parameter: Seq<char>) -> Option<EncodeFault> {
    match numerical_part(parameter) {
        None => None,
        Some(width) => width_fault(parameter, capped(width) as nat),
    }
}

/// The digits at the end of `text` are those from `start` on, where they are
/// digits and what stands before them is none.
pub proof fn lemma_trailing_digits(text: Seq<char>, start: int)
    requires
        0 <= start <= text.len(),
        forall|k: int| start <= k < text.len() ==> is_digit(#[trigger] text[k]),
        start == 0 || !is_digit(text[start - 1]),
    ensures
        trailing_digits(text) == text.len() - start,
    decreases text.len() - start,
{
    if start < text.len() {
        lemma_trailing_digits(text.drop_last(), start);
    }
}

/// Whether `c` is one of the digits `0` to `9`.
pub fn is_digit_char(c: char) -> (digit: bool)
    ensures
        digit == is_digit(c),
{
    let code: u32 = c as u32;
    0x30 <= code && code <= 0x39
}

/// The number written at the end of the base type of `parameter`: the digits
/// that stand before its first `[`, or at its end where it has none. `None`
/// where no digit stands there; the largest `usize` where the number is beyond
/// it.
pub fn get_numerical_part(parameter: &str) -> (width: Option<usize>)
    ensures
        width == match numerical_part(parameter@) {
            None => None::<usize>,
            Some(n) => Some(capped(n)),
        },
{
    let chars = chars_of(parameter);
    let bracket = chars_of("[");
    let n = chars.len();
    let mut end: usize = 0;
    while end < n && !is_one_of(chars[end], bracket.as_slice())
        invariant
            end <= n,
            n == chars.len(),
            chars@ == parameter@,
            bracket@ == "["@,
            forall|k: int| 0 <= k < end ==> !"["@.contains(#[trigger] parameter@[k]),
        decreases n - end,
    {
        end += 1;
    }
    let ghost base = parameter@.take(end as int);
    proof {
        lemma_run_len(parameter@, "["@, end as nat);
    }
    let mut start: usize = end;
    while start > 0 && is_digit_char(chars[start - 1])
        invariant
            start <= end <= n,
            n == chars.len(),
            chars@ == parameter@,
            forall|k: int| start <= k < end ==> is_digit(#[trigger] parameter@[k]),
        decreases start,
    {
        start -= 1;
    }
    proof {
        lemma_trailing_digits(base, start as int);
    }
    if start == end {
        return None;
    }
    let ghost digits = base.skip(start as int);
    let mut value: usize = 0;
    let mut i: usize = start;
    while i < end
        invariant
            start <= i <= end <= n,
            n == chars.len(),
            chars@ == parameter@,
            base == parameter@.take(end as int),
            digits == base.skip(start as int),
            forall|k: int| 0 <= k < digits.len() ==> is_digit(#[trigger] digits[k]),
            value == capped(digits_value(digits.take(i - start))),
        decreases end - i,
    {
        assert(digits.take(i - start + 1).drop_last() == digits.take(i - start));
        assert(is_digit(digits[i - start]));
        let digit: usize = (chars[i] as u32 - 0x30) as usize;
        if value > (usize::MAX - digit) / 10 {
            value = usize::MAX;
        } else {
            value = value * 10 + digit;
        }
        i += 1;
    }
    assert(digits.take(end - start) == digits);
    Some(value)
}

/// The error for a width that the family of `parameter` does not allow.
fn out_of_bounds(parameter: &str, width: usize) -> (error: EncodeError)
    ensures
        error@ == (EncodeFault::NumericOutOfBounds { parameter: parameter@, width: width as nat }),
{
    EncodeError::NumericOutOfBounds { parameter: parameter.to_owned(), width }
}

/// Holds the width `numerical` that `parameter` carries against what its
/// family allows: an integer has at most 256 bits, in whole bytes; a fixed
/// byte string has 1 to 32 bytes; no other type carries a width.
pub fn numeric_sanity_check(parameter: &str, numerical: usize) -> (checked: Result<(), EncodeError>)
    ensures
        match checked {
            Ok(_) => width_fault(parameter@, numerical as nat) is None,
            Err(error) => width_fault(parameter@, numerical as nat) == Some(error@),
        },
{
    let chars = chars_of(parameter);
    let int_family = chars_of("int");
    let bytes_family = chars_of("bytes");
    if contains(chars.as_slice(), int_family.as_slice()) {
        if numerical <= MAX_INT_BITS && numerical % BITS_PER_BYTE == 0 {
            Ok(())
        } else {
            Err(out_of_bounds(parameter, numerical))
        }
    } else if contains(chars.as_slice(), bytes_family.as_slice()) {
        if 0 < numerical && numerical <= MAX_FIXED_BYTES {
            Ok(())
        } else {
            Err(out_of_bounds(parameter, numerical))
        }
    } else {
        Err(EncodeError::UnsupportedType { parameter: parameter.to_owned() })
    }
}

/// Holds the width that `parameter` carries, if it carries one, against what
/// its family allows.
pub fn check_bounds(parameter: &str) -> (checked: Result<(), EncodeError>)
    ensures
        match checked {
            Ok(_) => bounds_fault(parameter@) is None,
            Err(error) => bounds_fault(parameter@) == Some(error@),
        },
{
    match get_numerical_part(parameter) {
        None => Ok(()),
        Some(numerical) => numeric_sanity_check(parameter, numerical),
    }
}

} // verus!
