//! Reading literals: decimal numbers and hexadecimal bytes.
//!
//! The digits are read by `aurora_engine_types` and `hex`. Both work on the
//! bytes of a text, so the rules below are stated over bytes.

use crate::token::{limbs_value, U256};
use vstd::prelude::*;
use vstd::string::StringSliceAdditionalSpecFns;

verus! {

/// Whether `byte` is one of the ASCII digits `0` to `9`.
pub open spec fn is_decimal_digit(byte: u8) -> bool {
    0x30 <= byte <= 0x39
}

/// Whether `text` holds decimal digits only. The empty text does.
pub open spec fn is_decimal(text: Seq<u8>) -> bool {
    forall|i: int| 0 <= i < text.len() ==> is_decimal_digit(#[trigger] text[i])
}

/// The number that the decimal digits `digits` stand for; 0 for none.
pub open spec fn decimal_value(digits: Seq<u8>) -> nat
    decreases digits.len(),
{
    if digits.len() == 0 {
        0
    } else {
        10 * decimal_value(digits.drop_last()) + (digits.last() - 0x30) as nat
    }
}

/// Two to the power 256: the first number that 256 bits cannot hold.
pub open spec fn u256_limit() -> nat {
    0x1_0000_0000_0000_0000_0000_0000_0000_0000_0000_0000_0000_0000_0000_0000_0000_0000nat
}

/// Whether `text` is the decimal literal of a number of at most 256 bits.
pub open spec fn is_u256_literal(text: Seq<u8>) -> bool {
    is_decimal(text) && decimal_value(text) < u256_limit()
}

/// What the hexadecimal digit `byte` counts for, in either case; `None`
/// where `byte` is no such digit.
pub open spec fn hex_digit_value(byte: u8) -> Option<int> {
    if 0x30 <= byte <= 0x39 {
        Some(byte - 0x30)
    } else if 0x61 <= byte <= 0x66 {
        Some(byte - 0x61 + 10)
    } else if 0x41 <= byte <= 0x46 {
        Some(byte - 0x41 + 10)
    } else {
        None
    }
}

/// Whether `text` is an even number of hexadecimal digits.
pub open spec fn is_hex(text: Seq<u8>) -> bool {
    &&& text.len() % 2 == 0
    &&& forall|i: int| 0 <= i < text.len() ==> hex_digit_value(#[trigger] text[i]) is Some
}

/// Whether `text` is the forty hexadecimal digits of an address.
pub open spec fn is_hex_address(text: Seq<u8>) -> bool {
    is_hex(text) && text.len() == 40
}

/// The bytes that the hexadecimal digits of `text` spell, two digits a byte,
/// the high digit first.
pub open spec fn hex_bytes(text: Seq<u8>) -> Seq<u8> {
    Seq::new(
        text.len() / 2,
        |i: int|
            (16 * hex_digit_value(text[2 * i]).unwrap() + hex_digit_value(
                text[2 * i + 1],
            ).unwrap()) as u8,
    )
}

/// `U256::from_dec_str` of `aurora_engine_types`, handing back the limbs.
///
/// Believed of it: it accepts a text exactly where every byte is a decimal
/// digit and the number stays below two to the power 256, and the limbs it
/// gives, the least significant first, stand for that number.
#[verifier::external_body]
fn parse_u256(value: &str) -> (limbs: Option<[u64; 4]>)
    ensures
        limbs is Some <==> is_u256_literal(value.spec_bytes()),
        limbs matches Some(found) ==> limbs_value(found@) == decimal_value(value.spec_bytes()),
{
    aurora_engine_types::U256::from_dec_str(value).ok().map(|number| number.0)
}

/// `hex::decode`.
///
/// Believed of it: it accepts a text exactly where it is an even number of
/// hexadecimal digits, and gives the bytes that they spell.
#[verifier::external_body]
pub(crate) fn hex_decode(value: &str) -> (bytes: Option<Vec<u8>>)
    ensures
        bytes is Some <==> is_hex(value.spec_bytes()),
        bytes matches Some(found) ==> found@ == hex_bytes(value.spec_bytes()),
{
    hex::decode(value).ok()
}

/// `hex::decode_to_slice` into twenty bytes.
///
/// Believed of it: it accepts a text exactly where it is forty hexadecimal
/// digits, and then fills the twenty bytes with what they spell.
#[verifier::external_body]
pub(crate) fn hex_decode_20(value: &str) -> (bytes: Option<[u8; 20]>)
    ensures
        bytes is Some <==> is_hex_address(value.spec_bytes()),
        bytes matches Some(found) ==> found@ == hex_bytes(value.spec_bytes()),
{
    let mut out = [0u8; 20];
    match hex::decode_to_slice(value, &mut out) {
        Ok(()) => Some(out),
        Err(_) => None,
    }
}

impl U256 {
    /// Reads a decimal literal. The empty text reads as zero.
    pub fn from_dec_str(value: &str) -> (number: Option<U256>)
        ensures
            number is Some <==> is_u256_literal(value.spec_bytes()),
            number matches Some(found) ==> found@ == decimal_value(value.spec_bytes()),
    {
        match parse_u256(value) {
            Some(limbs) => Some(U256 { limbs }),
            None => None,
        }
    }
}

} // verus!
