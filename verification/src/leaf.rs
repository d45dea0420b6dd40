//! Reading the literal of a value whose type is no array.

use crate::error::{EncodeError, EncodeFault};
use crate::literal::{
    decimal_value, hex_bytes, hex_decode, hex_decode_20, is_hex, is_hex_address, is_u256_literal,
};
use crate::numeric::{is_digit, is_digit_char};
use crate::text::{chars_of, same_text, starts_with, starts_with_text};
use crate::token::{AbiToken, TokenValue, U256};
use vstd::prelude::*;
use vstd::slice::slice_to_vec;
use vstd::string::StringSliceAdditionalSpecFns;
use vstd::utf8::encode_utf8;

verus! {

/// How many bytes the literal of a `function` holds.
pub const FUNCTION_LEN: usize = 24;

/// What reading a literal gave, as a mathematical value.
pub open spec fn outcome(read: Result<AbiToken, EncodeError>) -> Result<TokenValue, EncodeFault> {
    match read {
        Ok(token) => Ok(token@),
        Err(error) => Err(error@),
    }
}

/// Whether `parameter` names a fixed byte string: `bytes` and then its width
/// in digits.
pub open spec fn is_fixed_bytes_type(parameter: Seq<char>) -> bool {
    &&& starts_with_text(parameter, "bytes"@)
    &&& parameter.len() > "bytes"@.len()
    &&& forall|i: int| "bytes"@.len() <= i < parameter.len() ==> is_digit(#[trigger] parameter[i])
}

/// The token that the literal `value` stands for under the type `parameter`,
/// which is no array.
///
/// A type that begins with `uint` reads an unsigned integer, written in
/// decimal; one that begins with `int` an integer, written in decimal as its
/// 256 bits. `address` reads forty hexadecimal digits, `bool` reads `true` or
/// `false`, `bytes` reads hexadecimal digits, and `string` takes any text as it
/// is. `bytes` with a width reads hexadecimal digits as fixed bytes, however
/// many they are. `function` takes a text of twenty-four bytes as bytes. No
/// other type is known.
pub open spec fn leaf_token(parameter: Seq<char>, value: Seq<char>) -> Result<
    TokenValue,
    EncodeFault,
> {
    let bytes = encode_utf8(value);
    let invalid = Err::<TokenValue, EncodeFault>(EncodeFault::InvalidLiteral { parameter, value });
    if starts_with_text(parameter, "uint"@) {
        if is_u256_literal(bytes) {
            Ok(TokenValue::Uint(decimal_value(bytes)))
        } else {
            invalid
        }
    } else if starts_with_text(parameter, "int"@) {
        if is_u256_literal(bytes) {
            Ok(TokenValue::Int(decimal_value(bytes)))
        } else {
            invalid
        }
    } else if parameter == "address"@ {
        if is_hex_address(bytes) {
            Ok(TokenValue::Address(hex_bytes(bytes)))
        } else {
            invalid
        }
    } else if parameter == "bool"@ {
        if value == "true"@ {
            Ok(TokenValue::Bool(true))
        } else if value == "false"@ {
            Ok(TokenValue::Bool(false))
        } else {
            invalid
        }
    } else if parameter == "bytes"@ {
        if is_hex(bytes) {
            Ok(TokenValue::Bytes(hex_bytes(bytes)))
        } else {
            invalid
        }
    } else if parameter == "string"@ {
        Ok(TokenValue::String(value))
    } else if is_fixed_bytes_type(parameter) {
        if is_hex(bytes) {
            Ok(TokenValue::FixedBytes(hex_bytes(bytes)))
        } else {
            invalid
        }
    } else if parameter == "function"@ {
        if bytes.len() == FUNCTION_LEN {
            Ok(TokenValue::Bytes(bytes))
        } else {
            invalid
        }
    } else {
        Err(EncodeFault::UnsupportedType { parameter })
    }
}

/// The error for a literal that its type does not read.
fn invalid_literal(type_part: &str, value: &str) -> (error: EncodeError)
    ensures
        error@ == (EncodeFault::InvalidLiteral { parameter: type_part@, value: value@ }),
{
    EncodeError::InvalidLiteral { parameter: type_part.to_owned(), value: value.to_owned() }
}

/// Whether `name` is `bytes` and then a width in digits.
fn names_fixed_bytes(name: &[char]) -> (fixed: bool)
    ensures
        fixed == is_fixed_bytes_type(name@),
{
    let family = chars_of("bytes");
    if !starts_with(name, family.as_slice()) || name.len() <= family.len() {
        return false;
    }
    let mut i: usize = family.len();
    while i < name.len()
        invariant
            family@ == "bytes"@,
            family.len() <= i <= name.len(),
            forall|k: int| family.len() <= k < i ==> is_digit(#[trigger] name@[k]),
        decreases name.len() - i,
    {
        if !is_digit_char(name[i]) {
            return false;
        }
        i += 1;
    }
    true
}

/// Reads the literal `value` by the type `type_part`, which is no array.
pub fn solidity_lookup(type_part: &str, value: &str) -> (read: Result<AbiToken, EncodeError>)
    ensures
        outcome(read) == leaf_token(type_part@, value@),
{
    let name = chars_of(type_part);
    let name = name.as_slice();
    if starts_with(name, chars_of("uint").as_slice()) {
        match U256::from_dec_str(value) {
            Some(number) => Ok(AbiToken::Uint(number)),
            None => Err(invalid_literal(type_part, value)),
        }
    } else if starts_with(name, chars_of("int").as_slice()) {
        match U256::from_dec_str(value) {
            Some(number) => Ok(AbiToken::Int(number)),
            None => Err(invalid_literal(type_part, value)),
        }
    } else if same_text(name, chars_of("address").as_slice()) {
        match hex_decode_20(value) {
            Some(bytes) => Ok(AbiToken::Address(bytes)),
            None => Err(invalid_literal(type_part, value)),
        }
    } else if same_text(name, chars_of("bool").as_slice()) {
        let literal = chars_of(value);
        if same_text(literal.as_slice(), chars_of("true").as_slice()) {
            Ok(AbiToken::Bool(true))
        } else if same_text(literal.as_slice(), chars_of("false").as_slice()) {
            Ok(AbiToken::Bool(false))
        } else {
            Err(invalid_literal(type_part, value))
        }
    } else if same_text(name, chars_of("bytes").as_slice()) {
        match hex_decode(value) {
            Some(bytes) => Ok(AbiToken::Bytes(bytes)),
            None => Err(invalid_literal(type_part, value)),
        }
    } else if same_text(name, chars_of("string").as_slice()) {
        Ok(AbiToken::String(value.to_owned()))
    } else if names_fixed_bytes(name) {
        match hex_decode(value) {
            Some(bytes) => Ok(AbiToken::FixedBytes(bytes)),
            None => Err(invalid_literal(type_part, value)),
        }
    } else if same_text(name, chars_of("function").as_slice()) {
        let raw = value.as_bytes();
        if raw.len() == FUNCTION_LEN {
            Ok(AbiToken::Bytes(slice_to_vec(raw)))
        } else {
            Err(invalid_literal(type_part, value))
        }
    } else {
        Err(EncodeError::UnsupportedType { parameter: type_part.to_owned() })
    }
}

} // verus!
