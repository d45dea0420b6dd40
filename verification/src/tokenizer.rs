//! Reading the literal of a value of any type, arrays included.
//!
//! A type is a base type followed by array suffixes, `[]` or `[N]`. The last
//! suffix is the outermost array: it is taken off first, the literal is cut
//! into the literals of its elements, and each is read by what is left of the
//! type.

use crate::error::{EncodeError, EncodeFault};
use crate::grouping::{group_array, grouped};
use crate::leaf::{is_fixed_bytes_type, leaf_token, outcome, solidity_lookup, FUNCTION_LEN};
use crate::literal::u256_limit;
use crate::numeric::{is_digit, is_digit_char, lemma_trailing_digits, trailing_digits};
use crate::text::{chars_of, starts_with_text};
use crate::token::{lemma_array_values, token_values, AbiToken, TokenValue};
use vstd::prelude::*;
use vstd::string::StrSliceExecFns;

verus! {

/// Whether `parameter` ends with a closing bracket, as the type of an array does.
pub open spec fn ends_in_bracket(parameter: Seq<char>) -> bool {
    parameter.len() > 0 && parameter.last() == ']'
}

/// How many digits stand before the closing bracket that ends `parameter`.
pub open spec fn suffix_digits(parameter: Seq<char>) -> nat {
    trailing_digits(parameter.drop_last())
}

/// Whether `parameter` ends with an array suffix: an opening bracket, digits
/// or none, and a closing bracket.
pub open spec fn has_array_suffix(parameter: Seq<char>) -> bool {
    &&& ends_in_bracket(parameter)
    &&& parameter.len() >= suffix_digits(parameter) + 2
    &&& parameter[parameter.len() - suffix_digits(parameter) - 2] == '['
}

/// Whether the array suffix of `parameter` names no length.
pub open spec fn is_dynamic(parameter: Seq<char>) -> bool {
    suffix_digits(parameter) == 0
}

/// The type of the elements of the array type `parameter`: what stands before
/// its last suffix.
pub open spec fn element_type(parameter: Seq<char>) -> Seq<char> {
    parameter.take(parameter.len() - suffix_digits(parameter) - 2)
}

/// The token that the literal `value` stands for under the type `parameter`.
///
/// A type that ends with `[]` gives an array and one that ends with `[N]` a
/// fixed array, of the tokens that the elements of the literal stand for under
/// the element type; how many they are is not held against `N`. A type that
/// ends with a bracket otherwise is unknown. Any other type is read as a leaf.
/// The first element that cannot be read decides the fault.
pub open spec fn tokenized(parameter: Seq<char>, value: Seq<char>) -> Result<
    TokenValue,
    EncodeFault,
>
    decreases parameter.len(), 0nat,
{
    if !ends_in_bracket(parameter) {
        leaf_token(parameter, value)
    } else if !has_array_suffix(parameter) {
        Err(EncodeFault::UnsupportedType { parameter })
    } else {
        match tokenized_all(element_type(parameter), grouped(value)) {
            Err(fault) => Err(fault),
            Ok(items) => if is_dynamic(parameter) {
                Ok(TokenValue::Array(items))
            } else {
                Ok(TokenValue::FixedArray(items))
            },
        }
    }
}

/// The tokens that the literals `values` stand for under the type
/// `parameter`, or the fault of the first that cannot be read.
pub open spec fn tokenized_all(parameter: Seq<char>, values: Seq<Seq<char>>) -> Result<
    Seq<TokenValue>,
    EncodeFault,
>
    decreases parameter.len(), values.len() + 1,
{
    if values.len() == 0 {
        Ok(Seq::empty())
    } else {
        match tokenized_all(parameter, values.drop_last()) {
            Err(fault) => Err(fault),
            Ok(items) => match tokenized(parameter, values.last()) {
                Err(fault) => Err(fault),
                Ok(item) => Ok(items.push(item)),
            },
        }
    }
}

/// Whether `token` is of the kind that the leaf type `parameter` reads.
pub open spec fn follows_leaf_type(parameter: Seq<char>, token: TokenValue) -> bool {
    if starts_with_text(parameter, "uint"@) {
        token matches TokenValue::Uint(number) && number < u256_limit()
    } else if starts_with_text(parameter, "int"@) {
        token matches TokenValue::Int(number) && number < u256_limit()
    } else if parameter == "address"@ {
        token matches TokenValue::Address(bytes) && bytes.len() == 20
    } else if parameter == "bool"@ {
        token is Bool
    } else if parameter == "bytes"@ {
        token is Bytes
    } else if parameter == "string"@ {
        token is String
    } else if is_fixed_bytes_type(parameter) {
        token is FixedBytes
    } else if parameter == "function"@ {
        token matches TokenValue::Bytes(bytes) && bytes.len() == FUNCTION_LEN
    } else {
        false
    }
}

/// Whether `token` has the shape of the type `parameter`: an array where the
/// type is one, of items that all have the shape of the element type, and a
/// leaf of the right kind where it is none.
pub open spec fn follows_type(parameter: Seq<char>, token: TokenValue) -> bool
    decreases parameter.len(),
{
    if !ends_in_bracket(parameter) {
        follows_leaf_type(parameter, token)
    } else if !has_array_suffix(parameter) {
        false
    } else if is_dynamic(parameter) {
        token matches TokenValue::Array(items) && forall|i: int|
            0 <= i < items.len() ==> follows_type(element_type(parameter), #[trigger] items[i])
    } else {
        token matches TokenValue::FixedArray(items) && forall|i: int|
            0 <= i < items.len() ==> follows_type(element_type(parameter), #[trigger] items[i])
    }
}

/// Every token that is read has the shape of its type; so the items of an
/// array all have one shape.
pub proof fn lemma_tokens_follow_their_type(parameter: Seq<char>, value: Seq<char>)
    ensures
        tokenized(parameter, value) matches Ok(token) ==> follows_type(parameter, token),
    decreases parameter.len(), 0nat,
{
    if ends_in_bracket(parameter) && has_array_suffix(parameter) {
        lemma_all_tokens_follow_their_type(element_type(parameter), grouped(value));
    }
}

/// Every token of a list that is read has the shape of the type of the list.
pub proof fn lemma_all_tokens_follow_their_type(parameter: Seq<char>, values: Seq<Seq<char>>)
    ensures
        tokenized_all(parameter, values) matches Ok(items) ==> items.len() == values.len()
            && forall|i: int|
            0 <= i < items.len() ==> follows_type(parameter, #[trigger] items[i]),
    decreases parameter.len(), values.len() + 1,
{
    if values.len() > 0 {
        lemma_all_tokens_follow_their_type(parameter, values.drop_last());
        lemma_tokens_follow_their_type(parameter, values.last());
    }
}

/// A fault among the first `n` literals is the fault of them all.
pub proof fn lemma_first_fault(parameter: Seq<char>, values: Seq<Seq<char>>, n: int)
    requires
        0 <= n <= values.len(),
        tokenized_all(parameter, values.take(n)) is Err,
    ensures
        tokenized_all(parameter, values) == tokenized_all(parameter, values.take(n)),
    decreases values.len() - n,
{
    if n < values.len() {
        assert(values.drop_last().take(n) == values.take(n));
        lemma_first_fault(parameter, values.drop_last(), n);
    } else {
        assert(values.take(n) == values);
    }
}

/// How a type ends.
pub enum Suffix {
    /// With no bracket: the type is no array.
    Leaf,
    /// With a bracket that closes no array suffix.
    Malformed,
    /// With `[]`, after `element_len` characters.
    Dynamic { element_len: usize },
    /// With `[N]`, after `element_len` characters.
    Fixed { element_len: usize },
}

/// How the type `parameter` ends, and how long its element type is where it
/// is an array.
pub fn array_suffix(parameter: &[char]) -> (suffix: Suffix)
    ensures
        match suffix {
            Suffix::Leaf => !ends_in_bracket(parameter@),
            Suffix::Malformed => ends_in_bracket(parameter@) && !has_array_suffix(parameter@),
            Suffix::Dynamic { element_len } => {
                &&& has_array_suffix(parameter@)
                &&& is_dynamic(parameter@)
                &&& element_len < parameter@.len()
                &&& parameter@.take(element_len as int) == element_type(parameter@)
            },
            Suffix::Fixed { element_len } => {
                &&& has_array_suffix(parameter@)
                &&& !is_dynamic(parameter@)
                &&& element_len < parameter@.len()
                &&& parameter@.take(element_len as int) == element_type(parameter@)
            },
        },
{
    let n = parameter.len();
    if n == 0 || parameter[n - 1] != ']' {
        return Suffix::Leaf;
    }
    let mut start: usize = n - 1;
    while start > 0 && is_digit_char(parameter[start - 1])
        invariant
            start <= n - 1,
            n == parameter.len(),
            forall|k: int| start <= k < n - 1 ==> is_digit(#[trigger] parameter@[k]),
        decreases start,
    {
        start -= 1;
    }
    proof {
        lemma_trailing_digits(parameter@.drop_last(), start as int);
    }
    if start == 0 || parameter[start - 1] != '[' {
        return Suffix::Malformed;
    }
    if start == n - 1 {
        Suffix::Dynamic { element_len: start - 1 }
    } else {
        Suffix::Fixed { element_len: start - 1 }
    }
}

/// Reads the literal `parameter_value` by the type `parameter_type`.
pub fn tokenize(parameter_type: &str, parameter_value: &str) -> (read: Result<
    AbiToken,
    EncodeError,
>)
    ensures
        outcome(read) == tokenized(parameter_type@, parameter_value@),
        read matches Ok(token) ==> follows_type(parameter_type@, token@),
    decreases parameter_type@.len(),
{
    proof {
        lemma_tokens_follow_their_type(parameter_type@, parameter_value@);
    }
    let chars = chars_of(parameter_type);
    let suffix = array_suffix(chars.as_slice());
    let (element_len, dynamic) = match suffix {
        Suffix::Leaf => {
            return solidity_lookup(parameter_type, parameter_value);
        },
        Suffix::Malformed => {
            return Err(EncodeError::UnsupportedType { parameter: parameter_type.to_owned() });
        },
        Suffix::Dynamic { element_len } => (element_len, true),
        Suffix::Fixed { element_len } => (element_len, false),
    };
    let element = parameter_type.substring_char(0, element_len);
    let values = group_array(parameter_value);
    let ghost literals = grouped(parameter_value@);
    let mut items: Vec<AbiToken> = Vec::new();
    let mut i: usize = 0;
    assert(token_values(items@) == Seq::<TokenValue>::empty());
    while i < values.len()
        invariant
            i <= values.len(),
            literals == values.deep_view(),
            literals == grouped(parameter_value@),
            has_array_suffix(parameter_type@),
            element@ == element_type(parameter_type@),
            element@.len() < parameter_type@.len(),
            tokenized_all(element@, literals.take(i as int)) == Ok::<Seq<TokenValue>, EncodeFault>(
                token_values(items@),
            ),
        decreases values.len() - i,
    {
        assert(literals.take(i + 1).drop_last() == literals.take(i as int));
        match tokenize(element, values[i].as_str()) {
            Ok(item) => {
                let ghost before = token_values(items@);
                items.push(item);
                assert(token_values(items@) == before.push(item@));
            },
            Err(error) => {
                proof {
                    lemma_first_fault(element@, literals, i + 1);
                }
                return Err(error);
            },
        }
        i += 1;
    }
    assert(literals.take(i as int) == literals);
    proof {
        lemma_array_values(items);
    }
    if dynamic {
        Ok(AbiToken::Array(items))
    } else {
        Ok(AbiToken::FixedArray(items))
    }
}

} // verus!
