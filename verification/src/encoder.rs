//! From a signature and the literals of its arguments to the bytes of a call.

use crate::abi::{abi_encode, abi_encoding};
use crate::error::{EncodeError, EncodeFault};
use crate::hash::{get_selector, keccak256_digest, selector_bytes, SELECTOR_LEN};
use crate::leaf::outcome;
use crate::numeric::{bounds_fault, check_bounds};
use crate::text::{
    chars_of, fragments, is_clean, is_one_of, lemma_fragments_are_clean, lemma_run_len, run_len,
    split_fragments,
};
use crate::token::{token_values, AbiToken, TokenValue};
use crate::tokenizer::{tokenize, tokenized};
use vstd::prelude::*;
use vstd::string::{StrSliceExecFns, StringSliceAdditionalSpecFns};
use vstd::utf8::encode_utf8;

verus! {

/// The types of the parameters that the signature `function` names, in order.
///
/// A signature is cut at round brackets, commas and spaces. Its first piece, up to
/// the first of these, is the name of the function; the pieces after it that
/// are not empty are the types.
pub open spec fn signature_parameters(function: Seq<char>) -> Seq<Seq<char>> {
    let name_len = run_len(function, "(), "@) as int;
    if name_len >= function.len() {
        Seq::empty()
    } else {
        fragments(function.skip(name_len + 1), "(), "@)
    }
}

/// The token that the literal `value` stands for under the type `parameter`,
/// once the width that the type carries is found to be allowed.
pub open spec fn parameter_token(parameter: Seq<char>, value: Seq<char>) -> Result<
    TokenValue,
    EncodeFault,
> {
    match bounds_fault(parameter) {
        Some(fault) => Err(fault),
        None => tokenized(parameter, value),
    }
}

/// The tokens of the first `count` parameters, each with the value at its
/// place, or the fault of the first parameter that has one.
pub open spec fn parameter_tokens(
    parameters: Seq<Seq<char>>,
    values: Seq<Seq<char>>,
    count: nat,
) -> Result<Seq<TokenValue>, EncodeFault>
    decreases count,
{
    if count == 0 {
        Ok(Seq::empty())
    } else {
        match parameter_tokens(parameters, values, (count - 1) as nat) {
            Err(fault) => Err(fault),
            Ok(tokens) => match parameter_token(parameters[count - 1], values[count - 1]) {
                Err(fault) => Err(fault),
                Ok(token) => Ok(tokens.push(token)),
            },
        }
    }
}

/// The bytes of a call of `function` with `tokens`: the selector of the
/// signature, then the encoding of the tokens.
pub open spec fn call_data(function: Seq<char>, tokens: Seq<TokenValue>) -> Seq<u8> {
    selector_bytes(keccak256_digest(encode_utf8(function))) + abi_encoding(tokens)
}

/// The bytes of a call of `function` with the arguments written in `values`.
///
/// There must be as many values as the signature names parameters. Each
/// value is then read by the type at its place, in order, and the first fault
/// ends the reading.
pub open spec fn encoded_call(function: Seq<char>, values: Seq<Seq<char>>) -> Result<
    Seq<u8>,
    EncodeFault,
> {
    let parameters = signature_parameters(function);
    if parameters.len() != values.len() {
        Err(EncodeFault::ArityMismatch { expected: parameters.len(), found: values.len() })
    } else {
        match parameter_tokens(parameters, values, parameters.len()) {
            Err(fault) => Err(fault),
            Ok(tokens) => Ok(call_data(function, tokens)),
        }
    }
}

/// What encoding a call gave, as a mathematical value.
pub open spec fn call_outcome(encoded: Result<Vec<u8>, EncodeError>) -> Result<
    Seq<u8>,
    EncodeFault,
> {
    match encoded {
        Ok(bytes) => Ok(bytes@),
        Err(error) => Err(error@),
    }
}

/// No type that a signature names is empty, and none holds a round bracket,
/// a comma or a space.
pub proof fn lemma_parameters_are_clean(function: Seq<char>)
    ensures
        forall|i: int|
            0 <= i < signature_parameters(function).len() ==> is_clean(
                #[trigger] signature_parameters(function)[i],
                "(), "@,
            ),
{
    let name_len = run_len(function, "(), "@) as int;
    if name_len < function.len() {
        lemma_fragments_are_clean(function.skip(name_len + 1), "(), "@);
    }
}

/// A fault among the first `n` parameters is the fault of them all.
pub proof fn lemma_first_parameter_fault(
    parameters: Seq<Seq<char>>,
    values: Seq<Seq<char>>,
    n: nat,
    count: nat,
)
    requires
        n <= count,
        parameter_tokens(parameters, values, n) is Err,
    ensures
        parameter_tokens(parameters, values, count) == parameter_tokens(parameters, values, n),
    decreases count - n,
{
    if n < count {
        lemma_first_parameter_fault(parameters, values, n, (count - 1) as nat);
    }
}

/// Encoding is a function of the signature and the values: two encodings of
/// the same call are the same, byte for byte, and fail alike.
pub proof fn lemma_encoding_repeats(
    function: Seq<char>,
    values: Seq<Seq<char>>,
    first: Result<Vec<u8>, EncodeError>,
    second: Result<Vec<u8>, EncodeError>,
)
    requires
        call_outcome(first) == encoded_call(function, values),
        call_outcome(second) == encoded_call(function, values),
    ensures
        call_outcome(first) == call_outcome(second),
        first matches Ok(bytes) ==> second is Ok && second->Ok_0@ == bytes@,
{
}

/// The types of the parameters that the signature `function` names, in order.
pub fn parse_signature(function: &str) -> (parameters: Vec<String>)
    ensures
        parameters.deep_view() == signature_parameters(function@),
{
    let chars = chars_of(function);
    let marks = chars_of("(), ");
    let n = chars.len();
    let mut name_len: usize = 0;
    while name_len < n && !is_one_of(chars[name_len], marks.as_slice())
        invariant
            name_len <= n,
            n == chars.len(),
            chars@ == function@,
            marks@ == "(), "@,
            forall|k: int| 0 <= k < name_len ==> !"(), "@.contains(#[trigger] function@[k]),
        decreases n - name_len,
    {
        name_len += 1;
    }
    proof {
        lemma_run_len(function@, "(), "@, name_len as nat);
    }
    if name_len >= n {
        return Vec::new();
    }
    split_fragments(function.substring_char(name_len + 1, n), "(), ")
}

/// Holds the width of `parameter` against what its family allows, then reads
/// the literal `value` by it.
pub fn convert_parameter(parameter: &str, value: &str) -> (read: Result<AbiToken, EncodeError>)
    ensures
        outcome(read) == parameter_token(parameter@, value@),
{
    match check_bounds(parameter) {
        Err(error) => Err(error),
        Ok(_) => tokenize(parameter, value),
    }
}

/// The selector `selector` followed by the encoded arguments `body`.
pub fn assemble_call(selector: Vec<u8>, body: &[u8]) -> (data: Vec<u8>)
    ensures
        data@ == selector@ + body@,
{
    let mut data = selector;
    data.extend_from_slice(body);
    data
}

/// The bytes of a call of the signature `str_selector` with the arguments
/// `inputs`: the four bytes of the selector, then the encoding of the
/// arguments.
pub fn build_input(str_selector: &str, inputs: &[AbiToken]) -> (data: Vec<u8>)
    ensures
        data@ == call_data(str_selector@, token_values(inputs@)),
        data@.len() >= SELECTOR_LEN,
        data@.take(SELECTOR_LEN as int) == selector_bytes(
            keccak256_digest(str_selector.spec_bytes()),
        ),
        data@.skip(SELECTOR_LEN as int) == abi_encoding(token_values(inputs@)),
{
    let selector = get_selector(str_selector);
    let body = abi_encode(inputs);
    assemble_call(selector, body.as_slice())
}

/// Encodes a call of the signature `function` with the arguments written in
/// `values`, one literal for each parameter.
pub fn solidity_function(function: &str, values: &[String]) -> (encoded: Result<
    Vec<u8>,
    EncodeError,
>)
    ensures
        call_outcome(encoded) == encoded_call(function@, values.deep_view()),
        signature_parameters(function@).len() != values@.len() ==> encoded is Err
            && encoded->Err_0@ == (EncodeFault::ArityMismatch {
            expected: signature_parameters(function@).len(),
            found: values@.len(),
        }),
        encoded matches Ok(data) ==> data@.len() >= SELECTOR_LEN && data@.take(SELECTOR_LEN as int)
            == selector_bytes(keccak256_digest(function.spec_bytes())),
{
    let parameters = parse_signature(function);
    if parameters.len() != values.len() {
        return Err(
            EncodeError::ArityMismatch { expected: parameters.len(), found: values.len() },
        );
    }
    let ghost types = signature_parameters(function@);
    let ghost literals = values.deep_view();
    let mut tokens: Vec<AbiToken> = Vec::new();
    let mut i: usize = 0;
    assert(token_values(tokens@) == Seq::<TokenValue>::empty());
    while i < parameters.len()
        invariant
            i <= parameters.len(),
            parameters.len() == values.len(),
            types == parameters.deep_view(),
            types == signature_parameters(function@),
            literals == values.deep_view(),
            parameter_tokens(types, literals, i as nat) == Ok::<Seq<TokenValue>, EncodeFault>(
                token_values(tokens@),
            ),
        decreases parameters.len() - i,
    {
        match convert_parameter(parameters[i].as_str(), values[i].as_str()) {
            Ok(token) => {
                let ghost before = token_values(tokens@);
                tokens.push(token);
                assert(token_values(tokens@) == before.push(token@));
            },
            Err(error) => {
                proof {
                    lemma_first_parameter_fault(types, literals, (i + 1) as nat, types.len());
                }
                return Err(error);
            },
        }
        i += 1;
    }
    Ok(build_input(function, tokens.as_slice()))
}

} // verus!
