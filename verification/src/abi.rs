//! The binary layout of a list of tokens, which `ethabi` computes.

use crate::token::{token_values, AbiToken, TokenValue};
use ethabi::Token;
use vstd::prelude::*;

verus! {

/// `ethabi::Token`, which the library builds and hands on without reading it.
#[verifier::external_type_specification]
#[verifier::external_body]
pub struct ExToken(ethabi::Token);

/// The ABI encoding of a list of tokens: the heads of all, then the tails of
/// those whose size their type does not fix.
pub uninterp spec fn abi_encoding(tokens: Seq<TokenValue>) -> Seq<u8>;

/// The token of `ethabi` that holds what `token` holds, variant for variant.
///
/// Nothing is stated of it: it serves [`abi_encode`] alone.
#[verifier::external_body]
fn abi_token(token: &AbiToken) -> Token {
    match token {
        AbiToken::Address(bytes) => Token::Address((*bytes).into()),
        AbiToken::FixedBytes(bytes) => Token::FixedBytes(bytes.clone()),
        AbiToken::Bytes(bytes) => Token::Bytes(bytes.clone()),
        AbiToken::Int(number) => Token::Int(ethabi::Int { 0: number.limbs }),
        AbiToken::Uint(number) => Token::Uint(ethabi::Uint { 0: number.limbs }),
        AbiToken::Bool(flag) => Token::Bool(*flag),
        AbiToken::String(text) => Token::String(text.clone()),
        AbiToken::FixedArray(items) => Token::FixedArray(items.iter().map(abi_token).collect()),
        AbiToken::Array(items) => Token::Array(items.iter().map(abi_token).collect()),
    }
}

/// `ethabi::encode`, on the tokens of `ethabi` that hold what `tokens` hold.
///
/// Believed of it: what it returns depends on the values of the tokens alone.
#[verifier::external_body]
pub(crate) fn abi_encode(tokens: &[AbiToken]) -> (bytes: Vec<u8>)
    ensures
        bytes@ == abi_encoding(token_values(tokens@)),
{
    let converted: Vec<Token> = tokens.iter().map(abi_token).collect();
    ethabi::encode(&converted)
}

} // verus!
