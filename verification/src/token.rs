//! The typed values that the encoder works on.

use vstd::prelude::*;

verus! {

/// An unsigned integer of 256 bits, as four limbs of 64 bits, the least
/// significant first.
#[derive(Debug, Clone, Copy, PartialEq, Eq)]
pub struct U256 {
    pub limbs: [u64; 4],
}

/// The number that four limbs of 64 bits stand for, the least significant first.
pub open spec fn limbs_value(limbs: Seq<u64>) -> nat
    recommends
        limbs.len() == 4,
{
    (limbs[0] as nat) + (limbs[1] as nat) * 0x1_0000_0000_0000_0000 + (limbs[2] as nat)
        * 0x1_0000_0000_0000_0000_0000_0000_0000_0000 + (limbs[3] as nat)
        * 0x1_0000_0000_0000_0000_0000_0000_0000_0000_0000_0000_0000_0000
}

impl View for U256 {
    type V = nat;

    open spec fn view(&self) -> nat {
        limbs_value(self.limbs@)
    }
}

/// One argument of a call after its literal was read by its type.
#[derive(Debug, PartialEq, Eq)]
pub enum AbiToken {
    /// An address: twenty bytes.
    Address([u8; 20]),
    /// Bytes of a fixed width.
    FixedBytes(Vec<u8>),
    /// Bytes of any length.
    Bytes(Vec<u8>),
    /// A signed integer, held as its 256 bits.
    Int(U256),
    /// An unsigned integer.
    Uint(U256),
    /// A boolean.
    Bool(bool),
    /// A text.
    String(String),
    /// An array of a length that its type fixes.
    FixedArray(Vec<AbiToken>),
    /// An array of any length.
    Array(Vec<AbiToken>),
}

/// A [`AbiToken`] as a mathematical value.
pub enum TokenValue {
    Address(Seq<u8>),
    FixedBytes(Seq<u8>),
    Bytes(Seq<u8>),
    Int(nat),
    Uint(nat),
    Bool(bool),
    String(Seq<char>),
    FixedArray(Seq<TokenValue>),
    Array(Seq<TokenValue>),
}

/// The value of a token: the values it holds, down through its arrays.
pub open spec fn token_value(token: AbiToken) -> TokenValue
    decreases token,
{
    match token {
        AbiToken::Address(bytes) => TokenValue::Address(bytes@),
        AbiToken::FixedBytes(bytes) => TokenValue::FixedBytes(bytes@),
        AbiToken::Bytes(bytes) => TokenValue::Bytes(bytes@),
        AbiToken::Int(number) => TokenValue::Int(number@),
        AbiToken::Uint(number) => TokenValue::Uint(number@),
        AbiToken::Bool(flag) => TokenValue::Bool(flag),
        AbiToken::String(text) => TokenValue::String(text@),
        AbiToken::FixedArray(items) => TokenValue::FixedArray(
            Seq::new(
                items.len() as nat,
                |i: int|
                    if 0 <= i < items.len() {
                        token_value(items[i])
                    } else {
                        arbitrary()
                    },
            ),
        ),
        AbiToken::Array(items) => TokenValue::Array(
            Seq::new(
                items.len() as nat,
                |i: int|
                    if 0 <= i < items.len() {
                        token_value(items[i])
                    } else {
                        arbitrary()
                    },
            ),
        ),
    }
}

impl View for AbiToken {
    type V = TokenValue;

    open spec fn view(&self) -> TokenValue {
        token_value(*self)
    }
}

/// The values of a sequence of tokens.
pub open spec fn token_values(tokens: Seq<AbiToken>) -> Seq<TokenValue> {
    Seq::new(tokens.len(), |i: int| tokens[i]@)
}

/// The value of an array token holds the values of its items, in order.
pub proof fn lemma_array_values(items: Vec<AbiToken>)
    ensures
        AbiToken::Array(items)@ == TokenValue::Array(token_values(items@)),
        AbiToken::FixedArray(items)@ == TokenValue::FixedArray(token_values(items@)),
{
    reveal_with_fuel(token_value, 2);
    let values = token_values(items@);
    assert(AbiToken::Array(items)@->Array_0 =~= values);
    assert(AbiToken::FixedArray(items)@->FixedArray_0 =~= values);
}

} // verus!
