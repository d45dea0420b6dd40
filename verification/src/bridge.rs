//! The call that the bridge hands to the engine: the contract's address, no
//! value, and the encoded input.

use crate::encoder::{encoded_call, solidity_function};
use crate::error::{EncodeError, EncodeFault};
use crate::literal::{hex_bytes, hex_decode_20, is_hex_address};
use vstd::prelude::*;
use vstd::string::StringSliceAdditionalSpecFns;
use vstd::utf8::encode_utf8;

verus! {

/// The twenty bytes of an address.
pub type RawAddress = [u8; 20];

/// The thirty-two bytes of a 256-bit number, the most significant first.
pub type RawU256 = [u8; 32];

/// The arguments of a call of a contract.
#[derive(Debug, Clone, PartialEq, Eq)]
pub struct FunctionCallArgsV2 {
    /// The address of the contract.
    pub contract: RawAddress,
    /// The value sent with the call.
    pub value: RawU256,
    /// The bytes of the call: selector and encoded arguments.
    pub input: Vec<u8>,
}

/// The arguments of a call, by the version of their layout.
#[derive(Debug, Clone, PartialEq, Eq)]
pub enum CallArgs {
    V2(FunctionCallArgsV2),
    Unused,
}

/// A [`FunctionCallArgsV2`] as a mathematical value.
pub struct CallValue {
    pub contract: Seq<u8>,
    pub value: Seq<u8>,
    pub input: Seq<u8>,
}

impl View for FunctionCallArgsV2 {
    type V = CallValue;

    open spec fn view(&self) -> CallValue {
        CallValue { contract: self.contract@, value: self.value@, input: self.input@ }
    }
}

/// The bridge from the caller's chain to the engine.
#[derive(Debug, Clone, Copy, PartialEq, Eq)]
pub struct ContractBridge;

/// The address that the text `input` spells: forty hexadecimal digits.
pub open spec fn address_bytes(input: Seq<char>) -> Result<Seq<u8>, EncodeFault> {
    let bytes = encode_utf8(input);
    if is_hex_address(bytes) {
        Ok(hex_bytes(bytes))
    } else {
        Err(EncodeFault::InvalidLiteral { parameter: "address"@, value: input })
    }
}

/// Thirty-two bytes of zero: no value.
pub open spec fn no_value() -> Seq<u8> {
    Seq::new(32, |i: int| 0u8)
}

/// The call of `function` on the contract at `aurora_address` with the
/// arguments written in `parameters`. The arguments are encoded first, so a
/// fault in them comes before one in the address.
pub open spec fn prepared_call(
    aurora_address: Seq<char>,
    function: Seq<char>,
    parameters: Seq<Seq<char>>,
) -> Result<CallValue, EncodeFault> {
    match encoded_call(function, parameters) {
        Err(fault) => Err(fault),
        Ok(input) => match address_bytes(aurora_address) {
            Err(fault) => Err(fault),
            Ok(contract) => Ok(CallValue { contract, value: no_value(), input }),
        },
    }
}

/// Reads the forty hexadecimal digits of an address.
pub fn from_string_to_address(input: &str) -> (address: Result<RawAddress, EncodeError>)
    ensures
        match address {
            Ok(bytes) => address_bytes(input@) == Ok::<Seq<u8>, EncodeFault>(bytes@),
            Err(error) => address_bytes(input@) == Err::<Seq<u8>, EncodeFault>(error@),
        },
{
    match hex_decode_20(input) {
        Some(bytes) => Ok(bytes),
        None => Err(
            EncodeError::InvalidLiteral {
                parameter: "address".to_owned(),
                value: input.to_owned(),
            },
        ),
    }
}

impl ContractBridge {
    /// Prepares the call of `function` on the contract at `aurora_address`
    /// with the arguments written in `parameters`. No value goes with it.
    pub fn function_call(
        &mut self,
        aurora_address: String,
        function: String,
        parameters: Vec<String>,
    ) -> (call: Result<CallArgs, EncodeError>)
        ensures
            match call {
                Ok(CallArgs::V2(args)) => prepared_call(
                    aurora_address@,
                    function@,
                    parameters.deep_view(),
                ) == Ok::<CallValue, EncodeFault>(args@),
                Ok(CallArgs::Unused) => false,
                Err(error) => prepared_call(aurora_address@, function@, parameters.deep_view())
                    == Err::<CallValue, EncodeFault>(error@),
            },
    {
        let input = match solidity_function(function.as_str(), parameters.as_slice()) {
            Ok(input) => input,
            Err(error) => {
                return Err(error);
            },
        };
        let contract = match from_string_to_address(aurora_address.as_str()) {
            Ok(contract) => contract,
            Err(error) => {
                return Err(error);
            },
        };
        let value: RawU256 = [0u8; 32];
        assert(value@ =~= no_value());
        Ok(CallArgs::V2(FunctionCallArgsV2 { contract, value, input }))
    }
}

} // verus!
