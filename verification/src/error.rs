//! The ways in which encoding a call can fail.

use vstd::prelude::*;

verus! {

/// The words for a literal that could not be read.
pub const ERROR_PARSING: &'static str = "Invalid input parameter";

/// Why a signature and its values could not be encoded.
#[derive(Debug, Clone, PartialEq, Eq)]
pub enum EncodeError {
    /// The signature names `expected` parameters and `found` values were given.
    ArityMismatch { expected: usize, found: usize },
    /// `parameter` names no type that the encoder knows.
    UnsupportedType { parameter: String },
    /// The width `width` that `parameter` carries is not one its family allows.
    NumericOutOfBounds { parameter: String, width: usize },
    /// `value` is no literal of the type `parameter`.
    InvalidLiteral { parameter: String, value: String },
}

/// An [`EncodeError`] as a mathematical value.
pub enum EncodeFault {
    ArityMismatch { expected: nat, found: nat },
    UnsupportedType { parameter: Seq<char> },
    NumericOutOfBounds { parameter: Seq<char>, width: nat },
    InvalidLiteral { parameter: Seq<char>, value: Seq<char> },
}

impl View for EncodeError {
    type V = EncodeFault;

    open spec fn view(&self) -> EncodeFault {
        match self {
            EncodeError::ArityMismatch { expected, found } => EncodeFault::ArityMismatch {
                expected: *expected as nat,
                found: *found as nat,
            },
            EncodeError::UnsupportedType { parameter } => EncodeFault::UnsupportedType {
                parameter: parameter@,
            },
            EncodeError::NumericOutOfBounds { parameter, width } => {
                EncodeFault::NumericOutOfBounds { parameter: parameter@, width: *width as nat }
            },
            EncodeError::InvalidLiteral { parameter, value } => EncodeFault::InvalidLiteral {
                parameter: parameter@,
                value: value@,
            },
        }
    }
}

} // verus!
