//! Encoding a contract call from text.
//!
//! A call is given as a signature, `name(type1,type2,...)`, and one literal
//! for each parameter. The library reads each literal by its type, lays the
//! values out as the contract ABI asks, and puts the selector of the signature
//! in front.
//!
//! Every executable function states its result over the views of its
//! arguments: a `Seq<char>` for a text, a [`token::TokenValue`] for a token,
//! an [`error::EncodeFault`] for an error.

pub mod abi;
pub mod bridge;
pub mod encoder;
pub mod error;
pub mod grouping;
pub mod hash;
pub mod leaf;
pub mod literal;
pub mod numeric;
pub mod text;
pub mod token;
pub mod tokenizer;
