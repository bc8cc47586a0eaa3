//! Decoding of legacy Ethereum transactions.
//!
//! The crate parses a Recursive Length Prefix (RLP) encoded byte buffer
//! into a tree of nodes, converts the nodes of a nine-field list into a
//! flat transaction record, and accepts its input as hex or base64 text.

use vstd::prelude::*;

pub mod cli;
pub mod convert;
pub mod input;
pub mod rlp;
pub mod transaction;

verus! {

/// The errors the decoder reports.
#[derive(Debug, Clone, Copy, PartialEq, Eq, Structural)]
pub enum Error {
    /// The input text is neither hex nor base64.
    FormatError,
    /// The bytes are not a well-formed transaction encoding.
    RlpError,
}

} // verus!
