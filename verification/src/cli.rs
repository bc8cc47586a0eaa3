//! The caller-supplied options: the transaction text and the estimate
//! flag.  Reading them from the command line is left to the surrounding
//! program.

use vstd::prelude::*;

verus! {

/// What a caller asks for: the transaction text, and whether estimate
/// mode (a sender address ahead of the payload) is in effect.
pub struct Args {
    pub estimate: bool,
    pub transaction: String,
}

} // verus!
