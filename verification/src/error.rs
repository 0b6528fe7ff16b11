//! The error type of the decoders.

use vstd::prelude::*;

verus! {

/// Why a structure could not be decoded.
#[derive(Debug)]
pub enum EseError {
    /// The structure is too short for its header, or a count or offset read
    /// from it points outside it; the text names the structure.
    Corrupt(&'static str),
}

} // verus!
