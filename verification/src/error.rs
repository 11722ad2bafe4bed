//! Errors of a conversion.

use vstd::prelude::*;

verus! {

/// Why a conversion failed.
pub enum ConversionError {
    /// The HTML could not be parsed.
    ParseError(String),
}

} // verus!
