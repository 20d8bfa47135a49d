//! Error kinds of the protocol layer.

use vstd::prelude::*;

verus! {

/// Why a decimal string could not be converted to a tick count.
#[derive(Copy, Clone, PartialEq, Eq, Structural, Debug)]
pub enum ConversionError {
    /// The input is not a decimal number of the form `digits` or
    /// `digits.digits`.
    NotParseable,
    /// The input is a decimal number, but carries more fractional precision
    /// than the tick resolution supports.
    TooPrecise,
    /// The converted tick count does not fit in the integer range.
    Overflow,
}

/// A connection-level error. Every variant except `Transport` can arise
/// while a received frame is processed; all of them are fatal to the
/// connection that raised them.
#[derive(Clone, PartialEq, Eq, Debug)]
pub enum Error {
    /// Connection setup or I/O failed.
    Transport,
    /// A frame was malformed or did not match the schema of its tag.
    Decode,
    /// A price or size field could not be converted to ticks.
    Conversion(ConversionError),
    /// The exchange sent an explicit error frame; the payload is its message.
    Protocol(String),
    /// Signing the authentication block failed.
    Signature,
}

} // verus!
