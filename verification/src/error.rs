use vstd::prelude::*;

verus! {

/// The closed set of errors this library returns.
#[derive(Debug, Clone)]
pub enum BitcoinError {
    /// The byte sequence is not a complete, exact transaction record:
    /// it is too short, a field is truncated, or bytes trail the record.
    InvalidTransaction,
    /// Reserved for validation of script contents; the codec treats
    /// scripts as opaque bytes and never returns this.
    InvalidScript,
    /// Reserved for validation of value fields; the codec accepts every
    /// 64-bit value and never returns this.
    InvalidAmount,
    /// A descriptive message from the command-line interpreter.
    ParseError(String),
}

} // verus!
