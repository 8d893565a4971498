//! The errors that parsing and decoding report.
use vstd::prelude::*;

verus! {

/// Why a bitstream was refused.
#[derive(Debug, Clone, Copy, PartialEq, Eq, Structural)]
pub enum ParseError {
    /// The data ended before a syntax element was complete.
    Truncated,
    /// A padding bit that has to be zero was set.
    TrailingBits,
    /// A transform size index outside the known transform sizes.
    TxSizeRange,
    /// A plane index above 2.
    PlaneRange,
    /// A transform set without a probability table for the transform size.
    TxTypeTable,
    /// A Golomb prefix longer than the format allows.
    GolombLength,
}

/// What the decoder recognises but does not decode.
#[derive(Debug, Clone, Copy, PartialEq, Eq, Structural)]
pub enum Feature {
    /// Display of a frame that was decoded earlier.
    ShowExistingFrame,
    /// Coefficients of a transform size without a scan table.
    TransformSize,
}

/// The error type of the library.
#[derive(Debug, Clone, Copy, PartialEq, Eq, Structural)]
pub enum KinetixError {
    /// The bitstream is malformed.
    Parse(ParseError),
    /// The bitstream uses a feature that is not decoded.
    Unsupported(Feature),
    /// Strict mode refuses a frame that is not reconstructed exactly.
    NotPixelExact,
}

} // verus!
