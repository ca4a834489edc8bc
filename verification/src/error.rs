//! Error types shared by the perception engine.

use vstd::prelude::*;
use vstd::string::StringExecFns;

use crate::text::{decimal, decimal_string};

verus! {

/// Failures that callers can handle without relying on panics or string matching.
#[derive(Clone, Debug, PartialEq)]
pub enum PerceptionError {
    /// Width, height, or another shape component is invalid.
    InvalidDimensions { width: u32, height: u32 },
    /// Supplied bytes cannot represent the declared image buffer.
    InvalidBuffer { expected: usize, actual: usize },
    /// A row stride is smaller than the minimum required width.
    StrideMismatch { minimum: usize, actual: usize },
    /// A requested format is valid but unsupported by an operation.
    UnsupportedFormat { operation: &'static str, format: String },
    /// A coordinate, region, or index is outside of valid bounds.
    OutOfBounds { reason: String },
    /// Checked arithmetic overflowed while calculating a buffer or index.
    Overflow,
    /// A finite numerical result could not be produced.
    NumericFailure { reason: String },
    /// Input geometry has insufficient rank, area, or separation.
    DegenerateGeometry { reason: String },
    /// A matrix has no numerically stable inverse.
    NonInvertibleMatrix,
    /// An algorithm did not receive enough input samples.
    InsufficientPoints { required: usize, actual: usize },
    /// A confidence-like score was non-finite or outside the closed unit interval;
    /// the offending value is carried as `Display` renders it.
    InvalidConfidence { value: String },
    /// An API is deliberately reserved for a future implementation.
    UnsupportedOperation { operation: &'static str },
}

/// Result alias used by fallible perception APIs.
pub type PerceptionResult<T> = Result<T, PerceptionError>;

/// The message `Display` renders for `error`.
pub open spec fn error_text(error: PerceptionError) -> Seq<char> {
    match error {
        PerceptionError::InvalidDimensions { width, height } => "invalid dimensions "@ + decimal(width as nat) + "x"@
            + decimal(height as nat),
        PerceptionError::InvalidBuffer { expected, actual } => "invalid buffer length: expected "@ + decimal(
            expected as nat,
        ) + ", got "@ + decimal(actual as nat),
        PerceptionError::StrideMismatch { minimum, actual } => "invalid stride: minimum "@ + decimal(minimum as nat)
            + ", got "@ + decimal(actual as nat),
        PerceptionError::UnsupportedFormat { operation, format } => operation@ + " does not support "@ + format@,
        PerceptionError::OutOfBounds { reason } => "out of bounds: "@ + reason@,
        PerceptionError::Overflow => "checked arithmetic overflow"@,
        PerceptionError::NumericFailure { reason } => "numeric failure: "@ + reason@,
        PerceptionError::DegenerateGeometry { reason } => "degenerate geometry: "@ + reason@,
        PerceptionError::NonInvertibleMatrix => "matrix is non-invertible"@,
        PerceptionError::InsufficientPoints { required, actual } => "insufficient points: need "@ + decimal(
            required as nat,
        ) + ", got "@ + decimal(actual as nat),
        PerceptionError::InvalidConfidence { value } => "invalid confidence "@ + value@,
        PerceptionError::UnsupportedOperation { operation } => "unsupported operation: "@ + operation@,
    }
}

/// Appends the decimal rendering of `n`.
fn append_number(text: &mut String, n: usize)
    ensures
        final(text)@ == old(text)@ + decimal(n as nat),
{
    let digits = decimal_string(n as u64);
    text.append(digits.as_str());
}

impl PerceptionError {
    /// The human-readable message, as `Display` renders it.
    pub fn to_text(&self) -> (text: String)
        ensures
            text@ == error_text(*self),
    {
        match self {
            PerceptionError::InvalidDimensions { width, height } => {
                let mut text = String::from_str("invalid dimensions ");
                append_number(&mut text, *width as usize);
                text.append("x");
                append_number(&mut text, *height as usize);
                text
            },
            PerceptionError::InvalidBuffer { expected, actual } => {
                let mut text = String::from_str("invalid buffer length: expected ");
                append_number(&mut text, *expected);
                text.append(", got ");
                append_number(&mut text, *actual);
                text
            },
            PerceptionError::StrideMismatch { minimum, actual } => {
                let mut text = String::from_str("invalid stride: minimum ");
                append_number(&mut text, *minimum);
                text.append(", got ");
                append_number(&mut text, *actual);
                text
            },
            PerceptionError::UnsupportedFormat { operation, format } => {
                let mut text = String::from_str(operation);
                text.append(" does not support ");
                text.append(format.as_str());
                text
            },
            PerceptionError::OutOfBounds { reason } => {
                let mut text = String::from_str("out of bounds: ");
                text.append(reason.as_str());
                text
            },
            PerceptionError::Overflow => String::from_str("checked arithmetic overflow"),
            PerceptionError::NumericFailure { reason } => {
                let mut text = String::from_str("numeric failure: ");
                text.append(reason.as_str());
                text
            },
            PerceptionError::DegenerateGeometry { reason } => {
                let mut text = String::from_str("degenerate geometry: ");
                text.append(reason.as_str());
                text
            },
            PerceptionError::NonInvertibleMatrix => String::from_str("matrix is non-invertible"),
            PerceptionError::InsufficientPoints { required, actual } => {
                let mut text = String::from_str("insufficient points: need ");
                append_number(&mut text, *required);
                text.append(", got ");
                append_number(&mut text, *actual);
                text
            },
            PerceptionError::InvalidConfidence { value } => {
                let mut text = String::from_str("invalid confidence ");
                text.append(value.as_str());
                text
            },
            PerceptionError::UnsupportedOperation { operation } => {
                let mut text = String::from_str("unsupported operation: ");
                text.append(operation);
                text
            },
        }
    }
}

} // verus!
