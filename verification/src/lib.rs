use vstd::prelude::*;

pub mod matrix;
pub mod metrics;
pub mod render;
pub mod vector;

verus! {

/// Errors reported by the matrix engine.
///
/// `InvalidDimensions` is the rejection of a multiplication whose operand
/// shapes do not line up; `LengthMismatch` is the rejection of a dot product
/// over vectors of unequal length; `ChannelFailure` reports a lost reply when
/// work is fanned out to workers; `BufferLengthInvariantViolation` is the
/// rejection of a matrix whose flat buffer disagrees with its row and column
/// counts.
#[derive(Clone, Copy, Debug, PartialEq, Eq, Structural)]
pub enum Error {
    InvalidDimensions,
    LengthMismatch,
    ChannelFailure,
    BufferLengthInvariantViolation,
}

/// Errors reported by the named-counter metrics facilities.
#[derive(Clone, Copy, Debug, PartialEq, Eq, Structural)]
pub enum MetricsError {
    KeyNotFound,
    CounterOverflow,
    CounterUnderflow,
}

} // verus!
