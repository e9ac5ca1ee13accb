//! The closed set of failures an [`crate::Encoder`] can report.

use vstd::prelude::*;

verus! {

/// Why encoding failed.
#[derive(Clone, Copy, PartialEq, Eq, Structural, Debug)]
pub enum ErrorCode {
    /// A write was attempted after the root value closed and its frame was
    /// discarded.
    EndOfStream,
    /// A string referred to a dictionary slot that does not exist.
    InvalidDictionaryIndex,
    /// An end arrived while a streaming structure's accounting condition was
    /// unsatisfied.
    InvalidEnd,
    /// A counted structure was closed before its declared count was
    /// satisfied, or received more children than its declared count permits.
    MissingEnd,
    /// Any write after a structural violation: the encoder is poisoned and
    /// cannot resume past a contract violation.
    InvalidState,
}

/// An encoding failure. A structural violation permanently poisons the
/// encoder; every later write reports `InvalidState`.
#[derive(Clone, Copy, PartialEq, Eq, Structural, Debug)]
pub enum EncoderError {
    StreamError(ErrorCode),
}

/// Outcome of one encoding operation.
pub type EncoderResult<T> = Result<T, EncoderError>;

} // verus!
