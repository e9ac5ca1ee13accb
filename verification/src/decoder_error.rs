//! The closed set of failures a [`crate::Decoder`] can report.

use vstd::prelude::*;

verus! {

/// Why decoding failed.
#[derive(Clone, Copy, PartialEq, Eq, Structural, Debug)]
pub enum ErrorCode {
    /// A read was attempted after the document's root value closed.
    EndOfStream,
    /// A dictionary reference named an index at or past the dictionary's end.
    InvalidDictionaryIndex,
    /// A length position held a marker byte outside the recognized set.
    InvalidLength,
    /// A value position held a tag byte outside the recognized set.
    InvalidType,
    /// A string payload was not valid UTF-8.
    InvalidUTF8,
    /// A declared payload length exceeded the bytes remaining in the buffer.
    UnexpectedEOF,
}

/// A decoding failure. Every failure aborts the current read and leaves the
/// document untrustworthy; callers should discard it rather than resume.
#[derive(Clone, Copy, PartialEq, Eq, Structural, Debug)]
pub enum DecoderError {
    StreamError(ErrorCode),
}

/// Outcome of one decoding operation.
pub type DecoderResult<T> = Result<T, DecoderError>;

} // verus!
