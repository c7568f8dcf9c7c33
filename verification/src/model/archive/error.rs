//! The failures of encoding and decoding.

use vstd::prelude::*;

verus! {

/// Why a value could not be read from a buffer.
#[derive(Debug, Clone, Copy, PartialEq, Eq, Structural)]
pub enum DecodeError {
    /// The tag of an optional value is neither 0 nor 1.
    InvalidTag,
    /// An instant or a date lies outside what its type can hold.
    OutOfRange,
    /// A header, or the span that a header describes, does not lie within the
    /// buffer, or a span of text is not well-formed UTF-8.
    CorruptLength,
}

/// Why a value could not be written to a buffer.
#[derive(Debug, Clone, Copy, PartialEq, Eq, Structural)]
pub enum EncodeError {
    /// The buffer would grow beyond
    /// [`MAX_ARCHIVE_LEN`](super::layout::MAX_ARCHIVE_LEN).
    OutOfSpace,
}

} // verus!
