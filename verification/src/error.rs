//! The two ways a decode can fail: the framing does not reconcile with the
//! buffer, or a recognised chunk carries a payload that cannot be interpreted.

use vstd::prelude::*;

verus! {

/// The length bookkeeping of a chunk record does not agree with the bytes at hand.
#[derive(Clone, Copy, Debug, PartialEq, Eq, Structural)]
pub enum FramingError {
    /// Fewer than twelve bytes stand where a record should start, so the
    /// length, the type code and the checksum cannot all be present.
    PartialRecord,
    /// The declared payload length does not match the bytes that follow the
    /// record header.
    LengthMismatch,
}

/// A recognised chunk carries a payload that cannot be interpreted.
#[derive(Clone, Copy, Debug, PartialEq, Eq, Structural)]
pub enum DecodeError {
    /// A header chunk holds fewer than the eleven bytes that are read from it.
    ShortHeader,
    /// The concatenated image-data payloads are not a complete zlib stream.
    CorruptData,
}

impl FramingError {
    /// A short description for diagnostics.
    pub fn message(&self) -> (text: &'static str)
        ensures
            text@ == match *self {
                FramingError::PartialRecord => "truncated chunk record"@,
                FramingError::LengthMismatch => "chunk length does not match the stream"@,
            },
    {
        match self {
            FramingError::PartialRecord => "truncated chunk record",
            FramingError::LengthMismatch => "chunk length does not match the stream",
        }
    }
}

impl DecodeError {
    /// A short description for diagnostics.
    pub fn message(&self) -> (text: &'static str)
        ensures
            text@ == match *self {
                DecodeError::ShortHeader => "header chunk is too short"@,
                DecodeError::CorruptData => "image data is not a complete zlib stream"@,
            },
    {
        match self {
            DecodeError::ShortHeader => "header chunk is too short",
            DecodeError::CorruptData => "image data is not a complete zlib stream",
        }
    }
}

} // verus!
