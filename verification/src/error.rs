//! The ways in which decoding fails.

use vstd::prelude::*;

verus! {

/// Why a byte stream could not be decoded. Every failure is final: no
/// partial image is handed out.
#[derive(Clone, Copy, Debug, PartialEq, Eq, Structural)]
pub enum DecodeError {
    /// The stream does not start with the magic tag, or its colorspace byte
    /// is neither 0 nor 1.
    Format,
    /// The stream ended before the bytes that the header or an opcode needs.
    Truncation,
    /// An opcode stands for more samples than the image has left.
    Overrun,
}

impl DecodeError {
    /// A short description of the failure.
    pub fn message(&self) -> (s: &'static str)
        ensures
            s@ == Self::message_of(*self),
    {
        match self {
            DecodeError::Format => "malformed header",
            DecodeError::Truncation => "unexpected end of stream",
            DecodeError::Overrun => "opcode runs past the end of the image",
        }
    }

    /// The text that [`DecodeError::message`] returns for each failure.
    pub open spec fn message_of(e: DecodeError) -> Seq<char> {
        match e {
            DecodeError::Format => "malformed header"@,
            DecodeError::Truncation => "unexpected end of stream"@,
            DecodeError::Overrun => "opcode runs past the end of the image"@,
        }
    }
}

} // verus!
