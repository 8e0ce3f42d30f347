//! The closed set of failures reported by the codec.

use vstd::prelude::*;

verus! {

/// Why a chunk type, a chunk or a whole stream was refused, or a lookup failed.
#[derive(Debug, Clone, Copy, PartialEq, Eq, Structural)]
pub enum Error {
    /// A type-code byte is not an ASCII letter, or its reserved bit is not set.
    InvalidTypeCode,
    /// A chunk's declared length disagrees with the payload bytes it frames.
    InvalidLength { declared: u32, framed: usize },
    /// The stored CRC disagrees with the one computed over type and payload.
    InvalidChecksum { stored: u32, computed: u32 },
    /// The stream does not start with the PNG signature.
    InvalidHeader,
    /// The buffer ends before a declared structure is complete.
    TruncatedInput,
    /// No chunk has the requested type.
    RecordNotFound,
    /// A payload asked for as text is not valid UTF-8.
    NonTextPayload,
}

} // verus!
