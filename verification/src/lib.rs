//! Codec for the chunked container format of PNG: a fixed 8-byte signature
//! followed by self-describing records ("chunks"), each carrying a 4-byte
//! type code, an opaque payload, and a CRC-32 checksum over type and payload.

pub mod be_bytes;
pub mod chunk;
pub mod chunk_type;
pub mod png;

use vstd::prelude::*;

verus! {

/// Every way a container or chunk operation can fail.
#[derive(Clone, Copy, Debug, PartialEq, Eq, Structural)]
pub enum PngError {
    /// The first 8 bytes do not match the fixed signature.
    BadSignature,
    /// The buffer ends before a declared length or field is satisfied.
    TruncatedInput,
    /// The decoded checksum disagrees with the recomputed one.
    ChecksumMismatch,
    /// The buffer was exhausted without a terminator chunk.
    MissingTerminator,
    /// Chunk-type text had the wrong length or a byte outside ASCII letters.
    InvalidFormat,
    /// A payload requested as text is not valid UTF-8.
    InvalidEncoding,
    /// No chunk with the requested type code exists.
    NotFound,
}

} // verus!
