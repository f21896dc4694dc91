use vstd::prelude::*;

verus! {

/// The ways a container, chunk, or chunk-type operation can fail.
#[derive(Clone, Copy, Debug, PartialEq, Eq, Structural)]
pub enum PngError {
    /// Chunk-type text is not exactly four ASCII characters, or holds a digit.
    InvalidTypeText,
    /// The first eight bytes of a container are not the fixed signature.
    BadSignature,
    /// Fewer bytes remain than a chunk's declared length requires.
    TruncatedChunk,
    /// A chunk's stored checksum differs from the one computed over its bytes.
    CrcMismatch,
    /// No chunk of the requested type is present.
    ChunkNotFound,
}

impl PngError {
    /// A short human-readable description of the error.
    pub fn describe(&self) -> (r: &'static str)
        ensures
            r@.len() > 0,
    {
        proof {
            reveal_strlit("invalid chunk type text");
            reveal_strlit("bad signature");
            reveal_strlit("truncated chunk");
            reveal_strlit("crc mismatch");
            reveal_strlit("chunk not found");
        }
        match self {
            PngError::InvalidTypeText => "invalid chunk type text",
            PngError::BadSignature => "bad signature",
            PngError::TruncatedChunk => "truncated chunk",
            PngError::CrcMismatch => "crc mismatch",
            PngError::ChunkNotFound => "chunk not found",
        }
    }
}

} // verus!
