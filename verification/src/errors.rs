use vstd::prelude::*;

verus! {

/// The ways parsing or construction can fail: a type code with a non-letter
/// byte, a buffer too small for a well-formed chunk or container tail, a
/// stored checksum that disagrees with the one computed over the chunk's
/// bytes, a leading signature that is not the fixed one, and payload bytes
/// that are not valid UTF-8 when text was requested.
#[derive(Debug, Clone, Copy, PartialEq, Eq, Structural)]
pub enum PngError {
    InvalidTypeCode,
    TooShort,
    ChecksumMismatch,
    BadSignature,
    NotUtf8,
}

/// Returned by removal when the container holds no chunk of the requested
/// type; carries the type text that was asked for.
#[derive(Debug, Clone)]
pub struct ChunkNotFound {
    chunk_type: String,
}

impl ChunkNotFound {
    /// The type text that was looked for and not found.
    pub closed spec fn spec_chunk_type(&self) -> Seq<char> {
        self.chunk_type@
    }

    pub fn new(chunk_type: String) -> (r: ChunkNotFound)
        ensures
            r.spec_chunk_type() == chunk_type@,
    {
        ChunkNotFound { chunk_type }
    }

    pub fn chunk_type(&self) -> (r: &String)
        ensures
            r@ == self.spec_chunk_type(),
    {
        &self.chunk_type
    }
}

} // verus!
