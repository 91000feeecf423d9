use vstd::prelude::*;

verus! {

/// The CRC-32 (IEEE) checksum of a byte sequence, as computed by zlib and by
/// the crc32fast crate. It is a function of the bytes alone.
pub uninterp spec fn crc32_of(bytes: Seq<u8>) -> u32;

/// Relies on crc32fast::hash: the CRC-32 (IEEE) checksum of the given bytes,
/// determined by the bytes alone.
#[verifier::external_body]
pub(crate) fn crc32(bytes: &[u8]) -> (r: u32)
    ensures
        r == crc32_of(bytes@),
{
    crc32fast::hash(bytes)
}

} // verus!
