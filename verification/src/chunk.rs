use vstd::prelude::*;
use vstd::slice::slice_subrange;
use vstd::slice::slice_to_vec;
use vstd::utf8::decode_utf8;
use vstd::utf8::valid_utf8;

use crate::big_endian::lemma_u32_be_round_trip;
use crate::big_endian::lemma_u32_from_be_injective;
use crate::big_endian::spec_u32_from_be;
use crate::big_endian::spec_u32_to_be;
use crate::big_endian::u32_from_be;
use crate::big_endian::u32_to_be;
use crate::chunk_type::all_letters;
use crate::chunk_type::ChunkType;
use crate::crc::crc32;
use crate::crc::crc32_of;
use crate::errors::PngError;
use crate::text::utf8_to_string;

verus! {

/// The mathematical content of one chunk: its four type bytes, its payload,
/// and its stored checksum.
#[verifier::ext_equal]
pub ghost struct ChunkView {
    pub ty: Seq<u8>,
    pub data: Seq<u8>,
    pub crc: u32,
}

impl ChunkView {
    /// Well-formed: four ASCII-letter type bytes, a payload that fits the
    /// 4-byte length field, and a checksum that is the CRC-32 of the type
    /// bytes followed by the payload.
    pub open spec fn wf(self) -> bool {
        &&& self.ty.len() == 4
        &&& all_letters(self.ty)
        &&& self.data.len() <= u32::MAX
        &&& self.crc == crc32_of(self.ty + self.data)
    }
}

/// The on-disk layout of one chunk: 4-byte big-endian payload length, the
/// four type bytes, the payload, and the 4-byte big-endian checksum.
pub open spec fn spec_chunk_bytes(c: ChunkView) -> Seq<u8> {
    spec_u32_to_be(c.data.len() as u32) + c.ty + c.data + spec_u32_to_be(c.crc)
}

/// What reading one chunk record out of a whole byte buffer yields: the
/// buffer must hold at least the 12 framing bytes; bytes 4 to 8 are the type,
/// everything up to the last four bytes is the payload, and the final four
/// bytes must store the CRC-32 of type and payload.
pub open spec fn spec_chunk_from_bytes(b: Seq<u8>) -> Result<ChunkView, PngError> {
    if b.len() < 12 {
        Err(PngError::TooShort)
    } else {
        let ty = b.subrange(4, 8);
        let data = b.subrange(8, b.len() - 4);
        let stored = spec_u32_from_be(
            b[b.len() - 4],
            b[b.len() - 3],
            b[b.len() - 2],
            b[b.len() - 1],
        );
        if !all_letters(ty) {
            Err(PngError::InvalidTypeCode)
        } else if crc32_of(ty + data) != stored {
            Err(PngError::ChecksumMismatch)
        } else {
            Ok(ChunkView { ty, data, crc: stored })
        }
    }
}

/// One length-prefixed, checksummed record: a type code, an opaque payload,
/// and the CRC-32 over both.
#[derive(Debug)]
pub struct Chunk {
    chunk_type: ChunkType,
    data: Vec<u8>,
    crc: u32,
}

impl View for Chunk {
    type V = ChunkView;

    closed spec fn view(&self) -> ChunkView {
        ChunkView { ty: self.chunk_type@, data: self.data@, crc: self.crc }
    }
}

impl Chunk {
    /// Builds a chunk from a type code and a payload, computing the checksum
    /// over the type bytes followed by the payload.
    pub fn new(chunk_type: ChunkType, data: Vec<u8>) -> (r: Chunk)
        requires
            chunk_type.wf(),
            data@.len() <= u32::MAX,
        ensures
            r@.ty == chunk_type@,
            r@.data == data@,
            r@.crc == crc32_of(chunk_type@ + data@),
            r@.wf(),
    {
        let ty_bytes = chunk_type.bytes();
        let mut buf: Vec<u8> = Vec::new();
        buf.extend_from_slice(ty_bytes.as_slice());
        buf.extend_from_slice(data.as_slice());
        let crc = crc32(buf.as_slice());
        proof {
            assert(buf@ =~= chunk_type@ + data@);
        }
        Chunk { chunk_type, data, crc }
    }

    /// Reads one chunk record from a byte buffer, per
    /// `spec_chunk_from_bytes`: `TooShort` under 12 bytes, `InvalidTypeCode`
    /// on a non-letter type byte, `ChecksumMismatch` when the stored checksum
    /// is not the CRC-32 of type and payload, and otherwise exactly the chunk
    /// the buffer holds.
    pub fn from_bytes(data: &[u8]) -> (r: Result<Chunk, PngError>)
        requires
            data@.len() <= u32::MAX as int + 12,
        ensures
            r matches Ok(c) ==> spec_chunk_from_bytes(data@) == Ok::<ChunkView, PngError>(c@)
                && c@.wf(),
            r matches Err(e) ==> spec_chunk_from_bytes(data@) == Err::<ChunkView, PngError>(e),
    {
        let n = data.len();
        if n < 12 {
            return Err(PngError::TooShort);
        }
        let ty_arr: [u8; 4] = [data[4], data[5], data[6], data[7]];
        proof {
            assert(ty_arr@ =~= data@.subrange(4, 8));
        }
        let chunk_type = match ChunkType::parse_bytes(ty_arr) {
            Ok(t) => t,
            Err(e) => {
                return Err(e);
            },
        };
        let payload = slice_to_vec(slice_subrange(data, 8, n - 4));
        let stored = u32_from_be(data[n - 4], data[n - 3], data[n - 2], data[n - 1]);
        let ty_bytes = chunk_type.bytes();
        let mut buf: Vec<u8> = Vec::new();
        buf.extend_from_slice(ty_bytes.as_slice());
        buf.extend_from_slice(payload.as_slice());
        let computed = crc32(buf.as_slice());
        proof {
            assert(buf@ =~= data@.subrange(4, 8) + data@.subrange(8, n - 4));
        }
        if computed != stored {
            return Err(PngError::ChecksumMismatch);
        }
        let c = Chunk { chunk_type, data: payload, crc: stored };
        proof {
            assert(c@ =~= spec_chunk_from_bytes(data@)->Ok_0);
        }
        Ok(c)
    }

    /// The payload byte count, as the unsigned 32-bit value the length field
    /// stores.
    pub fn length(&self) -> (r: u32)
        requires
            self@.data.len() <= u32::MAX,
        ensures
            r == self@.data.len(),
    {
        self.data.len() as u32
    }

    pub fn chunk_type(&self) -> (r: &ChunkType)
        ensures
            r@ == self@.ty,
    {
        &self.chunk_type
    }

    pub fn data(&self) -> (r: &[u8])
        ensures
            r@ == self@.data,
    {
        self.data.as_slice()
    }

    pub fn crc(&self) -> (r: u32)
        ensures
            r == self@.crc,
    {
        self.crc
    }

    /// The payload decoded as UTF-8 text; fails with `NotUtf8` exactly when
    /// the payload is not valid UTF-8.
    pub fn data_as_string(&self) -> (r: Result<String, PngError>)
        ensures
            r is Ok <==> valid_utf8(self@.data),
            r matches Ok(s) ==> s@ == decode_utf8(self@.data),
            r matches Err(e) ==> e == PngError::NotUtf8,
    {
        match utf8_to_string(slice_to_vec(self.data.as_slice())) {
            Some(s) => Ok(s),
            None => Err(PngError::NotUtf8),
        }
    }

    /// Serializes the chunk to its exact on-disk layout.
    pub fn as_bytes(&self) -> (r: Vec<u8>)
        requires
            self@.data.len() <= u32::MAX,
        ensures
            r@ == spec_chunk_bytes(self@),
    {
        let mut out: Vec<u8> = Vec::new();
        let len_bytes = u32_to_be(self.data.len() as u32);
        out.extend_from_slice(len_bytes.as_slice());
        let ty_bytes = self.chunk_type.bytes();
        out.extend_from_slice(ty_bytes.as_slice());
        out.extend_from_slice(self.data.as_slice());
        let crc_bytes = u32_to_be(self.crc);
        out.extend_from_slice(crc_bytes.as_slice());
        proof {
            assert(out@ =~= spec_chunk_bytes(self@));
        }
        out
    }
}

/// Serializing a well-formed chunk and reading the bytes back yields the same
/// chunk: the same type bytes, the same payload, and a checksum that matches
/// the one recomputed over them.
pub proof fn lemma_chunk_round_trip(c: ChunkView)
    requires
        c.wf(),
    ensures
        spec_chunk_from_bytes(spec_chunk_bytes(c)) == Ok::<ChunkView, PngError>(c),
{
    let b = spec_chunk_bytes(c);
    assert(b.len() == 12 + c.data.len());
    assert(b.subrange(4, 8) =~= c.ty);
    assert(b.subrange(8, b.len() - 4) =~= c.data);
    lemma_u32_be_round_trip(c.crc);
    assert(b[b.len() - 4] == spec_u32_to_be(c.crc)[0]);
    assert(b[b.len() - 3] == spec_u32_to_be(c.crc)[1]);
    assert(b[b.len() - 2] == spec_u32_to_be(c.crc)[2]);
    assert(b[b.len() - 1] == spec_u32_to_be(c.crc)[3]);
    assert(spec_chunk_from_bytes(b)->Ok_0 =~= c);
}

/// Corrupting any single byte of a serialized chunk's checksum field makes
/// reading it back fail with `ChecksumMismatch`.
pub proof fn lemma_checksum_tamper(c: ChunkView, b: Seq<u8>, i: int)
    requires
        c.wf(),
        b.len() == spec_chunk_bytes(c).len(),
        spec_chunk_bytes(c).len() - 4 <= i < spec_chunk_bytes(c).len(),
        b[i] != spec_chunk_bytes(c)[i],
        forall|j: int| 0 <= j < b.len() && j != i ==> b[j] == spec_chunk_bytes(c)[j],
    ensures
        spec_chunk_from_bytes(b) == Err::<ChunkView, PngError>(PngError::ChecksumMismatch),
{
    let s = spec_chunk_bytes(c);
    assert(s.len() == 12 + c.data.len());
    assert(b.subrange(4, 8) =~= s.subrange(4, 8));
    assert(s.subrange(4, 8) =~= c.ty);
    assert(b.subrange(8, b.len() - 4) =~= s.subrange(8, s.len() - 4));
    assert(s.subrange(8, s.len() - 4) =~= c.data);
    let n = b.len();
    let stored = spec_u32_from_be(b[n - 4], b[n - 3], b[n - 2], b[n - 1]);
    assert(s[n - 4] == spec_u32_to_be(c.crc)[0]);
    assert(s[n - 3] == spec_u32_to_be(c.crc)[1]);
    assert(s[n - 2] == spec_u32_to_be(c.crc)[2]);
    assert(s[n - 1] == spec_u32_to_be(c.crc)[3]);
    lemma_u32_be_round_trip(c.crc);
    if stored == c.crc {
        lemma_u32_from_be_injective(
            b[n - 4],
            b[n - 3],
            b[n - 2],
            b[n - 1],
            s[n - 4],
            s[n - 3],
            s[n - 2],
            s[n - 1],
        );
    }
    assert(stored != c.crc);
}

} // verus!
