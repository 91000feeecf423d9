use vstd::prelude::*;
use vstd::slice::slice_subrange;

use crate::big_endian::lemma_u32_be_round_trip;
use crate::big_endian::spec_u32_from_be;
use crate::big_endian::spec_u32_to_be;
use crate::big_endian::u32_from_be;
use crate::chunk::lemma_chunk_round_trip;
use crate::chunk::spec_chunk_bytes;
use crate::chunk::spec_chunk_from_bytes;
use crate::chunk::Chunk;
use crate::chunk::ChunkView;
use crate::chunk_type::type_text_matches;
use crate::errors::ChunkNotFound;
use crate::errors::PngError;

verus! {

/// The eight fixed bytes that begin every container.
pub open spec fn spec_signature() -> Seq<u8> {
    seq![0x89u8, 0x50u8, 0x4eu8, 0x47u8, 0x0du8, 0x0au8, 0x1au8, 0x0au8]
}

fn signature() -> (r: [u8; 8])
    ensures
        r@ == spec_signature(),
{
    let r: [u8; 8] = [0x89, 0x50, 0x4e, 0x47, 0x0d, 0x0a, 0x1a, 0x0a];
    proof {
        assert(r@ =~= spec_signature());
    }
    r
}

/// The concatenated on-disk form of a sequence of chunks, in order.
pub open spec fn spec_chunks_bytes(cs: Seq<ChunkView>) -> Seq<u8>
    decreases cs.len(),
{
    if cs.len() == 0 {
        Seq::empty()
    } else {
        spec_chunk_bytes(cs[0]) + spec_chunks_bytes(cs.drop_first())
    }
}

/// The on-disk form of a whole container: the signature, then each chunk's
/// serialized record in sequence order.
pub open spec fn spec_png_bytes(cs: Seq<ChunkView>) -> Seq<u8> {
    spec_signature() + spec_chunks_bytes(cs)
}

/// What parsing the byte stream after the signature yields. Records are read
/// one after the other, each sized by its leading 4-byte big-endian length
/// field; a non-empty tail shorter than one record is `TooShort`; each record
/// is read per `spec_chunk_from_bytes`, and the first failure aborts the
/// whole parse.
pub open spec fn spec_parse_chunks(b: Seq<u8>) -> Result<Seq<ChunkView>, PngError>
    decreases b.len(),
{
    if b.len() == 0 {
        Ok(Seq::empty())
    } else if b.len() < 12 {
        Err(PngError::TooShort)
    } else {
        let n = spec_u32_from_be(b[0], b[1], b[2], b[3]) as int;
        if b.len() < 12 + n {
            Err(PngError::TooShort)
        } else {
            match spec_chunk_from_bytes(b.subrange(0, 12 + n)) {
                Err(e) => Err(e),
                Ok(c) => match spec_parse_chunks(b.skip(12 + n)) {
                    Err(e) => Err(e),
                    Ok(rest) => Ok(seq![c] + rest),
                },
            }
        }
    }
}

/// What parsing a whole buffer yields: a buffer under 8 bytes is `TooShort`,
/// one whose first 8 bytes are not the signature is `BadSignature`, and
/// otherwise the chunks read from the rest.
pub open spec fn spec_parse(b: Seq<u8>) -> Result<Seq<ChunkView>, PngError> {
    if b.len() < 8 {
        Err(PngError::TooShort)
    } else if b.subrange(0, 8) != spec_signature() {
        Err(PngError::BadSignature)
    } else {
        spec_parse_chunks(b.skip(8))
    }
}

/// Every chunk of the sequence is well-formed.
pub open spec fn all_wf(cs: Seq<ChunkView>) -> bool {
    forall|i: int| 0 <= i < cs.len() ==> (#[trigger] cs[i]).wf()
}

fn type_matches(c: &Chunk, s: &str) -> (r: bool)
    ensures
        r == type_text_matches(c@.ty, s@),
{
    if s.unicode_len() != 4 {
        return false;
    }
    let tb = c.chunk_type().bytes();
    let mut k: usize = 0;
    while k < 4
        invariant
            0 <= k <= 4,
            s@.len() == 4,
            tb@ == c@.ty,
            tb@.len() == 4,
            forall|j: int| 0 <= j < k ==> (#[trigger] s@[j]) as u32 == c@.ty[j] as u32,
        decreases 4 - k,
    {
        let ch = s.get_char(k);
        if (ch as u32) != (tb[k] as u32) {
            return false;
        }
        k += 1;
    }
    true
}

/// The container: an ordered sequence of chunks behind the fixed signature.
#[derive(Debug)]
pub struct Png {
    chunks: Vec<Chunk>,
}

impl View for Png {
    type V = Seq<ChunkView>;

    closed spec fn view(&self) -> Seq<ChunkView> {
        self.chunks@.map_values(|c: Chunk| c@)
    }
}

impl Png {
    /// Every held chunk is well-formed.
    pub open spec fn wf(&self) -> bool {
        all_wf(self@)
    }

    /// An empty container.
    pub fn new() -> (r: Png)
        ensures
            r@ == Seq::<ChunkView>::empty(),
            r.wf(),
    {
        let r = Png { chunks: Vec::new() };
        proof {
            assert(r@ =~= Seq::<ChunkView>::empty());
        }
        r
    }

    /// A container holding the given chunks, in the given order.
    pub fn from_chunks(chunks: Vec<Chunk>) -> (r: Png)
        ensures
            r@.len() == chunks@.len(),
            forall|i: int| 0 <= i < chunks@.len() ==> r@[i] == (#[trigger] chunks@[i])@,
    {
        Png { chunks }
    }

    /// Appends a chunk at the end of the sequence; always succeeds.
    pub fn append_chunk(&mut self, chunk: Chunk)
        ensures
            final(self)@ == old(self)@.push(chunk@),
    {
        self.chunks.push(chunk);
        proof {
            assert(self@ =~= old(self)@.push(chunk@));
        }
    }

    /// The full ordered chunk sequence, read-only.
    pub fn chunks(&self) -> (r: &Vec<Chunk>)
        ensures
            r@.len() == self@.len(),
            forall|i: int| 0 <= i < self@.len() ==> (#[trigger] r@[i])@ == self@[i],
    {
        &self.chunks
    }

    /// The first chunk, in sequence order, whose type's text form equals the
    /// given text, or `None` when no chunk's type matches.
    pub fn chunk_by_type(&self, chunk_type: &str) -> (r: Option<&Chunk>)
        ensures
            match r {
                Some(c) => exists|i: int|
                    0 <= i < self@.len() && type_text_matches((#[trigger] self@[i]).ty, chunk_type@)
                        && c@ == self@[i] && (forall|j: int|
                        0 <= j < i ==> !type_text_matches(self@[j].ty, chunk_type@)),
                None => forall|i: int|
                    0 <= i < self@.len() ==> !type_text_matches(
                        (#[trigger] self@[i]).ty,
                        chunk_type@,
                    ),
            },
    {
        let n = self.chunks.len();
        let mut idx: usize = 0;
        while idx < n
            invariant
                0 <= idx <= n,
                n == self@.len(),
                forall|j: int|
                    0 <= j < idx ==> !type_text_matches((#[trigger] self@[j]).ty, chunk_type@),
            decreases n - idx,
        {
            if type_matches(&self.chunks[idx], chunk_type) {
                proof {
                    assert((idx as int) < self@.len() && type_text_matches(
                        self@[idx as int].ty,
                        chunk_type@,
                    ) && (forall|j: int|
                        0 <= j < idx as int ==> !type_text_matches(self@[j].ty, chunk_type@)));
                }
                return Some(&self.chunks[idx]);
            }
            idx += 1;
        }
        None
    }

    /// Removes and returns the first chunk whose type's text form equals the
    /// given text; fails with `ChunkNotFound` and leaves the sequence
    /// unchanged when no chunk's type matches.
    pub fn remove_chunk(&mut self, chunk_type: &str) -> (r: Result<Chunk, ChunkNotFound>)
        ensures
            match r {
                Ok(c) => exists|i: int|
                    0 <= i < old(self)@.len() && type_text_matches(
                        (#[trigger] old(self)@[i]).ty,
                        chunk_type@,
                    ) && (forall|j: int|
                        0 <= j < i ==> !type_text_matches(old(self)@[j].ty, chunk_type@)) && c@
                        == old(self)@[i] && final(self)@ == old(self)@.remove(i),
                Err(e) => final(self)@ == old(self)@ && (forall|i: int|
                    0 <= i < old(self)@.len() ==> !type_text_matches(
                        (#[trigger] old(self)@[i]).ty,
                        chunk_type@,
                    )) && e.spec_chunk_type() == chunk_type@,
            },
    {
        let n = self.chunks.len();
        let mut idx: usize = 0;
        while idx < n
            invariant
                0 <= idx <= n,
                n == self@.len(),
                self.chunks@ == old(self).chunks@,
                forall|j: int|
                    0 <= j < idx ==> !type_text_matches((#[trigger] self@[j]).ty, chunk_type@),
            decreases n - idx,
        {
            if type_matches(&self.chunks[idx], chunk_type) {
                proof {
                    assert((idx as int) < old(self)@.len() && type_text_matches(
                        old(self)@[idx as int].ty,
                        chunk_type@,
                    ) && (forall|j: int|
                        0 <= j < idx as int ==> !type_text_matches(
                            old(self)@[j].ty,
                            chunk_type@,
                        )));
                }
                let c = self.chunks.remove(idx);
                proof {
                    assert(self@ =~= old(self)@.remove(idx as int));
                    assert(c@ == old(self)@[idx as int]);
                }
                return Ok(c);
            }
            idx += 1;
        }
        Err(ChunkNotFound::new(chunk_type.to_owned()))
    }

    /// Parses a whole byte buffer into a container, per `spec_parse`: the
    /// signature must lead, and the rest is consumed record by record; any
    /// chunk failure aborts the parse with that chunk's error.
    pub fn parse(data: &[u8]) -> (r: Result<Png, PngError>)
        ensures
            r matches Ok(p) ==> spec_parse(data@) == Ok::<Seq<ChunkView>, PngError>(p@) && p.wf(),
            r matches Err(e) ==> spec_parse(data@) == Err::<Seq<ChunkView>, PngError>(e),
    {
        let n = data.len();
        if n < 8 {
            return Err(PngError::TooShort);
        }
        let sig = signature();
        let mut k: usize = 0;
        while k < 8
            invariant
                0 <= k <= 8,
                8 <= n == data@.len(),
                sig@ == spec_signature(),
                forall|j: int| 0 <= j < k ==> data@[j] == spec_signature()[j],
            decreases 8 - k,
        {
            if data[k] != sig[k] {
                proof {
                    assert(data@.subrange(0, 8)[k as int] != spec_signature()[k as int]);
                }
                return Err(PngError::BadSignature);
            }
            k += 1;
        }
        proof {
            assert(data@.subrange(0, 8) =~= spec_signature());
        }
        let mut chunks: Vec<Chunk> = Vec::new();
        let mut pos: usize = 8;
        while pos < n
            invariant
                8 <= pos <= n,
                n == data@.len(),
                data@.subrange(0, 8) == spec_signature(),
                forall|j: int| 0 <= j < chunks@.len() ==> (#[trigger] chunks@[j])@.wf(),
                spec_parse_chunks(data@.skip(8)) == (match spec_parse_chunks(
                    data@.skip(pos as int),
                ) {
                    Ok(rest) => Ok::<Seq<ChunkView>, PngError>(
                        chunks@.map_values(|c: Chunk| c@) + rest,
                    ),
                    Err(e) => Err::<Seq<ChunkView>, PngError>(e),
                }),
            decreases n - pos,
        {
            let ghost b = data@.skip(pos as int);
            proof {
                assert(b =~= data@.subrange(pos as int, data@.len() as int));
                assert(b.len() == n - pos);
            }
            let rem = n - pos;
            if rem < 12 {
                return Err(PngError::TooShort);
            }
            proof {
                assert(b[0] == data@[pos as int]);
                assert(b[1] == data@[pos as int + 1]);
                assert(b[2] == data@[pos as int + 2]);
                assert(b[3] == data@[pos as int + 3]);
            }
            let len_u32 = u32_from_be(data[pos], data[pos + 1], data[pos + 2], data[pos + 3]);
            let len = len_u32 as usize;
            if len > rem - 12 {
                return Err(PngError::TooShort);
            }
            let end = pos + 12 + len;
            let chunk_slice = slice_subrange(data, pos, end);
            proof {
                assert(chunk_slice@ =~= b.subrange(0, 12 + len as int));
            }
            let c = match Chunk::from_bytes(chunk_slice) {
                Ok(c) => c,
                Err(e) => {
                    return Err(e);
                },
            };
            let ghost prev = chunks@.map_values(|c: Chunk| c@);
            chunks.push(c);
            proof {
                assert(b.skip(12 + len as int) =~= data@.skip(end as int));
                assert(chunks@.map_values(|c: Chunk| c@) =~= prev.push(c@));
                if spec_parse_chunks(data@.skip(end as int)) is Ok {
                    let rest = spec_parse_chunks(data@.skip(end as int))->Ok_0;
                    assert(prev + (seq![c@] + rest) =~= prev.push(c@) + rest);
                }
            }
            pos = end;
        }
        let p = Png { chunks };
        proof {
            assert(data@.skip(pos as int).len() == 0);
            assert(p@ + Seq::<ChunkView>::empty() =~= p@);
        }
        Ok(p)
    }

    /// Serializes the container to its exact on-disk byte layout: the
    /// signature followed by each chunk's record in sequence order.
    pub fn as_bytes(&self) -> (r: Vec<u8>)
        requires
            self.wf(),
        ensures
            r@ == spec_png_bytes(self@),
    {
        let mut out: Vec<u8> = Vec::new();
        let sig = signature();
        out.extend_from_slice(sig.as_slice());
        let n = self.chunks.len();
        let mut i: usize = 0;
        while i < n
            invariant
                0 <= i <= n,
                n == self@.len(),
                self.wf(),
                out@ == spec_signature() + spec_chunks_bytes(self@.take(i as int)),
            decreases n - i,
        {
            proof {
                assert(self@[i as int].wf());
                assert(self.chunks@[i as int]@ == self@[i as int]);
            }
            let mut cb = self.chunks[i].as_bytes();
            out.append(&mut cb);
            proof {
                assert(self@.take(i as int + 1) =~= self@.take(i as int).push(self@[i as int]));
                lemma_chunks_bytes_push(self@.take(i as int), self@[i as int]);
                assert(out@ =~= spec_signature() + spec_chunks_bytes(self@.take(i as int + 1)));
            }
            i += 1;
        }
        proof {
            assert(self@.take(n as int) =~= self@);
        }
        out
    }
}

/// Appending a chunk to a sequence appends its record to the sequence's
/// on-disk form.
proof fn lemma_chunks_bytes_push(cs: Seq<ChunkView>, c: ChunkView)
    ensures
        spec_chunks_bytes(cs.push(c)) == spec_chunks_bytes(cs) + spec_chunk_bytes(c),
    decreases cs.len(),
{
    if cs.len() == 0 {
        assert(cs =~= Seq::<ChunkView>::empty());
        assert(cs.push(c)[0] == c);
        assert(cs.push(c).drop_first() =~= Seq::<ChunkView>::empty());
        assert(spec_chunks_bytes(Seq::<ChunkView>::empty()) == Seq::<u8>::empty());
        assert(spec_chunk_bytes(c) + Seq::<u8>::empty() =~= spec_chunk_bytes(c));
        assert(Seq::<u8>::empty() + spec_chunk_bytes(c) =~= spec_chunk_bytes(c));
    } else {
        lemma_chunks_bytes_push(cs.drop_first(), c);
        assert(cs.push(c)[0] == cs[0]);
        assert(cs.push(c).drop_first() =~= cs.drop_first().push(c));
        assert(spec_chunk_bytes(cs[0]) + (spec_chunks_bytes(cs.drop_first()) + spec_chunk_bytes(c))
            =~= (spec_chunk_bytes(cs[0]) + spec_chunks_bytes(cs.drop_first())) + spec_chunk_bytes(
            c,
        ));
    }
}

/// Reading back the concatenated records of well-formed chunks yields exactly
/// those chunks, in order.
proof fn lemma_parse_chunks_round_trip(cs: Seq<ChunkView>)
    requires
        all_wf(cs),
    ensures
        spec_parse_chunks(spec_chunks_bytes(cs)) == Ok::<Seq<ChunkView>, PngError>(cs),
    decreases cs.len(),
{
    let b = spec_chunks_bytes(cs);
    if cs.len() == 0 {
        assert(cs =~= Seq::<ChunkView>::empty());
    } else {
        let c = cs[0];
        assert(c.wf());
        let cb = spec_chunk_bytes(c);
        let rest_b = spec_chunks_bytes(cs.drop_first());
        let m = c.data.len() as int;
        assert(cb.len() == 12 + m);
        lemma_u32_be_round_trip(c.data.len() as u32);
        assert(cb.subrange(0, 4) =~= spec_u32_to_be(c.data.len() as u32));
        assert(b.subrange(0, 4) =~= cb.subrange(0, 4));
        assert(b[0] == spec_u32_to_be(c.data.len() as u32)[0]);
        assert(b[1] == spec_u32_to_be(c.data.len() as u32)[1]);
        assert(b[2] == spec_u32_to_be(c.data.len() as u32)[2]);
        assert(b[3] == spec_u32_to_be(c.data.len() as u32)[3]);
        let n_field = spec_u32_from_be(b[0], b[1], b[2], b[3]) as int;
        assert(n_field == m);
        assert(b.len() == 12 + m + rest_b.len());
        assert(b.subrange(0, 12 + m) =~= cb);
        lemma_chunk_round_trip(c);
        assert(spec_chunk_from_bytes(b.subrange(0, 12 + n_field)) == Ok::<ChunkView, PngError>(c));
        assert(b.skip(12 + m) =~= rest_b);
        lemma_parse_chunks_round_trip(cs.drop_first());
        assert(seq![c] + cs.drop_first() =~= cs);
    }
}

/// Parsing the serialized form of any container of well-formed chunks yields
/// a chunk sequence equal, in order and content, to the container's own.
pub proof fn lemma_parse_round_trip(cs: Seq<ChunkView>)
    requires
        all_wf(cs),
    ensures
        spec_parse(spec_png_bytes(cs)) == Ok::<Seq<ChunkView>, PngError>(cs),
{
    let b = spec_png_bytes(cs);
    assert(b.len() >= 8);
    assert(b.subrange(0, 8) =~= spec_signature());
    assert(b.skip(8) =~= spec_chunks_bytes(cs));
    lemma_parse_chunks_round_trip(cs);
}

/// Corrupting any single byte of the 8-byte signature of a serialized
/// container makes parsing fail with `BadSignature`.
pub proof fn lemma_signature_tamper(cs: Seq<ChunkView>, b: Seq<u8>, i: int)
    requires
        b.len() == spec_png_bytes(cs).len(),
        0 <= i < 8,
        b[i] != spec_png_bytes(cs)[i],
    ensures
        spec_parse(b) == Err::<Seq<ChunkView>, PngError>(PngError::BadSignature),
{
    assert(spec_png_bytes(cs)[i] == spec_signature()[i]);
    assert(b.len() >= 8);
    assert(b.subrange(0, 8)[i] != spec_signature()[i]);
}

} // verus!
