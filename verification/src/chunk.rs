use vstd::prelude::*;

use crate::byte_order::{be_u32, lemma_be_u32_of_u32_be, lemma_u32_be_of_be_u32, u32_be,
    u32_from_be_bytes, u32_to_be_bytes};
use crate::chunk_type::ChunkType;
use crate::crc32::{crc32_checksum, crc32_of};
use crate::error::PngError;
use crate::text::{utf8_lossy_of, utf8_lossy_to_string};

verus! {

/// What a chunk is mathematically: a declared length, four type bytes, the
/// payload bytes, and a stored checksum.
#[verifier::ext_equal]
pub ghost struct ChunkModel {
    pub length: u32,
    pub ty: Seq<u8>,
    pub data: Seq<u8>,
    pub crc: u32,
}

impl ChunkModel {
    /// A chunk is well formed when its tag has four bytes, its declared
    /// length counts its payload bytes, and its stored checksum is the
    /// CRC-32/ISO-HDLC of tag plus payload.
    pub open spec fn wf(self) -> bool {
        &&& self.ty.len() == 4
        &&& self.data.len() <= u32::MAX
        &&& self.length == self.data.len()
        &&& self.crc == crc32_of(self.ty + self.data)
    }

    /// The exact byte framing of a chunk: big-endian length, the four tag
    /// bytes, the payload verbatim, then the big-endian checksum.
    pub open spec fn enc(self) -> Seq<u8> {
        u32_be(self.length) + self.ty + self.data + u32_be(self.crc)
    }
}

/// Reads one chunk from the front of a byte sequence, ignoring what follows
/// it: None when too few bytes remain for the declared length or the stored
/// checksum is not the one computed over tag plus payload.
pub open spec fn parse_chunk(b: Seq<u8>) -> Option<ChunkModel> {
    if b.len() < 12 {
        None
    } else {
        let length = be_u32(b.subrange(0, 4));
        if b.len() < 12 + length {
            None
        } else {
            let ty = b.subrange(4, 8);
            let data = b.subrange(8, 8 + length);
            let crc = be_u32(b.subrange(8 + length, 12 + length));
            if crc == crc32_of(ty + data) {
                Some(ChunkModel { length, ty, data, crc })
            } else {
                None
            }
        }
    }
}

/// Which error reading one chunk from the front of a byte sequence gives;
/// meaningful only where `parse_chunk` is None.
pub open spec fn chunk_parse_error(b: Seq<u8>) -> PngError {
    if b.len() < 12 {
        PngError::TruncatedChunk
    } else if b.len() < 12 + be_u32(b.subrange(0, 4)) {
        PngError::TruncatedChunk
    } else {
        PngError::CrcMismatch
    }
}

/// One container chunk: a validated length, type tag, payload, and checksum.
#[derive(Debug)]
pub struct Chunk {
    length: u32,
    chunk_type: ChunkType,
    data: Vec<u8>,
    crc: u32,
}

impl View for Chunk {
    type V = ChunkModel;

    closed spec fn view(&self) -> ChunkModel {
        ChunkModel {
            length: self.length,
            ty: self.chunk_type@,
            data: self.data@,
            crc: self.crc,
        }
    }
}

impl Chunk {
    /// Whether the chunk's fields satisfy the chunk invariant.
    pub open spec fn wf(&self) -> bool {
        self@.wf()
    }

    /// Builds a chunk from a type tag and payload, computing the checksum
    /// over tag plus payload.
    pub fn new(chunk_type: ChunkType, data: Vec<u8>) -> (r: Chunk)
        requires
            data@.len() <= u32::MAX,
        ensures
            r@ == (ChunkModel {
                length: data@.len() as u32,
                ty: chunk_type@,
                data: data@,
                crc: crc32_of(chunk_type@ + data@),
            }),
            r.wf(),
    {
        let tag = chunk_type.bytes();
        let mut buf: Vec<u8> = Vec::new();
        buf.push(tag[0]);
        buf.push(tag[1]);
        buf.push(tag[2]);
        buf.push(tag[3]);
        proof {
            assert(buf@ =~= chunk_type@);
        }
        let mut i: usize = 0;
        while i < data.len()
            invariant
                i <= data@.len(),
                buf@ == chunk_type@ + data@.subrange(0, i as int),
            decreases data@.len() - i,
        {
            buf.push(data[i]);
            i = i + 1;
            proof {
                assert(buf@ =~= chunk_type@ + data@.subrange(0, i as int));
            }
        }
        proof {
            assert(buf@ =~= chunk_type@ + data@);
        }
        let crc = crc32_checksum(buf.as_slice());
        let length = data.len() as u32;
        Chunk { length, chunk_type, data, crc }
    }

    /// The declared payload length.
    pub fn length(&self) -> (r: u32)
        ensures
            r == self@.length,
    {
        self.length
    }

    /// The chunk's type tag.
    pub fn chunk_type(&self) -> (r: &ChunkType)
        ensures
            r@ == self@.ty,
    {
        &self.chunk_type
    }

    /// The payload bytes.
    pub fn data(&self) -> (r: &[u8])
        ensures
            r@ == self@.data,
    {
        self.data.as_slice()
    }

    /// The stored checksum.
    pub fn crc(&self) -> (r: u32)
        ensures
            r == self@.crc,
    {
        self.crc
    }

    /// The payload read as text, with invalid byte sequences replaced rather
    /// than rejected.
    pub fn data_as_string(&self) -> (r: String)
        ensures
            r@ == utf8_lossy_of(self@.data),
            (forall|i: int| 0 <= i < self@.data.len() ==> self@.data[i] < 128) ==> (r@.len()
                == self@.data.len() && forall|i: int|
                0 <= i < self@.data.len() ==> r@[i] as int == self@.data[i] as int),
    {
        utf8_lossy_to_string(self.data.as_slice())
    }

    /// The chunk rendered for people: the tag's four characters, then the
    /// payload read as text; defined for ASCII tags only, and meant for
    /// printing, not for round-tripping.
    pub fn to_display_string(&self) -> (r: String)
        requires
            forall|i: int| 0 <= i < 4 ==> self@.ty[i] < 128,
        ensures
            r@.len() == 4 + utf8_lossy_of(self@.data).len(),
            forall|i: int| 0 <= i < 4 ==> r@[i] as int == self@.ty[i] as int,
            r@.skip(4) == utf8_lossy_of(self@.data),
    {
        proof {
            assert forall|i: int| 0 <= i < 4 implies (#[trigger] self.chunk_type@[i]) < 128 by {
                assert(self.chunk_type@[i] == self@.ty[i]);
            }
        }
        let mut s = self.chunk_type.to_string();
        let d = self.data_as_string();
        s.append(d.as_str());
        proof {
            assert(s@.skip(4) =~= utf8_lossy_of(self@.data));
        }
        s
    }

    /// The chunk's exact byte framing, the inverse of decoding.
    pub fn as_bytes(&self) -> (r: Vec<u8>)
        ensures
            r@ == self@.enc(),
    {
        let mut out: Vec<u8> = Vec::new();
        let len_bytes = u32_to_be_bytes(self.length);
        out.push(len_bytes[0]);
        out.push(len_bytes[1]);
        out.push(len_bytes[2]);
        out.push(len_bytes[3]);
        let tag = self.chunk_type.bytes();
        out.push(tag[0]);
        out.push(tag[1]);
        out.push(tag[2]);
        out.push(tag[3]);
        proof {
            assert(out@ =~= u32_be(self@.length) + self@.ty);
        }
        let mut i: usize = 0;
        while i < self.data.len()
            invariant
                i <= self@.data.len(),
                out@ == u32_be(self@.length) + self@.ty + self@.data.subrange(0, i as int),
            decreases self@.data.len() - i,
        {
            out.push(self.data[i]);
            i = i + 1;
            proof {
                assert(out@ =~= u32_be(self@.length) + self@.ty + self@.data.subrange(
                    0,
                    i as int,
                ));
            }
        }
        let crc_bytes = u32_to_be_bytes(self.crc);
        out.push(crc_bytes[0]);
        out.push(crc_bytes[1]);
        out.push(crc_bytes[2]);
        out.push(crc_bytes[3]);
        proof {
            assert(out@ =~= self@.enc());
        }
        out
    }

    /// Reads one chunk from the front of a byte slice, verifying the stored
    /// checksum against one computed over the tag and payload bytes; bytes
    /// past the chunk's own framing are ignored.
    pub fn try_from(bytes: &[u8]) -> (r: Result<Chunk, PngError>)
        ensures
            r is Ok <==> parse_chunk(bytes@) is Some,
            r is Ok ==> r->Ok_0@ == parse_chunk(bytes@)->0 && r->Ok_0.wf(),
            r is Err ==> r->Err_0 == chunk_parse_error(bytes@),
    {
        let n = bytes.len();
        if n < 12 {
            return Err(PngError::TruncatedChunk);
        }
        let length = u32_from_be_bytes(bytes, 0);
        if (length as usize) > n - 12 {
            return Err(PngError::TruncatedChunk);
        }
        let data_end = 8 + length as usize;
        let tag = [
            *vstd::slice::slice_index_get(bytes, 4),
            *vstd::slice::slice_index_get(bytes, 5),
            *vstd::slice::slice_index_get(bytes, 6),
            *vstd::slice::slice_index_get(bytes, 7),
        ];
        let chunk_type = ChunkType::from_bytes(tag);
        let checked = vstd::slice::slice_subrange(bytes, 4, data_end);
        let computed = crc32_checksum(checked);
        let stored = u32_from_be_bytes(bytes, data_end);
        proof {
            let b = bytes@;
            let len = length as int;
            assert(b.subrange(4, 8 + len) =~= b.subrange(4, 8) + b.subrange(8, 8 + len));
        }
        if stored != computed {
            return Err(PngError::CrcMismatch);
        }
        let data = vstd::slice::slice_to_vec(vstd::slice::slice_subrange(bytes, 8, data_end));
        let r = Chunk { length, chunk_type, data, crc: stored };
        proof {
            let b = bytes@;
            let len = length as int;
            assert(parse_chunk(b)->0 =~= r@);
        }
        Ok(r)
    }
}

/// Law: reading a chunk's own framing back, with any bytes at all after it,
/// yields the chunk again and consumes exactly its framing.
pub proof fn lemma_parse_chunk_of_enc(m: ChunkModel, rest: Seq<u8>)
    requires
        m.wf(),
    ensures
        parse_chunk(m.enc() + rest) == Some(m),
        (m.enc() + rest).skip(12 + m.length as int) == rest,
{
    let b = m.enc() + rest;
    assert(b.subrange(0, 4) =~= u32_be(m.length));
    lemma_be_u32_of_u32_be(m.length);
    let len = m.length as int;
    assert(b.subrange(4, 8) =~= m.ty);
    assert(b.subrange(8, 8 + len) =~= m.data);
    assert(b.subrange(8 + len, 12 + len) =~= u32_be(m.crc));
    lemma_be_u32_of_u32_be(m.crc);
    assert(parse_chunk(b)->0 =~= m);
    assert(b.skip(12 + len) =~= rest);
}

/// Law: a well-formed chunk decodes from its own encoding unchanged.
pub proof fn lemma_chunk_round_trip(m: ChunkModel)
    requires
        m.wf(),
    ensures
        parse_chunk(m.enc()) == Some(m),
{
    lemma_parse_chunk_of_enc(m, Seq::empty());
    assert(m.enc() + Seq::<u8>::empty() =~= m.enc());
}

/// Law: a chunk that decodes from some bytes re-encodes to exactly the bytes
/// its framing occupied there.
pub proof fn lemma_enc_of_parse_chunk(b: Seq<u8>)
    requires
        parse_chunk(b) is Some,
    ensures
        parse_chunk(b)->0.enc() == b.take(12 + parse_chunk(b)->0.length as int),
        parse_chunk(b)->0.wf(),
{
    let m = parse_chunk(b)->0;
    let len = m.length as int;
    lemma_u32_be_of_be_u32(b.subrange(0, 4));
    lemma_u32_be_of_be_u32(b.subrange(8 + len, 12 + len));
    assert(m.enc() =~= b.take(12 + len));
}

} // verus!
