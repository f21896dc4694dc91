use vstd::prelude::*;

use crate::byte_order::be_u32;
use crate::chunk::{chunk_parse_error, lemma_enc_of_parse_chunk, lemma_parse_chunk_of_enc,
    parse_chunk, Chunk, ChunkModel};
use crate::chunk_type::type_text_matches;
use crate::error::PngError;
use crate::png_signature;
use crate::png_signature_spec;

verus! {

/// The models of a sequence of chunks.
pub open spec fn models(chunks: Seq<Chunk>) -> Seq<ChunkModel> {
    chunks.map_values(|c: Chunk| c@)
}

/// The concatenated framings of a sequence of chunks.
pub open spec fn enc_chunks(ms: Seq<ChunkModel>) -> Seq<u8>
    decreases ms.len(),
{
    if ms.len() == 0 {
        Seq::empty()
    } else {
        ms[0].enc() + enc_chunks(ms.drop_first())
    }
}

/// A whole container's bytes: the signature, then each chunk's framing in
/// stored order.
pub open spec fn png_bytes(ms: Seq<ChunkModel>) -> Seq<u8> {
    png_signature_spec() + enc_chunks(ms)
}

/// Reads chunks from a byte sequence until it is exhausted: None as soon as
/// one chunk is truncated or fails its checksum.
pub open spec fn parse_chunks(b: Seq<u8>) -> Option<Seq<ChunkModel>>
    decreases b.len(),
{
    if b.len() == 0 {
        Some(Seq::empty())
    } else if b.len() < 12 {
        None
    } else {
        let step = 12 + be_u32(b.subrange(0, 4)) as int;
        if b.len() < step {
            None
        } else {
            match (parse_chunk(b), parse_chunks(b.skip(step))) {
                (Some(m), Some(rest)) => Some(seq![m] + rest),
                _ => None,
            }
        }
    }
}

/// Which error reading chunks until exhaustion gives; meaningful only where
/// `parse_chunks` is None.
pub open spec fn chunks_parse_error(b: Seq<u8>) -> PngError
    decreases b.len(),
{
    if b.len() < 12 {
        PngError::TruncatedChunk
    } else {
        let step = 12 + be_u32(b.subrange(0, 4)) as int;
        if b.len() < step {
            PngError::TruncatedChunk
        } else if parse_chunk(b) is None {
            PngError::CrcMismatch
        } else {
            chunks_parse_error(b.skip(step))
        }
    }
}

/// Whether a chunk's tag is spelled by the given text.
pub open spec fn chunk_matches(c: Chunk, t: Seq<char>) -> bool {
    type_text_matches(c@.ty, t)
}

/// The index of the first chunk whose tag the text spells, or the sequence's
/// length where none does.
pub open spec fn first_match(chunks: Seq<Chunk>, t: Seq<char>) -> int
    decreases chunks.len(),
{
    if chunks.len() == 0 {
        0
    } else if chunk_matches(chunks[0], t) {
        0
    } else {
        1 + first_match(chunks.drop_first(), t)
    }
}

/// What `first_match` returns: an index no larger than the length, matching
/// where it is in range, with no match anywhere before it.
pub proof fn lemma_first_match_bounds(chunks: Seq<Chunk>, t: Seq<char>)
    ensures
        0 <= first_match(chunks, t) <= chunks.len(),
        first_match(chunks, t) < chunks.len() ==> chunk_matches(
            chunks[first_match(chunks, t)],
            t,
        ),
        forall|j: int| 0 <= j < first_match(chunks, t) ==> !chunk_matches(#[trigger] chunks[j], t),
        first_match(chunks, t) == chunks.len() ==> forall|j: int|
            0 <= j < chunks.len() ==> !chunk_matches(#[trigger] chunks[j], t),
    decreases chunks.len(),
{
    if chunks.len() == 0 {
    } else if chunk_matches(chunks[0], t) {
    } else {
        lemma_first_match_bounds(chunks.drop_first(), t);
        assert forall|j: int| 0 <= j < first_match(chunks, t) implies !chunk_matches(
            #[trigger] chunks[j],
            t,
        ) by {
            if j > 0 {
                assert(chunks.drop_first()[j - 1] == chunks[j]);
            }
        }
        if first_match(chunks, t) == chunks.len() {
            assert forall|j: int| 0 <= j < chunks.len() implies !chunk_matches(
                #[trigger] chunks[j],
                t,
            ) by {
                if j > 0 {
                    assert(chunks.drop_first()[j - 1] == chunks[j]);
                }
            }
        }
    }
}

/// A match at an index that nothing before it matches pins `first_match`.
pub proof fn lemma_first_match_at(chunks: Seq<Chunk>, t: Seq<char>, i: int)
    requires
        0 <= i < chunks.len(),
        chunk_matches(chunks[i], t),
        forall|j: int| 0 <= j < i ==> !chunk_matches(#[trigger] chunks[j], t),
    ensures
        first_match(chunks, t) == i,
{
    lemma_first_match_bounds(chunks, t);
    let fm = first_match(chunks, t);
    if fm < i {
        assert(!chunk_matches(chunks[fm], t));
    }
    if fm > i {
        assert(!chunk_matches(chunks[i], t));
    }
}

/// A byte sequence whose first chunk is unreadable has no chunk reading at
/// all, and fails with that chunk's own error.
pub proof fn lemma_parse_chunks_fail(b: Seq<u8>)
    requires
        b.len() > 0,
        parse_chunk(b) is None,
    ensures
        parse_chunks(b) is None,
        chunks_parse_error(b) == chunk_parse_error(b),
{
}

/// Reading chunks from a byte sequence whose first chunk is readable reads
/// that chunk and goes on behind its framing.
pub proof fn lemma_parse_chunks_cons(b: Seq<u8>)
    requires
        b.len() > 0,
        parse_chunk(b) is Some,
    ensures
        12 + parse_chunk(b)->0.length as int <= b.len(),
        parse_chunks(b) is Some <==> parse_chunks(
            b.skip(12 + parse_chunk(b)->0.length as int),
        ) is Some,
        parse_chunks(b) is Some ==> parse_chunks(b) == Some(
            seq![parse_chunk(b)->0] + parse_chunks(b.skip(12 + parse_chunk(b)->0.length as int))->0,
        ),
        parse_chunks(b) is None ==> chunks_parse_error(b) == chunks_parse_error(
            b.skip(12 + parse_chunk(b)->0.length as int),
        ),
{
    let m = parse_chunk(b)->0;
    assert(m.length == be_u32(b.subrange(0, 4)));
}

/// One step of decoding: reading a chunk at a cursor keeps the two decode
/// invariants — the bytes behind the cursor are the framings of the chunks
/// read so far, and what the whole stream reads to is those chunks followed
/// by whatever the bytes at the cursor read to.
#[verifier::rlimit(100)]
proof fn lemma_decode_step(b: Seq<u8>, pos: int, chunks_old: Seq<Chunk>, c: Chunk)
    requires
        8 <= pos < b.len(),
        parse_chunk(b.skip(pos)) == Some(c@),
        enc_chunks(models(chunks_old)) == b.subrange(8, pos),
        parse_chunks(b.skip(pos)) is Some ==> parse_chunks(b.skip(8)) == Some(
            models(chunks_old) + parse_chunks(b.skip(pos))->0,
        ),
        parse_chunks(b.skip(pos)) is None ==> parse_chunks(b.skip(8)) is None
            && chunks_parse_error(b.skip(8)) == chunks_parse_error(b.skip(pos)),
    ensures
        pos + 12 + c@.length as int <= b.len(),
        enc_chunks(models(chunks_old.push(c))) == b.subrange(8, pos + 12 + c@.length as int),
        parse_chunks(b.skip(pos + 12 + c@.length as int)) is Some ==> parse_chunks(b.skip(8))
            == Some(
            models(chunks_old.push(c)) + parse_chunks(b.skip(pos + 12 + c@.length as int))->0,
        ),
        parse_chunks(b.skip(pos + 12 + c@.length as int)) is None ==> parse_chunks(
            b.skip(8),
        ) is None && chunks_parse_error(b.skip(8)) == chunks_parse_error(
            b.skip(pos + 12 + c@.length as int),
        ),
{
    let suffix = b.skip(pos);
    let m = c@;
    let new_pos = pos + 12 + m.length as int;
    lemma_parse_chunks_cons(suffix);
    lemma_enc_of_parse_chunk(suffix);
    assert(models(chunks_old.push(c)) =~= models(chunks_old).push(m));
    lemma_enc_chunks_push(models(chunks_old), m);
    assert(m.enc() =~= b.subrange(pos, new_pos)) by {
        assert(m.enc() == suffix.take(12 + m.length as int));
        assert(suffix.take(12 + m.length as int) =~= b.subrange(pos, new_pos));
    }
    assert(enc_chunks(models(chunks_old.push(c))) =~= b.subrange(8, new_pos)) by {
        assert(b.subrange(8, new_pos) =~= b.subrange(8, pos) + b.subrange(pos, new_pos));
    }
    assert(suffix.skip(12 + m.length as int) =~= b.skip(new_pos));
    match parse_chunks(b.skip(new_pos)) {
        Some(rest) => {
            assert(parse_chunks(suffix) == Some(seq![m] + rest));
            assert(models(chunks_old) + (seq![m] + rest) =~= models(chunks_old.push(c)) + rest);
        },
        None => {
            assert(parse_chunks(suffix) is None);
        },
    }
}

/// The ordered sequence of chunks behind the fixed signature that together
/// form one container.
#[derive(Debug)]
pub struct Png {
    chunks: Vec<Chunk>,
}

impl View for Png {
    type V = Seq<Chunk>;

    closed spec fn view(&self) -> Seq<Chunk> {
        self.chunks@
    }
}

impl Png {
    /// Whether every chunk held satisfies the chunk invariant.
    pub open spec fn wf(&self) -> bool {
        forall|i: int| 0 <= i < self@.len() ==> (#[trigger] self@[i]).wf()
    }

    /// Builds a container around the given chunks, in their order.
    pub fn from_chunks(chunks: Vec<Chunk>) -> (r: Png)
        ensures
            r@ == chunks@,
    {
        Png { chunks }
    }

    /// The chunks, in stored order.
    pub fn chunks(&self) -> (r: &Vec<Chunk>)
        ensures
            r@ == self@,
    {
        &self.chunks
    }

    /// Appends one chunk at the end; duplicate types are allowed.
    pub fn append_chunk(&mut self, chunk: Chunk)
        ensures
            final(self)@ == old(self)@.push(chunk),
    {
        self.chunks.push(chunk);
    }

    /// Decodes a whole byte stream: the fixed signature, then chunks until
    /// the bytes are exhausted. Fails atomically on a wrong signature or on
    /// the first truncated or checksum-failing chunk.
    #[verifier::rlimit(60)]
    pub fn try_from(bytes: &[u8]) -> (r: Result<Png, PngError>)
        ensures
            r is Ok <==> (bytes@.len() >= 8 && bytes@.subrange(0, 8) == png_signature_spec()
                && parse_chunks(bytes@.skip(8)) is Some),
            r is Ok ==> models(r->Ok_0@) == parse_chunks(bytes@.skip(8))->0 && r->Ok_0.wf()
                && bytes@ == png_bytes(models(r->Ok_0@)),
            r is Err ==> r->Err_0 == (if bytes@.len() < 8 || bytes@.subrange(0, 8)
                != png_signature_spec() {
                PngError::BadSignature
            } else {
                chunks_parse_error(bytes@.skip(8))
            }),
    {
        let ghost b = bytes@;
        let n = bytes.len();
        if n < 8 {
            return Err(PngError::BadSignature);
        }
        let sig = png_signature();
        let mut i: usize = 0;
        while i < 8
            invariant
                i <= 8,
                n == b.len(),
                n >= 8,
                b == bytes@,
                sig@ == png_signature_spec(),
                forall|j: int| 0 <= j < i ==> b[j] == png_signature_spec()[j],
            decreases 8 - i,
        {
            if *vstd::slice::slice_index_get(bytes, i) != sig[i] {
                proof {
                    assert(b.subrange(0, 8)[i as int] != png_signature_spec()[i as int]);
                }
                return Err(PngError::BadSignature);
            }
            i = i + 1;
        }
        proof {
            assert(b.subrange(0, 8) =~= png_signature_spec());
        }
        let mut chunks: Vec<Chunk> = Vec::new();
        let mut pos: usize = 8;
        while pos < n
            invariant
                8 <= pos <= n,
                n == b.len(),
                b == bytes@,
                b.subrange(0, 8) == png_signature_spec(),
                forall|k: int| 0 <= k < chunks@.len() ==> (#[trigger] chunks@[k]).wf(),
                enc_chunks(models(chunks@)) == b.subrange(8, pos as int),
                parse_chunks(b.skip(pos as int)) is Some ==> parse_chunks(b.skip(8)) == Some(
                    models(chunks@) + parse_chunks(b.skip(pos as int))->0,
                ),
                parse_chunks(b.skip(pos as int)) is None ==> parse_chunks(b.skip(8)) is None
                    && chunks_parse_error(b.skip(8)) == chunks_parse_error(b.skip(pos as int)),
            decreases n - pos,
        {
            let ghost suffix = b.skip(pos as int);
            let tail = vstd::slice::slice_subrange(bytes, pos, n);
            proof {
                assert(tail@ =~= suffix);
            }
            match Chunk::try_from(tail) {
                Err(e) => {
                    proof {
                        lemma_parse_chunks_fail(suffix);
                    }
                    return Err(e);
                },
                Ok(chunk) => {
                    let ghost old_chunks = chunks@;
                    proof {
                        lemma_decode_step(b, pos as int, old_chunks, chunk);
                    }
                    let length = chunk.length();
                    let step = 12 + length as usize;
                    chunks.push(chunk);
                    pos = pos + step;
                },
            }
        }
        let r = Png { chunks };
        proof {
            assert(b.skip(n as int) =~= Seq::<u8>::empty());
            assert(parse_chunks(b.skip(n as int)) == Some(Seq::<ChunkModel>::empty()));
            assert(models(r@) + Seq::<ChunkModel>::empty() =~= models(r@));
            assert(b =~= b.subrange(0, 8) + b.subrange(8, n as int));
        }
        Ok(r)
    }

    /// Serializes the whole container: the signature, then each chunk's
    /// framing in stored order.
    pub fn as_bytes(&self) -> (r: Vec<u8>)
        ensures
            r@ == png_bytes(models(self@)),
    {
        let mut out: Vec<u8> = Vec::new();
        let sig = png_signature();
        let mut i: usize = 0;
        while i < 8
            invariant
                i <= 8,
                sig@ == png_signature_spec(),
                out@ == png_signature_spec().take(i as int),
            decreases 8 - i,
        {
            out.push(sig[i]);
            i = i + 1;
            proof {
                assert(out@ =~= png_signature_spec().take(i as int));
            }
        }
        proof {
            assert(png_signature_spec().take(8) =~= png_signature_spec());
            assert(models(self@.take(0)) =~= Seq::<ChunkModel>::empty());
        }
        let mut k: usize = 0;
        while k < self.chunks.len()
            invariant
                k <= self@.len(),
                self@ == self.chunks@,
                out@ == png_signature_spec() + enc_chunks(models(self@.take(k as int))),
            decreases self@.len() - k,
        {
            let c = &self.chunks[k];
            let mut cb = c.as_bytes();
            out.append(&mut cb);
            k = k + 1;
            proof {
                assert(models(self@.take(k as int)) =~= models(
                    self@.take(k as int - 1),
                ).push(c@));
                lemma_enc_chunks_push(models(self@.take(k as int - 1)), c@);
            }
        }
        proof {
            assert(self@.take(self@.len() as int) =~= self@);
        }
        out
    }

    /// The first chunk whose tag the text spells, scanned in stored order;
    /// the comparison is exact, character for character.
    pub fn chunk_by_type(&self, target: &str) -> (r: Option<&Chunk>)
        ensures
            r is Some <==> exists|i: int|
                0 <= i < self@.len() && chunk_matches(#[trigger] self@[i], target@),
            r is Some <==> first_match(self@, target@) < self@.len(),
            r is Some ==> *r->0 == self@[first_match(self@, target@)],
    {
        proof {
            lemma_first_match_bounds(self@, target@);
        }
        let mut i: usize = 0;
        while i < self.chunks.len()
            invariant
                i <= self@.len(),
                self@ == self.chunks@,
                forall|j: int| 0 <= j < i ==> !chunk_matches(#[trigger] self@[j], target@),
            decreases self@.len() - i,
        {
            let c = &self.chunks[i];
            if c.chunk_type().matches_text(target) {
                proof {
                    lemma_first_match_at(self@, target@, i as int);
                }
                return Some(c);
            }
            i = i + 1;
        }
        proof {
            lemma_first_match_bounds(self@, target@);
        }
        None
    }

    /// Removes the first chunk whose tag the text spells, and never more
    /// than one; fails, changing nothing, when none matches.
    pub fn remove_chunk(&mut self, target: &str) -> (r: Result<(), PngError>)
        ensures
            r is Ok <==> exists|i: int|
                0 <= i < old(self)@.len() && chunk_matches(#[trigger] old(self)@[i], target@),
            r is Ok <==> first_match(old(self)@, target@) < old(self)@.len(),
            r is Ok ==> final(self)@ == old(self)@.remove(first_match(old(self)@, target@)),
            r is Err ==> final(self)@ == old(self)@ && r->Err_0 == PngError::ChunkNotFound,
    {
        proof {
            lemma_first_match_bounds(old(self)@, target@);
        }
        let mut i: usize = 0;
        while i < self.chunks.len()
            invariant
                i <= self@.len(),
                self@ == old(self)@,
                forall|j: int| 0 <= j < i ==> !chunk_matches(#[trigger] self@[j], target@),
            decreases self@.len() - i,
        {
            let matched = self.chunks[i].chunk_type().matches_text(target);
            if matched {
                proof {
                    lemma_first_match_at(self@, target@, i as int);
                }
                let _removed = self.chunks.remove(i);
                return Ok(());
            }
            i = i + 1;
        }
        proof {
            lemma_first_match_bounds(self@, target@);
        }
        Err(PngError::ChunkNotFound)
    }
}

/// Framing one more chunk extends the concatenated framings at the end.
pub proof fn lemma_enc_chunks_push(ms: Seq<ChunkModel>, m: ChunkModel)
    ensures
        enc_chunks(ms.push(m)) == enc_chunks(ms) + m.enc(),
    decreases ms.len(),
{
    if ms.len() == 0 {
        let e = Seq::<ChunkModel>::empty();
        assert(ms.push(m).drop_first() =~= e);
        assert(ms.push(m)[0] == m);
        assert(enc_chunks(ms.push(m)) == m.enc() + enc_chunks(e));
        assert(enc_chunks(e) =~= Seq::<u8>::empty());
        assert(ms =~= e);
        assert(enc_chunks(ms.push(m)) =~= enc_chunks(ms) + m.enc());
    } else {
        assert(ms.push(m).drop_first() =~= ms.drop_first().push(m));
        lemma_enc_chunks_push(ms.drop_first(), m);
        assert(enc_chunks(ms.push(m)) =~= enc_chunks(ms) + m.enc());
    }
}

/// Law: reading back the concatenated framings of well-formed chunks yields
/// exactly those chunks, in order.
pub proof fn lemma_parse_of_enc_chunks(ms: Seq<ChunkModel>)
    requires
        forall|i: int| 0 <= i < ms.len() ==> (#[trigger] ms[i]).wf(),
    ensures
        parse_chunks(enc_chunks(ms)) == Some(ms),
    decreases ms.len(),
{
    if ms.len() == 0 {
        assert(enc_chunks(ms).len() == 0);
    } else {
        let m = ms[0];
        let rest = enc_chunks(ms.drop_first());
        let b = enc_chunks(ms);
        assert(b == m.enc() + rest);
        lemma_parse_chunk_of_enc(m, rest);
        assert(b.subrange(0, 4) =~= m.enc().subrange(0, 4));
        lemma_enc_of_parse_chunk(b);
        assert(b.len() >= 12 + m.length as int);
        assert(b.skip(12 + m.length as int) == rest);
        assert(forall|i: int| 0 <= i < ms.drop_first().len() ==> (#[trigger] ms.drop_first()[i]).wf());
        lemma_parse_of_enc_chunks(ms.drop_first());
        assert(seq![m] + ms.drop_first() =~= ms);
    }
}

/// Law: a well-formed container decodes from its own serialization unchanged,
/// with the chunk order preserved.
pub proof fn lemma_container_round_trip(chunks: Seq<Chunk>)
    requires
        forall|i: int| 0 <= i < chunks.len() ==> (#[trigger] chunks[i]).wf(),
    ensures
        png_bytes(models(chunks)).len() >= 8,
        png_bytes(models(chunks)).subrange(0, 8) == png_signature_spec(),
        parse_chunks(png_bytes(models(chunks)).skip(8)) == Some(models(chunks)),
{
    let ms = models(chunks);
    assert(forall|i: int| 0 <= i < ms.len() ==> (#[trigger] ms[i]).wf());
    lemma_parse_of_enc_chunks(ms);
    assert(png_bytes(ms).subrange(0, 8) =~= png_signature_spec());
    assert(png_bytes(ms).skip(8) =~= enc_chunks(ms));
}

/// Law: appending a chunk of a type that no chunk had, then removing the
/// first chunk of that type, leaves the sequence as it was.
pub proof fn lemma_append_then_remove(chunks: Seq<Chunk>, c: Chunk, t: Seq<char>)
    requires
        chunk_matches(c, t),
        forall|i: int| 0 <= i < chunks.len() ==> !chunk_matches(#[trigger] chunks[i], t),
    ensures
        first_match(chunks.push(c), t) == chunks.len(),
        chunks.push(c).remove(chunks.len() as int) == chunks,
{
    assert(chunks.push(c)[chunks.len() as int] == c);
    assert forall|j: int| 0 <= j < chunks.len() implies !chunk_matches(
        #[trigger] chunks.push(c)[j],
        t,
    ) by {
        assert(chunks.push(c)[j] == chunks[j]);
    }
    lemma_first_match_at(chunks.push(c), t, chunks.len() as int);
    assert(chunks.push(c).remove(chunks.len() as int) =~= chunks);
}

} // verus!
