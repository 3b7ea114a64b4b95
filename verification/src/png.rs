//! The PNG container: a fixed 8-byte signature followed by an ordered
//! sequence of chunks, with type-keyed lookup, ordered insertion, removal and
//! a scrub of non-essential chunks.

use vstd::prelude::*;
use vstd::slice::slice_subrange;
use vstd::string::StringSliceAdditionalSpecFns;

use crate::be::be_u32;
use crate::chunk::{chunk_bytes, parse_chunk, Chunk, ChunkIter, ChunkModel};
use crate::chunk::{idat_tag, ihdr_tag, iend_tag, lemma_chunk_round_trip, plte_tag};
use crate::err::{PngErr, PngRes};

verus! {

/// The fixed 8-byte PNG file signature.
pub open spec fn png_sig() -> Seq<u8> {
    seq![137u8, 80u8, 78u8, 71u8, 13u8, 10u8, 26u8, 10u8]
}

/// Parses a whole chunk stream: chunk after chunk until the buffer is empty.
/// Any leftover bytes too short for a chunk, a declared length running past
/// the buffer, or a malformed chunk fail the whole stream.
pub open spec fn parse_stream(s: Seq<u8>) -> Result<Seq<ChunkModel>, PngErr>
    decreases s.len(),
{
    if s.len() == 0 {
        Ok(Seq::empty())
    } else if s.len() < 12 {
        Err(PngErr::ShortChunk)
    } else {
        let declared = be_u32(s.subrange(0, 4)) as int;
        if s.len() < declared + 12 {
            Err(PngErr::ShortChunk)
        } else {
            match parse_chunk(s.subrange(0, declared + 12)) {
                Ok(m) => match parse_stream(s.skip(declared + 12)) {
                    Ok(rest) => Ok(seq![m] + rest),
                    Err(e) => Err(e),
                },
                Err(e) => Err(e),
            }
        }
    }
}

/// Parses a whole PNG file: the signature, then the chunk stream.
pub open spec fn parse_png(s: Seq<u8>) -> Result<Seq<ChunkModel>, PngErr> {
    if s.len() < 8 || s.subrange(0, 8) != png_sig() {
        Err(PngErr::InvalidHeader)
    } else {
        parse_stream(s.skip(8))
    }
}

/// The wire encoding of a chunk sequence: each chunk's bytes in order.
pub open spec fn chunks_bytes(ms: Seq<ChunkModel>) -> Seq<u8>
    decreases ms.len(),
{
    if ms.len() == 0 {
        Seq::empty()
    } else {
        chunk_bytes(ms[0]) + chunks_bytes(ms.drop_first())
    }
}

/// The wire encoding of a whole PNG file.
pub open spec fn png_bytes(ms: Seq<ChunkModel>) -> Seq<u8> {
    png_sig() + chunks_bytes(ms)
}

/// Appending a chunk appends its bytes to the stream encoding.
pub proof fn lemma_chunks_bytes_push(ms: Seq<ChunkModel>, x: ChunkModel)
    ensures
        chunks_bytes(ms.push(x)) == chunks_bytes(ms) + chunk_bytes(x),
    decreases ms.len(),
{
    if ms.len() == 0 {
        assert(ms.push(x).drop_first() =~= Seq::empty());
        assert(ms.push(x)[0] == x);
        assert(chunks_bytes(ms.push(x)) == chunk_bytes(x) + chunks_bytes(Seq::empty()));
        assert(chunk_bytes(x) + Seq::empty() =~= Seq::empty() + chunk_bytes(x));
        assert(chunks_bytes(ms) =~= Seq::empty());
        assert(chunks_bytes(ms.push(x)) =~= chunks_bytes(ms) + chunk_bytes(x));
    } else {
        assert(ms.push(x).drop_first() =~= ms.drop_first().push(x));
        lemma_chunks_bytes_push(ms.drop_first(), x);
        assert(chunk_bytes(ms[0]) + (chunks_bytes(ms.drop_first()) + chunk_bytes(x)) =~= (
        chunk_bytes(ms[0]) + chunks_bytes(ms.drop_first())) + chunk_bytes(x));
    }
}

/// Round trip for the stream: re-parsing the encoding of any sequence of
/// well-formed chunks yields exactly those chunks, in order.
pub proof fn lemma_stream_round_trip(ms: Seq<ChunkModel>)
    requires
        forall|i: int| 0 <= i < ms.len() ==> (#[trigger] ms[i]).wf(),
    ensures
        parse_stream(chunks_bytes(ms)) == Ok::<Seq<ChunkModel>, PngErr>(ms),
    decreases ms.len(),
{
    if ms.len() == 0 {
        assert(chunks_bytes(ms).len() == 0);
        assert(parse_stream(chunks_bytes(ms)) == Ok::<Seq<ChunkModel>, PngErr>(Seq::empty()));
        assert(ms =~= Seq::<ChunkModel>::empty());
    } else {
        let m = ms[0];
        let s = chunks_bytes(ms);
        let head = chunk_bytes(m);
        let rest = chunks_bytes(ms.drop_first());
        assert(s == head + rest);
        assert(head.len() == 12 + m.data.len());
        assert(s.subrange(0, 4) =~= head.subrange(0, 4));
        assert(head.subrange(0, 4) =~= crate::be::u32_be(m.length));
        crate::be::lemma_be_round_trip(m.length);
        let declared = be_u32(s.subrange(0, 4)) as int;
        assert(declared == m.length);
        assert(declared + 12 == head.len());
        assert(s.subrange(0, declared + 12) =~= head);
        lemma_chunk_round_trip(m);
        assert(parse_chunk(s.subrange(0, declared + 12)) == Ok::<ChunkModel, PngErr>(m));
        assert(s.skip(declared + 12) =~= rest);
        lemma_stream_round_trip(ms.drop_first());
        assert(seq![m] + ms.drop_first() =~= ms);
    }
}

/// Round trip for the container: re-parsing the encoding of any sequence of
/// well-formed chunks, signature included, yields exactly those chunks.
pub proof fn lemma_png_round_trip(ms: Seq<ChunkModel>)
    requires
        forall|i: int| 0 <= i < ms.len() ==> (#[trigger] ms[i]).wf(),
    ensures
        parse_png(png_bytes(ms)) == Ok::<Seq<ChunkModel>, PngErr>(ms),
{
    let s = png_bytes(ms);
    assert(s.subrange(0, 8) =~= png_sig());
    assert(s.skip(8) =~= chunks_bytes(ms));
    lemma_stream_round_trip(ms);
}

/// An ordered collection of chunks; insertion order is preserved.
#[derive(Debug)]
pub struct Png {
    pub chunks: Vec<Chunk>,
}

impl View for Png {
    type V = Seq<ChunkModel>;

    open spec fn view(&self) -> Seq<ChunkModel> {
        self.chunks.deep_view()
    }
}

impl Png {
    /// Wraps an existing chunk sequence.
    pub fn from_chunks(chunks: Vec<Chunk>) -> (r: Png)
        ensures
            r@ == chunks.deep_view(),
    {
        Png { chunks }
    }

    /// The chunks, in order.
    pub fn chunks(&self) -> (r: &Vec<Chunk>)
        ensures
            r@ == self.chunks@,
    {
        &self.chunks
    }

    /// Decodes a whole PNG file: validates the signature, then drains the
    /// chunk stream; any stream error aborts decoding.
    pub fn try_from(bytes: &[u8]) -> (r: PngRes<Png>)
        ensures
            match r {
                Ok(p) => parse_png(bytes@) == Ok::<Seq<ChunkModel>, PngErr>(p@),
                Err(e) => parse_png(bytes@) == Err::<Seq<ChunkModel>, PngErr>(e),
            },
    {
        let n = bytes.len();
        if n < 8 {
            return Err(PngErr::InvalidHeader);
        }
        if !(bytes[0] == 137 && bytes[1] == 80 && bytes[2] == 78 && bytes[3] == 71 && bytes[4]
            == 13 && bytes[5] == 10 && bytes[6] == 26 && bytes[7] == 10) {
            proof {
                assert(bytes@.subrange(0, 8) != png_sig()) by {
                    if bytes@.subrange(0, 8) == png_sig() {
                        assert(bytes@.subrange(0, 8)[0] == 137);
                        assert(bytes@.subrange(0, 8)[1] == 80);
                        assert(bytes@.subrange(0, 8)[2] == 78);
                        assert(bytes@.subrange(0, 8)[3] == 71);
                        assert(bytes@.subrange(0, 8)[4] == 13);
                        assert(bytes@.subrange(0, 8)[5] == 10);
                        assert(bytes@.subrange(0, 8)[6] == 26);
                        assert(bytes@.subrange(0, 8)[7] == 10);
                    }
                }
            }
            return Err(PngErr::InvalidHeader);
        }
        proof {
            assert(bytes@.subrange(0, 8) =~= png_sig());
        }
        let tail = slice_subrange(bytes, 8, n);
        let mut chunks: Vec<Chunk> = Vec::new();
        let mut iter = ChunkIter::new(tail);
        proof {
            assert(tail@ =~= bytes@.skip(8));
            assert(tail@.skip(0) =~= tail@);
            assert(chunks.deep_view() =~= Seq::<ChunkModel>::empty());
            match parse_stream(tail@) {
                Ok(rest) => {
                    assert(Seq::<ChunkModel>::empty() + rest =~= rest);
                },
                Err(_) => {},
            }
        }
        loop
            invariant
                iter.wf(),
                iter.buf@ == tail@,
                tail@ == bytes@.skip(8),
                bytes@.len() >= 8,
                bytes@.subrange(0, 8) == png_sig(),
                !iter.tainted,
                parse_stream(tail@) == match parse_stream(tail@.skip(iter.pos as int)) {
                    Ok(rest) => Ok::<Seq<ChunkModel>, PngErr>(chunks.deep_view() + rest),
                    Err(e) => Err::<Seq<ChunkModel>, PngErr>(e),
                },
            decreases tail@.len() - iter.pos,
        {
            let ghost prev_pos = iter.pos as int;
            let ghost prev_models = chunks.deep_view();
            match iter.next() {
                None => {
                    proof {
                        assert(tail@.skip(prev_pos) =~= Seq::<u8>::empty());
                        assert(chunks.deep_view() + Seq::<ChunkModel>::empty()
                            =~= chunks.deep_view());
                    }
                    return Ok(Png { chunks });
                },
                Some(Ok(c)) => {
                    proof {
                        let suf = tail@.skip(prev_pos);
                        let declared = be_u32(suf.subrange(0, 4)) as int;
                        assert(suf.subrange(0, 4) =~= tail@.subrange(prev_pos, prev_pos + 4));
                        assert(suf.subrange(0, declared + 12) =~= tail@.subrange(
                            prev_pos,
                            prev_pos + declared + 12,
                        ));
                        assert(suf.skip(declared + 12) =~= tail@.skip(prev_pos + declared + 12));
                        assert(parse_chunk(suf.subrange(0, declared + 12)) == Ok::<
                            ChunkModel,
                            PngErr,
                        >(c@));
                    }
                    chunks.push(c);
                    proof {
                        assert(chunks.deep_view() =~= prev_models.push(c@));
                        let new_suf = tail@.skip(iter.pos as int);
                        match parse_stream(new_suf) {
                            Ok(rest) => {
                                assert(prev_models.push(c@) + rest =~= prev_models + (seq![c@]
                                    + rest));
                            },
                            Err(_) => {},
                        }
                    }
                },
                Some(Err(e)) => {
                    proof {
                        let suf = tail@.skip(prev_pos);
                        if suf.len() < 12 {
                        } else {
                            let declared = be_u32(suf.subrange(0, 4)) as int;
                            assert(suf.subrange(0, 4) =~= tail@.subrange(prev_pos, prev_pos + 4));
                            if suf.len() < declared + 12 {
                            } else {
                                assert(suf.subrange(0, declared + 12) =~= tail@.subrange(
                                    prev_pos,
                                    prev_pos + declared + 12,
                                ));
                            }
                        }
                    }
                    return Err(e);
                },
            }
        }
    }

    /// Encodes the whole file: the signature, then each chunk's bytes in
    /// sequence order.
    pub fn as_bytes(&self) -> (r: Vec<u8>)
        ensures
            r@ == png_bytes(self@),
    {
        let mut out: Vec<u8> = Vec::new();
        out.push(137);
        out.push(80);
        out.push(78);
        out.push(71);
        out.push(13);
        out.push(10);
        out.push(26);
        out.push(10);
        proof {
            assert(out@ =~= png_sig());
            assert(self@.subrange(0, 0) =~= Seq::<ChunkModel>::empty());
            assert(chunks_bytes(self@.subrange(0, 0)) =~= Seq::<u8>::empty());
            assert(out@ =~= png_sig() + chunks_bytes(self@.subrange(0, 0)));
        }
        let mut i: usize = 0;
        while i < self.chunks.len()
            invariant
                i <= self@.len(),
                self@.len() == self.chunks@.len(),
                out@ == png_sig() + chunks_bytes(self@.subrange(0, i as int)),
            decreases self@.len() - i,
        {
            let mut cb = self.chunks[i].as_bytes();
            proof {
                lemma_chunks_bytes_push(self@.subrange(0, i as int), self@[i as int]);
                assert(self@.subrange(0, i as int).push(self@[i as int]) =~= self@.subrange(
                    0,
                    i as int + 1,
                ));
            }
            out.append(&mut cb);
            i += 1;
            proof {
                assert(out@ =~= png_sig() + chunks_bytes(self@.subrange(0, i as int)));
            }
        }
        proof {
            assert(self@.subrange(0, self@.len() as int) =~= self@);
        }
        out
    }

    /// The first chunk whose 4-byte type equals `tag`, if any.
    pub fn chunk_by_type(&self, tag: &str) -> (r: Option<&Chunk>)
        ensures
            match r {
                Some(c) => exists|i: int|
                    #![trigger self@[i]]
                    {
                        &&& 0 <= i < self@.len()
                        &&& self@[i] == c@
                        &&& c@.ty == tag.spec_bytes()
                        &&& forall|j: int|
                            0 <= j < i ==> (#[trigger] self@[j]).ty != tag.spec_bytes()
                    },
                None => forall|i: int|
                    0 <= i < self@.len() ==> (#[trigger] self@[i]).ty != tag.spec_bytes(),
            },
    {
        let tb = tag.as_bytes();
        if tb.len() != 4 {
            return None;
        }
        let mut k: usize = 0;
        while k < self.chunks.len()
            invariant
                k <= self@.len(),
                self@.len() == self.chunks@.len(),
                tb@ == tag.spec_bytes(),
                tb@.len() == 4,
                forall|j: int| 0 <= j < k ==> (#[trigger] self@[j]).ty != tag.spec_bytes(),
            decreases self@.len() - k,
        {
            let b = &self.chunks[k].chunk_type.bytes;
            if b[0] == tb[0] && b[1] == tb[1] && b[2] == tb[2] && b[3] == tb[3] {
                proof {
                    assert(self@[k as int].ty =~= tag.spec_bytes());
                }
                return Some(&self.chunks[k]);
            }
            proof {
                assert(self@[k as int].ty != tag.spec_bytes());
            }
            k += 1;
        }
        None
    }

    /// Appends a chunk, keeping a terminal IEND chunk last: the new chunk
    /// goes immediately before a final IEND, else at the end.
    pub fn append_chunk(&mut self, chunk: Chunk)
        ensures
            final(self)@ == spec_append(old(self)@, chunk@),
    {
        let len = self.chunks.len();
        if len > 0 {
            let b = &self.chunks[len - 1].chunk_type.bytes;
            if b[0] == 73 && b[1] == 69 && b[2] == 78 && b[3] == 68 {
                proof {
                    assert(old(self)@.last().ty =~= iend_tag());
                }
                self.chunks.insert(len - 1, chunk);
                proof {
                    assert(self.chunks.deep_view() =~= old(self)@.insert(
                        old(self)@.len() - 1,
                        chunk@,
                    ));
                }
                return ;
            }
            proof {
                assert(old(self)@.last().ty != iend_tag());
            }
        }
        self.chunks.push(chunk);
        proof {
            assert(self.chunks.deep_view() =~= old(self)@.push(chunk@));
        }
    }

    /// Removes the first chunk whose type equals `tag`; fails with
    /// `ChunkNotFound` when no chunk matches.
    pub fn remove_chunk(&mut self, tag: &str) -> (r: PngRes)
        ensures
            match r {
                Ok(()) => exists|i: int|
                    #![trigger old(self)@[i]]
                    {
                        &&& 0 <= i < old(self)@.len()
                        &&& old(self)@[i].ty == tag.spec_bytes()
                        &&& forall|j: int|
                            0 <= j < i ==> (#[trigger] old(self)@[j]).ty != tag.spec_bytes()
                        &&& final(self)@ == old(self)@.remove(i)
                    },
                Err(e) => {
                    &&& e == PngErr::ChunkNotFound
                    &&& *final(self) == *old(self)
                    &&& forall|i: int|
                        0 <= i < old(self)@.len() ==> (#[trigger] old(
                            self,
                        )@[i]).ty != tag.spec_bytes()
                },
            },
    {
        let tb = tag.as_bytes();
        if tb.len() != 4 {
            return Err(PngErr::ChunkNotFound);
        }
        let mut k: usize = 0;
        while k < self.chunks.len()
            invariant
                k <= self@.len(),
                self@.len() == self.chunks@.len(),
                *self == *old(self),
                tb@ == tag.spec_bytes(),
                tb@.len() == 4,
                forall|j: int| 0 <= j < k ==> (#[trigger] self@[j]).ty != tag.spec_bytes(),
            decreases self@.len() - k,
        {
            let b = &self.chunks[k].chunk_type.bytes;
            if b[0] == tb[0] && b[1] == tb[1] && b[2] == tb[2] && b[3] == tb[3] {
                proof {
                    assert(self@[k as int].ty =~= tag.spec_bytes());
                }
                self.chunks.remove(k);
                proof {
                    assert(self.chunks.deep_view() =~= old(self)@.remove(k as int));
                }
                return Ok(());
            }
            proof {
                assert(self@[k as int].ty != tag.spec_bytes());
            }
            k += 1;
        }
        Err(PngErr::ChunkNotFound)
    }
}

/// Where an appended chunk lands: immediately before a terminal IEND chunk
/// if one ends the sequence, else at the end.
pub open spec fn spec_append(ms: Seq<ChunkModel>, m: ChunkModel) -> Seq<ChunkModel> {
    if ms.len() > 0 && ms.last().ty == iend_tag() {
        ms.insert(ms.len() - 1, m)
    } else {
        ms.push(m)
    }
}

/// The first chunk of type `tag` in a chunk sequence, if any.
pub open spec fn first_of_type(ms: Seq<ChunkModel>, tag: Seq<u8>) -> Option<ChunkModel>
    decreases ms.len(),
{
    if ms.len() == 0 {
        None
    } else if ms[0].ty == tag {
        Some(ms[0])
    } else {
        first_of_type(ms.drop_first(), tag)
    }
}

/// A first match characterized by position equals `first_of_type`.
pub proof fn lemma_first_of_type_some(ms: Seq<ChunkModel>, tag: Seq<u8>, i: int)
    requires
        0 <= i < ms.len(),
        ms[i].ty == tag,
        forall|j: int| 0 <= j < i ==> (#[trigger] ms[j]).ty != tag,
    ensures
        first_of_type(ms, tag) == Some(ms[i]),
    decreases i,
{
    if i == 0 {
    } else {
        assert(ms[0].ty != tag);
        assert(ms.drop_first()[i - 1] == ms[i]);
        assert(forall|j: int| 0 <= j < i - 1 ==> (#[trigger] ms.drop_first()[j]).ty != tag);
        lemma_first_of_type_some(ms.drop_first(), tag, i - 1);
    }
}

/// With no match anywhere, `first_of_type` yields nothing.
pub proof fn lemma_first_of_type_none(ms: Seq<ChunkModel>, tag: Seq<u8>)
    requires
        forall|j: int| 0 <= j < ms.len() ==> (#[trigger] ms[j]).ty != tag,
    ensures
        first_of_type(ms, tag) is None,
    decreases ms.len(),
{
    if ms.len() == 0 {
    } else {
        assert(ms[0].ty != tag);
        assert(forall|j: int|
            0 <= j < ms.drop_first().len() ==> (#[trigger] ms.drop_first()[j]).ty != tag);
        lemma_first_of_type_none(ms.drop_first(), tag);
    }
}

/// The chunk sequence with the first chunk of type `tag` removed; without a
/// match, the sequence is unchanged.
pub open spec fn remove_first(ms: Seq<ChunkModel>, tag: Seq<u8>) -> Seq<ChunkModel>
    decreases ms.len(),
{
    if ms.len() == 0 {
        ms
    } else if ms[0].ty == tag {
        ms.drop_first()
    } else {
        seq![ms[0]] + remove_first(ms.drop_first(), tag)
    }
}

/// Removing a first match characterized by position equals `remove_first`.
pub proof fn lemma_remove_first(ms: Seq<ChunkModel>, tag: Seq<u8>, i: int)
    requires
        0 <= i < ms.len(),
        ms[i].ty == tag,
        forall|j: int| 0 <= j < i ==> (#[trigger] ms[j]).ty != tag,
    ensures
        remove_first(ms, tag) == ms.remove(i),
    decreases i,
{
    if i == 0 {
        assert(ms.remove(0) =~= ms.drop_first());
    } else {
        assert(ms[0].ty != tag);
        assert(ms.drop_first()[i - 1] == ms[i]);
        assert(forall|j: int| 0 <= j < i - 1 ==> (#[trigger] ms.drop_first()[j]).ty != tag);
        lemma_remove_first(ms.drop_first(), tag, i - 1);
        assert(ms.remove(i) =~= seq![ms[0]] + ms.drop_first().remove(i - 1));
    }
}

/// The concatenation of every IDAT chunk's payload, in order.
pub open spec fn idat_payload(ms: Seq<ChunkModel>) -> Seq<u8>
    decreases ms.len(),
{
    if ms.len() == 0 {
        Seq::empty()
    } else if ms[0].ty == idat_tag() {
        ms[0].data + idat_payload(ms.drop_first())
    } else {
        idat_payload(ms.drop_first())
    }
}

/// True for the chunk types an image cannot do without: IHDR, PLTE, IDAT and
/// IEND.
pub open spec fn essential_tag(ty: Seq<u8>) -> bool {
    ty == ihdr_tag() || ty == plte_tag() || ty == idat_tag() || ty == iend_tag()
}

/// The chunk sequence after a scrub: only essential chunks remain, in their
/// original order.
pub open spec fn scrubbed(ms: Seq<ChunkModel>) -> Seq<ChunkModel>
    decreases ms.len(),
{
    if ms.len() == 0 {
        Seq::empty()
    } else if essential_tag(ms[0].ty) {
        seq![ms[0]] + scrubbed(ms.drop_first())
    } else {
        scrubbed(ms.drop_first())
    }
}

impl Png {
    /// Removes every chunk whose type is not one of the essential standard
    /// types, stripping metadata while preserving renderability.
    pub fn scrub(&mut self)
        ensures
            final(self)@ == scrubbed(old(self)@),
    {
        let ghost orig = old(self)@;
        let ghost mut j: int = 0;
        let mut i: usize = 0;
        proof {
            assert(orig.skip(0) =~= orig);
            assert(self.chunks.deep_view().subrange(0, 0) =~= Seq::<ChunkModel>::empty());
        }
        while i < self.chunks.len()
            invariant
                0 <= j <= orig.len(),
                i <= self.chunks@.len(),
                self.chunks.deep_view() == self.chunks.deep_view().subrange(0, i as int)
                    + orig.skip(j),
                scrubbed(orig) == self.chunks.deep_view().subrange(0, i as int) + scrubbed(
                    orig.skip(j),
                ),
                forall|t: int|
                    0 <= t < i ==> essential_tag(
                        (#[trigger] self.chunks.deep_view()[t]).ty,
                    ),
            decreases self.chunks@.len() - i,
        {
            let ghost pre = self.chunks.deep_view();
            proof {
                assert(orig.skip(j)[0] == pre[i as int]);
                assert(orig.skip(j).drop_first() =~= orig.skip(j + 1));
            }
            let b = &self.chunks[i].chunk_type.bytes;
            let keep = (b[0] == 73 && b[1] == 72 && b[2] == 68 && b[3] == 82) || (b[0] == 80 && b[1]
                == 76 && b[2] == 84 && b[3] == 69) || (b[0] == 73 && b[1] == 68 && b[2] == 65
                && b[3] == 84) || (b[0] == 73 && b[1] == 69 && b[2] == 78 && b[3] == 68);
            proof {
                if keep {
                    assert(pre[i as int].ty =~= seq![b@[0], b@[1], b@[2], b@[3]]);
                    assert(essential_tag(pre[i as int].ty));
                } else {
                    let t0 = pre[i as int].ty;
                    assert(t0 != ihdr_tag() && t0 != plte_tag() && t0 != idat_tag() && t0
                        != iend_tag()) by {
                        assert(t0 =~= seq![b@[0], b@[1], b@[2], b@[3]]);
                    }
                }
            }
            if keep {
                i += 1;
                proof {
                    j = j + 1;
                    assert(self.chunks.deep_view().subrange(0, i as int) =~= pre.subrange(
                        0,
                        i - 1 as int,
                    ) + seq![pre[i - 1 as int]]);
                    assert(self.chunks.deep_view() == self.chunks.deep_view().subrange(0, i as int)
                        + orig.skip(j)) by {
                        assert(self.chunks.deep_view() =~= self.chunks.deep_view().subrange(
                            0,
                            i as int,
                        ) + orig.skip(j));
                    }
                    assert(scrubbed(orig) == self.chunks.deep_view().subrange(0, i as int)
                        + scrubbed(orig.skip(j))) by {
                        assert(scrubbed(orig) =~= self.chunks.deep_view().subrange(0, i as int)
                            + scrubbed(orig.skip(j)));
                    }
                }
            } else {
                self.chunks.remove(i);
                proof {
                    j = j + 1;
                    assert(self.chunks.deep_view() =~= pre.remove(i as int));
                    assert(self.chunks.deep_view().subrange(0, i as int) =~= pre.subrange(
                        0,
                        i as int,
                    ));
                    assert(self.chunks.deep_view() =~= self.chunks.deep_view().subrange(
                        0,
                        i as int,
                    ) + orig.skip(j));
                    assert(scrubbed(orig) =~= self.chunks.deep_view().subrange(0, i as int)
                        + scrubbed(orig.skip(j)));
                }
            }
        }
        proof {
            assert(orig.skip(j).len() == 0);
            assert(scrubbed(orig.skip(j)) =~= Seq::<ChunkModel>::empty());
            assert(self.chunks.deep_view().subrange(0, i as int) =~= self.chunks.deep_view());
            assert(final(self)@ =~= scrubbed(orig));
        }
    }
}

} // verus!
