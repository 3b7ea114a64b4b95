//! PNG chunks: length-prefixed, CRC-suffixed binary records, together with a
//! fault-isolating streaming parser over a byte buffer.

use vstd::prelude::*;
use vstd::slice::{slice_subrange, slice_to_vec};
use vstd::string::StringExecFns;

use crate::be::{be_to_u32, be_u32, lemma_be_round_trip, u32_be, u32_to_be};
use crate::checksum::{crc32, crc32_of};
use crate::chunk_type::{all_letters, ChunkType};
use crate::err::{PngErr, PngRes};
use crate::INT_MAX;

verus! {

/// Converts a slice into exactly four bytes; fails with `InvalidSegment` on
/// any other length.
pub fn segment4(bytes: &[u8]) -> (r: PngRes<[u8; 4]>)
    ensures
        match r {
            Ok(a) => a@ == bytes@ && bytes@.len() == 4,
            Err(e) => e == PngErr::InvalidSegment && bytes@.len() != 4,
        },
{
    if bytes.len() == 4 {
        let a = [bytes[0], bytes[1], bytes[2], bytes[3]];
        proof {
            assert(a@ =~= bytes@);
        }
        Ok(a)
    } else {
        Err(PngErr::InvalidSegment)
    }
}

/// The tag bytes of the IHDR chunk.
pub open spec fn ihdr_tag() -> Seq<u8> {
    seq![73u8, 72u8, 68u8, 82u8]
}

/// The tag bytes of the PLTE chunk.
pub open spec fn plte_tag() -> Seq<u8> {
    seq![80u8, 76u8, 84u8, 69u8]
}

/// The tag bytes of the IDAT chunk.
pub open spec fn idat_tag() -> Seq<u8> {
    seq![73u8, 68u8, 65u8, 84u8]
}

/// The tag bytes of the IEND chunk.
pub open spec fn iend_tag() -> Seq<u8> {
    seq![73u8, 69u8, 78u8, 68u8]
}

/// The mathematical content of a chunk: its declared length, type tag bytes,
/// payload bytes and stored checksum.
pub ghost struct ChunkModel {
    pub length: u32,
    pub ty: Seq<u8>,
    pub data: Seq<u8>,
    pub crc: u32,
}

impl ChunkModel {
    /// A well-formed chunk: a valid 4-letter tag, a length that counts the
    /// payload and stays under the 2^31 cap, and a checksum over tag and
    /// payload.
    pub open spec fn wf(self) -> bool {
        &&& self.ty.len() == 4
        &&& all_letters(self.ty)
        &&& self.length == self.data.len()
        &&& self.data.len() <= INT_MAX
        &&& self.crc == crc32_of(self.ty + self.data)
    }
}

/// The wire encoding of a chunk:
/// `length(4, BE) ++ type(4) ++ data ++ crc(4, BE)`.
pub open spec fn chunk_bytes(m: ChunkModel) -> Seq<u8> {
    u32_be(m.length) + m.ty + m.data + u32_be(m.crc)
}

/// Parses one whole chunk from `s`, which must hold exactly the chunk.
///
/// The checks run in this order and the first failure wins: too short,
/// invalid type byte, declared length not matching the payload, checksum
/// mismatch.
pub open spec fn parse_chunk(s: Seq<u8>) -> Result<ChunkModel, PngErr> {
    if s.len() < 12 {
        Err(PngErr::ShortChunk)
    } else {
        let declared = be_u32(s.subrange(0, 4));
        let ty = s.subrange(4, 8);
        let data = s.subrange(8, s.len() - 4);
        let body = s.subrange(4, s.len() - 4);
        let stored = be_u32(s.subrange(s.len() - 4, s.len() as int));
        if !all_letters(ty) {
            Err(PngErr::InvalidByte)
        } else if declared != s.len() - 12 {
            Err(PngErr::LengthMismatch)
        } else if stored != crc32_of(body) {
            Err(PngErr::CRCMismatch)
        } else {
            Ok(ChunkModel { length: declared, ty, data, crc: stored })
        }
    }
}

/// Round trip: re-parsing the wire encoding of any well-formed chunk yields
/// the chunk back, with length, type, data and crc all equal.
pub proof fn lemma_chunk_round_trip(m: ChunkModel)
    requires
        m.wf(),
    ensures
        parse_chunk(chunk_bytes(m)) == Ok::<ChunkModel, PngErr>(m),
{
    let s = chunk_bytes(m);
    assert(s.len() == 12 + m.data.len());
    assert(s.subrange(0, 4) =~= u32_be(m.length));
    assert(s.subrange(4, 8) =~= m.ty);
    assert(s.subrange(8, s.len() - 4) =~= m.data);
    assert(s.subrange(4, s.len() - 4) =~= m.ty + m.data);
    assert(s.subrange(s.len() - 4, s.len() as int) =~= u32_be(m.crc));
    lemma_be_round_trip(m.length);
    lemma_be_round_trip(m.crc);
}

/// Unambiguity: two well-formed chunks with the same wire encoding are the
/// same chunk, so an encoding determines its chunk completely.
pub proof fn lemma_chunk_bytes_injective(m1: ChunkModel, m2: ChunkModel)
    requires
        m1.wf(),
        m2.wf(),
        chunk_bytes(m1) == chunk_bytes(m2),
    ensures
        m1 == m2,
{
    lemma_chunk_round_trip(m1);
    lemma_chunk_round_trip(m2);
}

/// A parsed PNG chunk. Immutable after construction; `crc` always stores the
/// checksum that arrived with (or was computed for) the record.
#[derive(Debug, Clone)]
pub struct Chunk {
    pub length: u32,
    pub chunk_type: ChunkType,
    pub data: Vec<u8>,
    pub crc: u32,
}

impl View for Chunk {
    type V = ChunkModel;

    open spec fn view(&self) -> ChunkModel {
        ChunkModel {
            length: self.length,
            ty: self.chunk_type.bytes@,
            data: self.data@,
            crc: self.crc,
        }
    }
}

impl DeepView for Chunk {
    type V = ChunkModel;

    open spec fn deep_view(&self) -> ChunkModel {
        self@
    }
}

impl Chunk {
    /// The chunk invariant, stated over the model.
    pub open spec fn wf(&self) -> bool {
        self@.wf()
    }

    /// Builds a chunk from a type tag and payload, computing the checksum
    /// over tag and payload in one pass. The payload must stay under the
    /// 2^31 length cap.
    pub fn new(chunk_type: ChunkType, data: Vec<u8>) -> (r: Chunk)
        requires
            data@.len() <= INT_MAX,
        ensures
            r@ == (ChunkModel {
                length: data@.len() as u32,
                ty: chunk_type.bytes@,
                data: data@,
                crc: crc32_of(chunk_type.bytes@ + data@),
            }),
            chunk_type.wf() ==> r.wf(),
    {
        let mut buf: Vec<u8> = Vec::new();
        buf.push(chunk_type.bytes[0]);
        buf.push(chunk_type.bytes[1]);
        buf.push(chunk_type.bytes[2]);
        buf.push(chunk_type.bytes[3]);
        proof {
            assert(buf@ =~= chunk_type.bytes@);
        }
        let mut i: usize = 0;
        while i < data.len()
            invariant
                i <= data@.len(),
                buf@ == chunk_type.bytes@ + data@.subrange(0, i as int),
            decreases data@.len() - i,
        {
            buf.push(data[i]);
            i += 1;
            proof {
                assert(buf@ =~= chunk_type.bytes@ + data@.subrange(0, i as int));
            }
        }
        proof {
            assert(data@.subrange(0, data@.len() as int) =~= data@);
        }
        let crc = crc32(buf.as_slice());
        Chunk { length: data.len() as u32, chunk_type, data, crc }
    }

    /// The declared payload length.
    pub fn length(&self) -> (r: u32)
        ensures
            r == self@.length,
    {
        self.length
    }

    /// The chunk's type tag.
    pub fn chunk_type(&self) -> (r: &ChunkType)
        ensures
            r == self.chunk_type,
    {
        &self.chunk_type
    }

    /// The payload bytes.
    pub fn data(&self) -> (r: &[u8])
        ensures
            r@ == self@.data,
    {
        self.data.as_slice()
    }

    /// The stored checksum.
    pub fn crc(&self) -> (r: u32)
        ensures
            r == self@.crc,
    {
        self.crc
    }

    /// The wire encoding of the chunk.
    pub fn as_bytes(&self) -> (r: Vec<u8>)
        ensures
            r@ == chunk_bytes(self@),
    {
        let mut out: Vec<u8> = Vec::new();
        let len_be = u32_to_be(self.length);
        out.push(len_be[0]);
        out.push(len_be[1]);
        out.push(len_be[2]);
        out.push(len_be[3]);
        out.push(self.chunk_type.bytes[0]);
        out.push(self.chunk_type.bytes[1]);
        out.push(self.chunk_type.bytes[2]);
        out.push(self.chunk_type.bytes[3]);
        proof {
            assert(out@ =~= u32_be(self@.length) + self@.ty);
        }
        let mut i: usize = 0;
        while i < self.data.len()
            invariant
                i <= self@.data.len(),
                out@ == u32_be(self@.length) + self@.ty + self@.data.subrange(0, i as int),
            decreases self@.data.len() - i,
        {
            out.push(self.data[i]);
            i += 1;
            proof {
                assert(out@ =~= u32_be(self@.length) + self@.ty + self@.data.subrange(0, i as int));
            }
        }
        let crc_be = u32_to_be(self.crc);
        out.push(crc_be[0]);
        out.push(crc_be[1]);
        out.push(crc_be[2]);
        out.push(crc_be[3]);
        proof {
            assert(self@.data.subrange(0, self@.data.len() as int) =~= self@.data);
            assert(out@ =~= chunk_bytes(self@));
        }
        out
    }

    /// Parses a chunk from a buffer holding exactly one chunk, validating
    /// length and checksum; the result is exactly what `parse_chunk` says.
    pub fn try_from(bytes: &[u8]) -> (r: PngRes<Chunk>)
        ensures
            match r {
                Ok(c) => parse_chunk(bytes@) == Ok::<ChunkModel, PngErr>(c@),
                Err(e) => parse_chunk(bytes@) == Err::<ChunkModel, PngErr>(e),
            },
    {
        let n = bytes.len();
        if n < 12 {
            return Err(PngErr::ShortChunk);
        }
        let declared = be_to_u32(bytes[0], bytes[1], bytes[2], bytes[3]);
        proof {
            assert(seq![bytes@[0], bytes@[1], bytes@[2], bytes@[3]] =~= bytes@.subrange(0, 4));
        }
        let chunk_type = match ChunkType::from_bytes(slice_subrange(bytes, 4, 8)) {
            Ok(t) => t,
            Err(_) => {
                return Err(PngErr::InvalidByte);
            },
        };
        let stored = be_to_u32(bytes[n - 4], bytes[n - 3], bytes[n - 2], bytes[n - 1]);
        proof {
            assert(seq![
                bytes@[n - 4],
                bytes@[n - 3],
                bytes@[n - 2],
                bytes@[n - 1],
            ] =~= bytes@.subrange(n - 4, n as int));
        }
        let data = slice_to_vec(slice_subrange(bytes, 8, n - 4));
        if data.len() != declared as usize {
            return Err(PngErr::LengthMismatch);
        }
        let body = slice_subrange(bytes, 4, n - 4);
        if crc32(body) != stored {
            return Err(PngErr::CRCMismatch);
        }
        Ok(Chunk { length: declared, chunk_type, data, crc: stored })
    }
}

/// The 13 payload bytes of an IHDR chunk for the given dimensions: width and
/// height big-endian, bit depth 8, color type 6 (RGBA), then compression,
/// filter and interlace methods, all 0.
pub open spec fn ihdr_data(width: u32, height: u32) -> Seq<u8> {
    u32_be(width) + u32_be(height) + seq![8u8, 6u8, 0u8, 0u8, 0u8]
}

impl Chunk {
    /// Builds the IHDR header chunk for an 8-bit RGBA image of the given
    /// dimensions; each dimension must stay under the 2^31 cap.
    pub fn ihdr(width: u32, height: u32) -> (r: PngRes<Chunk>)
        ensures
            match r {
                Ok(c) => {
                    &&& width <= INT_MAX
                    &&& height <= INT_MAX
                    &&& c@ == (ChunkModel {
                        length: 13,
                        ty: ihdr_tag(),
                        data: ihdr_data(width, height),
                        crc: crc32_of(ihdr_tag() + ihdr_data(width, height)),
                    })
                    &&& c.wf()
                },
                Err(e) => {
                    if width > INT_MAX {
                        e == PngErr::IHDRWidthOverflow
                    } else {
                        e == PngErr::IHDRHeightOverflow && height > INT_MAX
                    }
                },
            },
    {
        if width > INT_MAX {
            return Err(PngErr::IHDRWidthOverflow);
        }
        if height > INT_MAX {
            return Err(PngErr::IHDRHeightOverflow);
        }
        let wb = u32_to_be(width);
        let hb = u32_to_be(height);
        let mut data: Vec<u8> = Vec::new();
        data.push(wb[0]);
        data.push(wb[1]);
        data.push(wb[2]);
        data.push(wb[3]);
        data.push(hb[0]);
        data.push(hb[1]);
        data.push(hb[2]);
        data.push(hb[3]);
        data.push(8);
        data.push(6);
        data.push(0);
        data.push(0);
        data.push(0);
        proof {
            assert(data@ =~= ihdr_data(width, height));
        }
        let ty = ChunkType { bytes: [73, 72, 68, 82] };
        proof {
            assert(ty.bytes@ =~= ihdr_tag());
            assert(ty.wf());
        }
        Ok(Chunk::new(ty, data))
    }

    /// Reads the image dimensions back out of an IHDR chunk's 13-byte
    /// payload; any other payload length is an invalid header.
    pub fn ihdr_to_dimensions(chunk: &Chunk) -> (r: PngRes<(u32, u32)>)
        ensures
            match r {
                Ok(d) => {
                    &&& chunk@.data.len() == 13
                    &&& d.0 == be_u32(chunk@.data.subrange(0, 4))
                    &&& d.1 == be_u32(chunk@.data.subrange(4, 8))
                },
                Err(e) => e == PngErr::InvalidIHDR && chunk@.data.len() != 13,
            },
    {
        if chunk.data.len() == 13 {
            let w = be_to_u32(chunk.data[0], chunk.data[1], chunk.data[2], chunk.data[3]);
            let h = be_to_u32(chunk.data[4], chunk.data[5], chunk.data[6], chunk.data[7]);
            proof {
                let d = chunk@.data;
                assert(seq![d[0], d[1], d[2], d[3]] =~= d.subrange(0, 4));
                assert(seq![d[4], d[5], d[6], d[7]] =~= d.subrange(4, 8));
            }
            Ok((w, h))
        } else {
            Err(PngErr::InvalidIHDR)
        }
    }

    /// Builds the empty terminal IEND chunk.
    pub fn iend() -> (r: PngRes<Chunk>)
        ensures
            match r {
                Ok(c) => c@ == (ChunkModel {
                    length: 0,
                    ty: iend_tag(),
                    data: Seq::empty(),
                    crc: crc32_of(iend_tag() + Seq::<u8>::empty()),
                }) && c.wf(),
                Err(_) => false,
            },
    {
        let ty = ChunkType { bytes: [73, 69, 78, 68] };
        proof {
            assert(ty.bytes@ =~= iend_tag());
            assert(ty.wf());
        }
        let c = Chunk::new(ty, Vec::new());
        Ok(c)
    }

    /// Wraps already-compressed pixel data in an IDAT chunk.
    pub fn idat(data: &[u8]) -> (r: PngRes<Chunk>)
        requires
            data@.len() <= INT_MAX,
        ensures
            match r {
                Ok(c) => c@ == (ChunkModel {
                    length: data@.len() as u32,
                    ty: idat_tag(),
                    data: data@,
                    crc: crc32_of(idat_tag() + data@),
                }) && c.wf(),
                Err(_) => false,
            },
    {
        let ty = ChunkType { bytes: [73, 68, 65, 84] };
        proof {
            assert(ty.bytes@ =~= idat_tag());
            assert(ty.wf());
        }
        let c = Chunk::new(ty, slice_to_vec(data));
        Ok(c)
    }

    /// One human-readable line for the chunk: its type and length, then its
    /// payload as text when the payload is UTF-8.
    pub fn to_string(&self) -> (r: String)
        ensures
            r@ == chunk_line(self@),
    {
        let mut s = self.chunk_type.to_string();
        s.append(" (");
        crate::text::push_dec(self.length, &mut s);
        s.append(")");
        match self.data_as_string() {
            Ok(t) => {
                proof {
                    vstd::utf8::encode_utf8_valid_utf8(t@);
                    vstd::utf8::encode_utf8_decode_utf8(t@);
                }
                s.append(": ");
                if self.data.len() == 0 {
                    s.append("<empty>");
                } else {
                    s.append(t.as_str());
                }
            },
            Err(_) => {
                proof {
                    if vstd::utf8::valid_utf8(self@.data) {
                        vstd::utf8::decode_utf8_encode_utf8(self@.data);
                        assert(vstd::utf8::encode_utf8(vstd::utf8::decode_utf8(self@.data))
                            == self@.data);
                    }
                }
            },
        }
        s
    }

    /// Decodes the payload as UTF-8 text; fails with `NotUTF8` exactly when
    /// no character sequence encodes to the payload bytes.
    pub fn data_as_string(&self) -> (r: PngRes<String>)
        ensures
            match r {
                Ok(s) => vstd::utf8::encode_utf8(s@) == self@.data,
                Err(e) => e == PngErr::NotUTF8 && forall|t: Seq<char>|
                    vstd::utf8::encode_utf8(t) != self@.data,
            },
    {
        match crate::text::string_from_utf8(slice_to_vec(self.data.as_slice())) {
            Some(s) => Ok(s),
            None => Err(PngErr::NotUTF8),
        }
    }
}

/// The listing line of a chunk: its type tag and payload length, and the
/// payload itself when it is UTF-8 text (an empty payload shows as
/// `<empty>`).
pub open spec fn chunk_line(m: ChunkModel) -> Seq<char> {
    let head = crate::text::tag_chars(m.ty) + " ("@ + crate::text::dec_str(m.length as int)
        + ")"@;
    if vstd::utf8::valid_utf8(m.data) {
        if m.data.len() == 0 {
            head + ": "@ + "<empty>"@
        } else {
            head + ": "@ + vstd::utf8::decode_utf8(m.data)
        }
    } else {
        head
    }
}

/// A streaming chunk parser over a byte buffer. A cursor walks the buffer;
/// the first malformed chunk taints the stream, and a tainted stream yields
/// nothing ever after, because chunk boundaries can no longer be trusted.
#[derive(Debug)]
pub struct ChunkIter<'a> {
    pub buf: &'a [u8],
    pub pos: usize,
    pub tainted: bool,
}

impl<'a> ChunkIter<'a> {
    /// The cursor never runs past the buffer.
    pub open spec fn wf(&self) -> bool {
        self.pos <= self.buf@.len()
    }

    /// Starts a stream at the head of `buf`.
    pub fn new(buf: &'a [u8]) -> (r: Self)
        ensures
            r.buf@ == buf@,
            r.pos == 0,
            !r.tainted,
            r.wf(),
    {
        Self { buf, pos: 0, tainted: false }
    }

    /// Pulls the next chunk. A tainted or exhausted stream yields `None` and
    /// never changes again; a successful parse advances the cursor by exactly
    /// `12 + length` bytes; any failure yields the error once and taints the
    /// stream.
    pub fn next(&mut self) -> (r: Option<PngRes<Chunk>>)
        requires
            old(self).wf(),
        ensures
            final(self).wf(),
            final(self).buf@ == old(self).buf@,
            ({
                let s = old(self).buf@;
                let pos = old(self).pos as int;
                if old(self).tainted || pos == s.len() {
                    &&& r is None
                    &&& *final(self) == *old(self)
                } else if s.len() - pos < 12 {
                    &&& r == Some(PngRes::<Chunk>::Err(PngErr::ShortChunk))
                    &&& final(self).tainted
                    &&& final(self).pos == old(self).pos
                } else {
                    let declared = be_u32(s.subrange(pos, pos + 4)) as int;
                    if s.len() - pos < declared + 12 {
                        &&& r == Some(PngRes::<Chunk>::Err(PngErr::ShortChunk))
                        &&& final(self).tainted
                        &&& final(self).pos == old(self).pos
                    } else {
                        let cb = s.subrange(pos, pos + declared + 12);
                        match parse_chunk(cb) {
                            Ok(m) => {
                                &&& (match r {
                                    Some(Ok(c)) => c@ == m,
                                    _ => false,
                                })
                                &&& final(self).pos == pos + declared + 12
                                &&& final(self).tainted == old(self).tainted
                            },
                            Err(e) => {
                                &&& r == Some(PngRes::<Chunk>::Err(e))
                                &&& final(self).tainted
                                &&& final(self).pos == pos + declared + 12
                            },
                        }
                    }
                }
            }),
    {
        if self.tainted || self.pos == self.buf.len() {
            return None;
        }
        let remaining = self.buf.len() - self.pos;
        if remaining < 12 {
            self.tainted = true;
            return Some(Err(PngErr::ShortChunk));
        }
        let declared = be_to_u32(
            self.buf[self.pos],
            self.buf[self.pos + 1],
            self.buf[self.pos + 2],
            self.buf[self.pos + 3],
        ) as usize;
        proof {
            let s = self.buf@;
            let pos = self.pos as int;
            assert(seq![s[pos], s[pos + 1], s[pos + 2], s[pos + 3]] =~= s.subrange(pos, pos + 4));
        }
        if remaining - 12 < declared {
            self.tainted = true;
            return Some(Err(PngErr::ShortChunk));
        }
        let total = declared + 12;
        let chunk_slice = slice_subrange(self.buf, self.pos, self.pos + total);
        let res = Chunk::try_from(chunk_slice);
        self.pos = self.pos + total;
        match res {
            Ok(c) => Some(Ok(c)),
            Err(e) => {
                self.tainted = true;
                Some(Err(e))
            },
        }
    }
}

} // verus!
