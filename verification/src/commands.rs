//! The logical command surface: each command takes a whole PNG file as
//! bytes, performs one edit or query, and returns the new file bytes or the
//! extracted value. Reading and writing files stays outside the library.

use vstd::prelude::*;
use vstd::slice::slice_to_vec;
use vstd::string::StringSliceAdditionalSpecFns;

use vstd::string::StringExecFns;

use crate::be::be_u32;
use crate::checksum::crc32_of;
use crate::chunk::{chunk_line, ihdr_tag, Chunk, ChunkModel};
use crate::text::dec_str;
use crate::chunk_type::{all_letters, is_upper, ChunkType};
use crate::err::{PngErr, PngRes};
use crate::img::Img;
use crate::png::{first_of_type, parse_png, png_bytes, remove_first, scrubbed, spec_append, Png};
use crate::INT_MAX;

verus! {

/// The chunk a message is wrapped in: the given type tag over the message's
/// UTF-8 bytes, with the checksum over both.
pub open spec fn message_chunk(tag: Seq<u8>, msg: Seq<u8>) -> ChunkModel {
    ChunkModel { length: msg.len() as u32, ty: tag, data: msg, crc: crc32_of(tag + msg) }
}

/// Hides `message` in the PNG file `bytes` under the chunk type named by
/// `chunk_type`, which must be a valid, ancillary, private tag with a valid
/// reserved bit; the chunk lands just before a terminal IEND chunk.
pub fn encode(bytes: &[u8], chunk_type: &str, message: &str) -> (r: PngRes<Vec<u8>>)
    ensures
        ({
            let tagb = chunk_type.spec_bytes();
            let msgb = message.spec_bytes();
            match r {
                Ok(out) => match parse_png(bytes@) {
                    Ok(ms) => {
                        &&& tagb.len() == 4
                        &&& all_letters(tagb)
                        &&& !is_upper(tagb[0])
                        &&& !is_upper(tagb[1])
                        &&& is_upper(tagb[2])
                        &&& msgb.len() <= INT_MAX
                        &&& out@ == png_bytes(spec_append(ms, message_chunk(tagb, msgb)))
                    },
                    Err(_) => false,
                },
                Err(e) => match parse_png(bytes@) {
                    Err(pe) => e == pe,
                    Ok(_) => {
                        if tagb.len() != 4 {
                            e == PngErr::InvalidSegment
                        } else if !all_letters(tagb) {
                            e == PngErr::InvalidByte
                        } else if is_upper(tagb[0]) {
                            e == PngErr::ExpectNonCritical
                        } else if is_upper(tagb[1]) {
                            e == PngErr::ExpectPrivate
                        } else if !is_upper(tagb[2]) {
                            e == PngErr::ExpectReservedBit
                        } else {
                            e == PngErr::IntOverflow && msgb.len() > INT_MAX
                        }
                    },
                },
            }
        }),
{
    let mut png = match Png::try_from(bytes) {
        Ok(p) => p,
        Err(e) => {
            return Err(e);
        },
    };
    let t = match ChunkType::from_bytes(chunk_type.as_bytes()) {
        Ok(t) => t,
        Err(e) => {
            return Err(e);
        },
    };
    match t.checked_me_type() {
        Ok(_) => (),
        Err(e) => {
            return Err(e);
        },
    };
    let mb = message.as_bytes();
    if mb.len() > INT_MAX as usize {
        return Err(PngErr::IntOverflow);
    }
    let chunk = Chunk::new(t, slice_to_vec(mb));
    png.append_chunk(chunk);
    Ok(png.as_bytes())
}

/// Hides `message` in the PNG file `bytes` like `encode`, but accepts any
/// valid 4-letter tag, critical or public ones included.
pub fn encode_unchecked(bytes: &[u8], chunk_type: &str, message: &str) -> (r: PngRes<Vec<u8>>)
    ensures
        ({
            let tagb = chunk_type.spec_bytes();
            let msgb = message.spec_bytes();
            match r {
                Ok(out) => match parse_png(bytes@) {
                    Ok(ms) => {
                        &&& tagb.len() == 4
                        &&& all_letters(tagb)
                        &&& msgb.len() <= INT_MAX
                        &&& out@ == png_bytes(spec_append(ms, message_chunk(tagb, msgb)))
                    },
                    Err(_) => false,
                },
                Err(e) => match parse_png(bytes@) {
                    Err(pe) => e == pe,
                    Ok(_) => {
                        if tagb.len() != 4 {
                            e == PngErr::InvalidSegment
                        } else if !all_letters(tagb) {
                            e == PngErr::InvalidByte
                        } else {
                            e == PngErr::IntOverflow && msgb.len() > INT_MAX
                        }
                    },
                },
            }
        }),
{
    let mut png = match Png::try_from(bytes) {
        Ok(p) => p,
        Err(e) => {
            return Err(e);
        },
    };
    let t = match ChunkType::from_bytes(chunk_type.as_bytes()) {
        Ok(t) => t,
        Err(e) => {
            return Err(e);
        },
    };
    let mb = message.as_bytes();
    if mb.len() > INT_MAX as usize {
        return Err(PngErr::IntOverflow);
    }
    let chunk = Chunk::new(t, slice_to_vec(mb));
    png.append_chunk(chunk);
    Ok(png.as_bytes())
}

/// Reads back the message hidden under `chunk_type`: the UTF-8 text of the
/// first chunk with that type.
pub fn decode(bytes: &[u8], chunk_type: &str) -> (r: PngRes<String>)
    ensures
        ({
            let tagb = chunk_type.spec_bytes();
            match r {
                Ok(s) => match parse_png(bytes@) {
                    Ok(ms) => match first_of_type(ms, tagb) {
                        Some(c) => vstd::utf8::encode_utf8(s@) == c.data,
                        None => false,
                    },
                    Err(_) => false,
                },
                Err(e) => match parse_png(bytes@) {
                    Err(pe) => e == pe,
                    Ok(ms) => match first_of_type(ms, tagb) {
                        None => e == PngErr::ChunkNotFound,
                        Some(c) => e == PngErr::NotUTF8 && forall|t: Seq<char>|
                            vstd::utf8::encode_utf8(t) != c.data,
                    },
                },
            }
        }),
{
    let png = match Png::try_from(bytes) {
        Ok(p) => p,
        Err(e) => {
            return Err(e);
        },
    };
    match png.chunk_by_type(chunk_type) {
        Some(c) => {
            proof {
                let ms = png@;
                let tagb = chunk_type.spec_bytes();
                let i = choose|i: int|
                    #![trigger ms[i]]
                    {
                        &&& 0 <= i < ms.len()
                        &&& ms[i] == c@
                        &&& c@.ty == tagb
                        &&& forall|j: int| 0 <= j < i ==> (#[trigger] ms[j]).ty != tagb
                    };
                crate::png::lemma_first_of_type_some(ms, tagb, i);
            }
            c.data_as_string()
        },
        None => {
            proof {
                crate::png::lemma_first_of_type_none(png@, chunk_type.spec_bytes());
            }
            Err(PngErr::ChunkNotFound)
        },
    }
}

/// Removes the first chunk of the given type, which must pass the same
/// policy check as `encode`, and returns the re-encoded file.
#[verifier::rlimit(100)]
pub fn remove(bytes: &[u8], chunk_type: &str) -> (r: PngRes<Vec<u8>>)
    ensures
        ({
            let tagb = chunk_type.spec_bytes();
            match r {
                Ok(out) => match parse_png(bytes@) {
                    Ok(ms) => {
                        &&& tagb.len() == 4
                        &&& all_letters(tagb)
                        &&& !is_upper(tagb[0])
                        &&& !is_upper(tagb[1])
                        &&& is_upper(tagb[2])
                        &&& first_of_type(ms, tagb) is Some
                        &&& out@ == png_bytes(remove_first(ms, tagb))
                    },
                    Err(_) => false,
                },
                Err(e) => match parse_png(bytes@) {
                    Err(pe) => e == pe,
                    Ok(ms) => {
                        if tagb.len() != 4 {
                            e == PngErr::InvalidSegment
                        } else if !all_letters(tagb) {
                            e == PngErr::InvalidByte
                        } else if is_upper(tagb[0]) {
                            e == PngErr::ExpectNonCritical
                        } else if is_upper(tagb[1]) {
                            e == PngErr::ExpectPrivate
                        } else if !is_upper(tagb[2]) {
                            e == PngErr::ExpectReservedBit
                        } else {
                            e == PngErr::ChunkNotFound && first_of_type(ms, tagb) is None
                        }
                    },
                },
            }
        }),
{
    let mut png = match Png::try_from(bytes) {
        Ok(p) => p,
        Err(e) => {
            return Err(e);
        },
    };
    let t = match ChunkType::from_bytes(chunk_type.as_bytes()) {
        Ok(t) => t,
        Err(e) => {
            return Err(e);
        },
    };
    match t.checked_me_type() {
        Ok(_) => (),
        Err(e) => {
            return Err(e);
        },
    };
    let ghost ms = png@;
    match png.remove_chunk(chunk_type) {
        Ok(_) => (),
        Err(e) => {
            proof {
                crate::png::lemma_first_of_type_none(ms, chunk_type.spec_bytes());
            }
            return Err(e);
        },
    };
    let out = png.as_bytes();
    proof {
        let tagb = chunk_type.spec_bytes();
        let i = choose|i: int|
            #![trigger ms[i]]
            {
                &&& 0 <= i < ms.len()
                &&& ms[i].ty == tagb
                &&& forall|j: int| 0 <= j < i ==> (#[trigger] ms[j]).ty != tagb
                &&& png@ == ms.remove(i)
            };
        crate::png::lemma_first_of_type_some(ms, tagb, i);
        crate::png::lemma_remove_first(ms, tagb, i);
        assert(out@ == png_bytes(remove_first(ms, tagb)));
    }
    Ok(out)
}

/// Removes the first chunk of the given type without any policy check on
/// the tag, and returns the re-encoded file.
#[verifier::rlimit(100)]
pub fn remove_unchecked(bytes: &[u8], chunk_type: &str) -> (r: PngRes<Vec<u8>>)
    ensures
        ({
            let tagb = chunk_type.spec_bytes();
            match r {
                Ok(out) => match parse_png(bytes@) {
                    Ok(ms) => {
                        &&& first_of_type(ms, tagb) is Some
                        &&& out@ == png_bytes(remove_first(ms, tagb))
                    },
                    Err(_) => false,
                },
                Err(e) => match parse_png(bytes@) {
                    Err(pe) => e == pe,
                    Ok(ms) => e == PngErr::ChunkNotFound && first_of_type(ms, tagb) is None,
                },
            }
        }),
{
    let mut png = match Png::try_from(bytes) {
        Ok(p) => p,
        Err(e) => {
            return Err(e);
        },
    };
    let ghost ms = png@;
    match png.remove_chunk(chunk_type) {
        Ok(_) => (),
        Err(e) => {
            proof {
                crate::png::lemma_first_of_type_none(ms, chunk_type.spec_bytes());
            }
            return Err(e);
        },
    };
    let out = png.as_bytes();
    proof {
        let tagb = chunk_type.spec_bytes();
        let i = choose|i: int|
            #![trigger ms[i]]
            {
                &&& 0 <= i < ms.len()
                &&& ms[i].ty == tagb
                &&& forall|j: int| 0 <= j < i ==> (#[trigger] ms[j]).ty != tagb
                &&& png@ == ms.remove(i)
            };
        crate::png::lemma_first_of_type_some(ms, tagb, i);
        crate::png::lemma_remove_first(ms, tagb, i);
        assert(out@ == png_bytes(remove_first(ms, tagb)));
    }
    Ok(out)
}

/// The chunk listing: one line per chunk, in order.
pub open spec fn listing(ms: Seq<ChunkModel>) -> Seq<char>
    decreases ms.len(),
{
    if ms.len() == 0 {
        Seq::empty()
    } else {
        chunk_line(ms[0]) + "\n"@ + listing(ms.drop_first())
    }
}

/// The dimensions line: the parsed IHDR dimensions, or what went wrong.
pub open spec fn dims_line(ms: Seq<ChunkModel>) -> Seq<char> {
    match first_of_type(ms, ihdr_tag()) {
        None => "Image does not contain IHDR chunk."@,
        Some(h) => if h.data.len() == 13 {
            "Image Dimensions: "@ + dec_str(be_u32(h.data.subrange(0, 4)) as int) + "x"@ + dec_str(
                be_u32(h.data.subrange(4, 8)) as int,
            )
        } else {
            "Image contains invalid IHDR chunk!"@
        },
    }
}

/// Renders the file as a human-readable chunk listing followed by the
/// parsed IHDR dimensions.
pub fn print(bytes: &[u8]) -> (r: PngRes<String>)
    ensures
        match r {
            Ok(s) => match parse_png(bytes@) {
                Ok(ms) => s@ == listing(ms) + dims_line(ms),
                Err(_) => false,
            },
            Err(e) => parse_png(bytes@) == Err::<Seq<ChunkModel>, PngErr>(e),
        },
{
    let png = match Png::try_from(bytes) {
        Ok(p) => p,
        Err(e) => {
            return Err(e);
        },
    };
    let ghost ms = png@;
    let n = png.chunks.len();
    let mut out = String::new();
    let mut i: usize = 0;
    proof {
        assert(ms.skip(0) =~= ms);
        assert(Seq::<char>::empty() + listing(ms) =~= listing(ms));
    }
    while i < n
        invariant
            n == png.chunks@.len(),
            ms == png@,
            i <= n,
            listing(ms) == out@ + listing(ms.skip(i as int)),
        decreases n - i,
    {
        proof {
            assert(ms.skip(i as int)[0] == ms[i as int]);
            assert(ms.skip(i as int).drop_first() =~= ms.skip(i as int + 1));
        }
        let line = png.chunks[i].to_string();
        out.append(line.as_str());
        out.append("\n");
        proof {
            assert(listing(ms) =~= out@ + listing(ms.skip(i as int + 1)));
        }
        i += 1;
    }
    proof {
        assert(ms.skip(n as int) =~= Seq::<ChunkModel>::empty());
        assert(out@ + Seq::<char>::empty() =~= out@);
    }
    let mut t: usize = 0;
    let mut header_idx: usize = 0;
    let mut found = false;
    while t < n && !found
        invariant
            n == png.chunks@.len(),
            ms == png@,
            t <= n,
            !found ==> forall|j: int| 0 <= j < t ==> (#[trigger] ms[j]).ty != ihdr_tag(),
            found ==> {
                &&& header_idx < t
                &&& ms[header_idx as int].ty == ihdr_tag()
                &&& forall|j: int| 0 <= j < header_idx ==> (#[trigger] ms[j]).ty != ihdr_tag()
            },
        decreases n - t,
    {
        let b = &png.chunks[t].chunk_type.bytes;
        if b[0] == 73 && b[1] == 72 && b[2] == 68 && b[3] == 82 {
            proof {
                assert(ms[t as int].ty =~= ihdr_tag());
            }
            header_idx = t;
            found = true;
        } else {
            proof {
                assert(ms[t as int].ty != ihdr_tag()) by {
                    assert(ms[t as int].ty =~= seq![b@[0], b@[1], b@[2], b@[3]]);
                }
            }
        }
        t += 1;
    }
    if !found {
        proof {
            crate::png::lemma_first_of_type_none(ms, ihdr_tag());
        }
        out.append("Image does not contain IHDR chunk.");
        return Ok(out);
    }
    proof {
        crate::png::lemma_first_of_type_some(ms, ihdr_tag(), header_idx as int);
    }
    match Chunk::ihdr_to_dimensions(&png.chunks[header_idx]) {
        Ok(d) => {
            out.append("Image Dimensions: ");
            crate::text::push_dec(d.0, &mut out);
            out.append("x");
            crate::text::push_dec(d.1, &mut out);
        },
        Err(_) => {
            out.append("Image contains invalid IHDR chunk!");
        },
    }
    Ok(out)
}

/// Strips every non-essential chunk from the file, keeping only the
/// standard types a decoder needs, and returns the re-encoded file.
pub fn scrub(bytes: &[u8]) -> (r: PngRes<Vec<u8>>)
    ensures
        match r {
            Ok(out) => match parse_png(bytes@) {
                Ok(ms) => out@ == png_bytes(scrubbed(ms)),
                Err(_) => false,
            },
            Err(e) => parse_png(bytes@) == Err::<Seq<ChunkModel>, PngErr>(e),
        },
{
    let mut png = match Png::try_from(bytes) {
        Ok(p) => p,
        Err(e) => {
            return Err(e);
        },
    };
    png.scrub();
    Ok(png.as_bytes())
}

/// Appends a message chunk under a 4-letter tag to an in-memory PNG.
fn add_message(png: &mut Png, tag: [u8; 4], message: &str) -> (r: PngRes)
    ensures
        match r {
            Ok(()) => {
                &&& all_letters(tag@)
                &&& message.spec_bytes().len() <= INT_MAX
                &&& final(png)@ == spec_append(
                    old(png)@,
                    message_chunk(tag@, message.spec_bytes()),
                )
            },
            Err(e) => {
                &&& *final(png) == *old(png)
                &&& (e == PngErr::InvalidByte || e == PngErr::IntOverflow)
            },
        },
{
    let t = match ChunkType::from_bytes(tag.as_slice()) {
        Ok(t) => t,
        Err(_) => {
            return Err(PngErr::InvalidByte);
        },
    };
    let mb = message.as_bytes();
    if mb.len() > INT_MAX as usize {
        return Err(PngErr::IntOverflow);
    }
    let chunk = Chunk::new(t, slice_to_vec(mb));
    png.append_chunk(chunk);
    Ok(())
}

/// Every chunk stays well-formed when a well-formed chunk is appended.
proof fn lemma_append_wf(ms: Seq<ChunkModel>, m: ChunkModel)
    requires
        forall|i: int| 0 <= i < ms.len() ==> (#[trigger] ms[i]).wf(),
        m.wf(),
    ensures
        forall|i: int|
            0 <= i < spec_append(ms, m).len() ==> (#[trigger] spec_append(ms, m)[i]).wf(),
{
    let ms2 = spec_append(ms, m);
    assert forall|i: int| 0 <= i < ms2.len() implies (#[trigger] ms2[i]).wf() by {
        if ms.len() > 0 && ms.last().ty == crate::chunk::iend_tag() {
            if i < ms.len() - 1 {
                assert(ms2[i] == ms[i]);
            } else if i == ms.len() - 1 {
                assert(ms2[i] == m);
            } else {
                assert(ms2[i] == ms[i - 1]);
            }
        } else {
            if i < ms.len() {
                assert(ms2[i] == ms[i]);
            } else {
                assert(ms2[i] == m);
            }
        }
    }
}

/// Synthesizes the demonstration images with the canvas engine: a grid of
/// gradient squares, a composite built by blended and plain region copies,
/// and the extracted small tile. Each comes back as a complete PNG file
/// that parses back successfully.
#[verifier::rlimit(100)]
pub fn generate() -> (r: PngRes<Vec<Vec<u8>>>)
    ensures
        match r {
            Ok(v) => v@.len() == 3 && forall|k: int|
                0 <= k < 3 ==> crate::png::parse_png(#[trigger] v.deep_view()[k]) is Ok,
            Err(e) => {
                ||| e == PngErr::CompressError
                ||| e == PngErr::IntOverflow
                ||| e == PngErr::DecompressError
                ||| e == PngErr::DataLengthMismatch
                ||| e == PngErr::InvalidHeader
                ||| e == PngErr::InvalidIHDR
                ||| e == PngErr::IHDRWidthOverflow
                ||| e == PngErr::IHDRHeightOverflow
                ||| e == PngErr::InvalidByte
            },
        },
{
    let gradient = Img::new(600, 600);
    let mut slice = gradient.slice(0..=2u32, 0..=2u32);
    paint_gradient(&mut slice);
    let gradient = slice.into_img();
    let mut gradient_png = match Png::from_img(&gradient) {
        Ok(p) => p,
        Err(e) => {
            return Err(e);
        },
    };
    let ghost base = gradient_png@;
    match add_message(&mut gradient_png, [112, 103, 77, 101], "I'm the gradients image.") {
        Ok(()) => (),
        Err(e) => {
            return Err(e);
        },
    };
    proof {
        lemma_append_wf(base, gradient_png@.last());
    }
    let ghost base2 = gradient_png@;
    match add_message(&mut gradient_png, [82, 85, 83, 84], "I'm not as critical as I appear...") {
        Ok(()) => (),
        Err(e) => {
            return Err(e);
        },
    };
    let out1 = gradient_png.as_bytes();
    proof {
        assert(forall|i: int| 0 <= i < base2.len() ==> (#[trigger] base2[i]).wf());
        lemma_append_wf(
            base2,
            message_chunk([82u8, 85u8, 83u8, 84u8]@, "I'm not as critical as I appear...".spec_bytes()),
        );
        crate::png::lemma_png_round_trip(gradient_png@);
    }
    let squares = match Img::from_png(&gradient_png) {
        Ok(i) => i,
        Err(e) => {
            return Err(e);
        },
    };
    let blend = |from: u32, to: u32| -> u32 { (from ^ to) | 0xFF };
    let mut s2 = squares.slice(..=250u32, ..=250u32);
    s2.copy_each(0, 350, blend);
    s2.pos(0, 350);
    s2.copy_each(350, 350, blend);
    s2.pos(350, 350);
    let small = s2.clone_to_img();
    s2.reslice(.., ..);
    s2.fill(crate::color::hex(0xFFFFFF));
    s2.xywh((50, 50), small.width(), small.height());
    s2.copy_from(small.data().as_slice());
    s2.copy(50, 300);
    s2.copy(300, 50);
    s2.copy(300, 300);
    let squares_img = s2.into_img();
    let mut squares_png = match Png::from_img(&squares_img) {
        Ok(p) => p,
        Err(e) => {
            return Err(e);
        },
    };
    let ghost sbase = squares_png@;
    match add_message(&mut squares_png, [112, 103, 77, 101], "I'm the squares image.") {
        Ok(()) => (),
        Err(e) => {
            return Err(e);
        },
    };
    let out2 = squares_png.as_bytes();
    proof {
        lemma_append_wf(
            sbase,
            message_chunk([112u8, 103u8, 77u8, 101u8]@, "I'm the squares image.".spec_bytes()),
        );
        crate::png::lemma_png_round_trip(squares_png@);
    }
    let mut small_png = match Png::from_img(&small) {
        Ok(p) => p,
        Err(e) => {
            return Err(e);
        },
    };
    let ghost tbase = small_png@;
    match add_message(&mut small_png, [112, 103, 77, 101], "I'm the small image.") {
        Ok(()) => (),
        Err(e) => {
            return Err(e);
        },
    };
    let out3 = small_png.as_bytes();
    proof {
        lemma_append_wf(
            tbase,
            message_chunk([112u8, 103u8, 77u8, 101u8]@, "I'm the small image.".spec_bytes()),
        );
        crate::png::lemma_png_round_trip(small_png@);
    }
    let mut v: Vec<Vec<u8>> = Vec::new();
    v.push(out1);
    v.push(out2);
    v.push(out3);
    proof {
        assert(v.deep_view()[0] == out1@);
        assert(v.deep_view()[1] == out2@);
        assert(v.deep_view()[2] == out3@);
    }
    Ok(v)
}

/// Paints the demonstration gradient: a 6-by-6 grid of 100-pixel cells,
/// each filled with a 50-by-50 grid of 2-pixel color squares.
fn paint_gradient(slice: &mut crate::slice::RectSlice)
    requires
        old(slice).wf(),
    ensures
        final(slice).wf(),
{
    let mut a: u32 = 0;
    while a < 6
        invariant
            slice.wf(),
            a <= 6,
        decreases 6 - a,
    {
        let mut b: u32 = 0;
        while b < 6
            invariant
                slice.wf(),
                a < 6,
                b <= 6,
            decreases 6 - b,
        {
            let mut c: u32 = 0;
            while c < 50
                invariant
                    slice.wf(),
                    a < 6,
                    b < 6,
                    c <= 50,
                decreases 50 - c,
            {
                let mut d: u32 = 0;
                while d < 50
                    invariant
                        slice.wf(),
                        a < 6,
                        b < 6,
                        c < 50,
                        d <= 50,
                    decreases 50 - d,
                {
                    proof {
                        assert((1 + a) * (1 + b) <= 36) by (nonlinear_arith)
                            requires
                                a < 6,
                                b < 6,
                        ;
                    }
                    let color = crate::color::rgb(
                        (((1 + a) * (1 + b)) * 7) as u8,
                        ((c + 1) * 5) as u8,
                        ((d + 1) * 5) as u8,
                    );
                    slice.pos(a * 100 + c * 2, b * 100 + d * 2);
                    slice.fill(color);
                    d += 1;
                }
                c += 1;
            }
            b += 1;
        }
        a += 1;
    }
}

} // verus!
