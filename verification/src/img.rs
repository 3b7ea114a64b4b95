//! The canvas: a flat row-major RGBA pixel buffer plus per-row filter bytes,
//! with overflow-safe construction and PNG scanline serialization.

use vstd::prelude::*;

use crate::be::{be_u32, u32_be};
use crate::checksum::crc32_of;
use crate::chunk::{ihdr_data, ihdr_tag, idat_tag, iend_tag, Chunk, ChunkModel};
use crate::err::{PngErr, PngRes};
use crate::png::{first_of_type, idat_payload, lemma_first_of_type_none, lemma_first_of_type_some, Png};
use crate::zlib::inflate_of;
use crate::INT_MAX;

verus! {

/// Bounds of a flat row-major index built from a coordinate pair.
pub proof fn lemma_px_index_bound(w: int, h: int, x: int, y: int)
    by (nonlinear_arith)
    requires
        0 <= x < w,
        0 <= y < h,
    ensures
        0 <= y * w + x < w * h,
{
}

/// A flat row-major index determines its coordinate pair.
pub proof fn lemma_px_index_unique(w: int, x1: int, y1: int, x2: int, y2: int)
    by (nonlinear_arith)
    requires
        0 <= x1 < w,
        0 <= x2 < w,
        0 <= y1,
        0 <= y2,
        y1 * w + x1 == y2 * w + x2,
    ensures
        x1 == x2 && y1 == y2,
{
}

/// Builds a vector of `n` copies of `v`.
pub fn filled_u32(n: usize, v: u32) -> (r: Vec<u32>)
    ensures
        r@.len() == n,
        forall|i: int| 0 <= i < n ==> r@[i] == v,
{
    let mut out: Vec<u32> = Vec::new();
    let mut i: usize = 0;
    while i < n
        invariant
            i <= n,
            out@.len() == i,
            forall|j: int| 0 <= j < i ==> out@[j] == v,
        decreases n - i,
    {
        out.push(v);
        i += 1;
    }
    out
}

/// Builds a vector of `n` zero bytes.
pub fn zero_bytes(n: usize) -> (r: Vec<u8>)
    ensures
        r@.len() == n,
        forall|i: int| 0 <= i < n ==> r@[i] == 0,
{
    let mut out: Vec<u8> = Vec::new();
    let mut i: usize = 0;
    while i < n
        invariant
            i <= n,
            out@.len() == i,
            forall|j: int| 0 <= j < i ==> out@[j] == 0,
        decreases n - i,
    {
        out.push(0);
        i += 1;
    }
    out
}

/// The PNG byte serialization of one row of pixels: each pixel as four
/// big-endian bytes.
pub open spec fn row_bytes(row: Seq<u32>) -> Seq<u8>
    decreases row.len(),
{
    if row.len() == 0 {
        Seq::empty()
    } else {
        u32_be(row[0]) + row_bytes(row.drop_first())
    }
}

/// The PNG scanline stream: for each row, its filter byte followed by its
/// pixel bytes, rows concatenated top to bottom.
pub open spec fn scanline_bytes(data: Seq<u32>, filter: Seq<u8>, width: int) -> Seq<u8>
    decreases filter.len(),
{
    if filter.len() == 0 {
        Seq::empty()
    } else {
        seq![filter[0]] + row_bytes(data.subrange(0, width)) + scanline_bytes(
            data.skip(width),
            filter.drop_first(),
            width,
        )
    }
}

/// An owned canvas: `width * height` pixels in row-major order and one
/// filter byte per row (always zero in this system).
#[derive(Debug, Clone)]
pub struct Img {
    pub width: u32,
    pub height: u32,
    pub data: Vec<u32>,
    pub filter: Vec<u8>,
}

impl Img {
    /// The canvas invariant: bounded dimensions, a pixel buffer of exactly
    /// `width * height` entries and one filter byte per row.
    pub open spec fn wf(&self) -> bool {
        &&& self.width <= INT_MAX
        &&& self.height <= INT_MAX
        &&& self.data@.len() == self.width * self.height
        &&& self.filter@.len() == self.height
    }

    /// The pixel at `(x, y)`.
    pub open spec fn px(&self, x: int, y: int) -> u32 {
        self.data@[y * self.width + x]
    }

    /// The pixel count.
    pub fn len(&self) -> (r: usize)
        ensures
            r == self.data@.len(),
    {
        self.data.len()
    }

    /// The canvas width.
    pub fn width(&self) -> (r: u32)
        ensures
            r == self.width,
    {
        self.width
    }

    /// The canvas height.
    pub fn height(&self) -> (r: u32)
        ensures
            r == self.height,
    {
        self.height
    }

    /// A new canvas filled with the zero color; both dimensions must be
    /// nonzero and bounded, and the pixel count must be addressable.
    pub fn new(width: u32, height: u32) -> (r: Img)
        requires
            1 <= width <= INT_MAX,
            1 <= height <= INT_MAX,
            width * height <= usize::MAX,
        ensures
            r.wf(),
            r.width == width,
            r.height == height,
            forall|i: int| 0 <= i < r.data@.len() ==> r.data@[i] == 0,
            forall|i: int| 0 <= i < r.filter@.len() ==> r.filter@[i] == 0,
    {
        Self::new_bg(width, height, 0)
    }

    /// A new canvas filled with the background color `bg`.
    pub fn new_bg(width: u32, height: u32, bg: u32) -> (r: Img)
        requires
            1 <= width <= INT_MAX,
            1 <= height <= INT_MAX,
            width * height <= usize::MAX,
        ensures
            r.wf(),
            r.width == width,
            r.height == height,
            forall|i: int| 0 <= i < r.data@.len() ==> r.data@[i] == bg,
            forall|i: int| 0 <= i < r.filter@.len() ==> r.filter@[i] == 0,
    {
        proof {
            assert(width as u64 * height as u64 == width * height) by (nonlinear_arith);
        }
        let area = (width as u64 * height as u64) as usize;
        Img {
            width,
            height,
            data: filled_u32(area, bg),
            filter: zero_bytes(height as usize),
        }
    }

    /// The pixel buffer.
    pub fn data(&self) -> (r: &Vec<u32>)
        ensures
            r@ == self.data@,
    {
        &self.data
    }

    /// The pixel buffer, mutably: whatever the caller writes through the
    /// borrow becomes the new buffer, everything else stays.
    pub fn data_mut(&mut self) -> (r: &mut Vec<u32>)
        ensures
            *r == old(self).data,
            final(self).width == old(self).width,
            final(self).height == old(self).height,
            final(self).filter == old(self).filter,
            final(self).data == *final(r),
    {
        &mut self.data
    }

    /// The pixel buffer, consumed.
    pub fn to_vec(self) -> (r: Vec<u32>)
        ensures
            r@ == self.data@,
    {
        self.data
    }

    /// A copy of the pixel buffer.
    pub fn clone_to_vec(&self) -> (r: Vec<u32>)
        ensures
            r@ == self.data@,
    {
        vstd::slice::slice_to_vec(self.data.as_slice())
    }

    /// Resets every row's filter byte to zero.
    pub fn reset_filter(&mut self)
        ensures
            final(self).width == old(self).width,
            final(self).height == old(self).height,
            final(self).data == old(self).data,
            final(self).filter@.len() == old(self).height,
            forall|i: int| 0 <= i < final(self).filter@.len() ==> final(self).filter@[i] == 0,
            old(self).wf() ==> final(self).wf(),
    {
        self.filter = zero_bytes(self.height as usize);
    }

    /// Builds a canvas over an existing pixel vector, padding with zero
    /// pixels or truncating so the buffer matches the dimensions exactly.
    pub fn from_vec(width: u32, height: u32, data: Vec<u32>) -> (r: Img)
        requires
            width <= INT_MAX,
            height <= INT_MAX,
            width * height <= usize::MAX,
        ensures
            r.wf(),
            r.width == width,
            r.height == height,
            r.data@.len() == width * height,
            forall|i: int|
                0 <= i < r.data@.len() ==> r.data@[i] == if i < data@.len() {
                    data@[i]
                } else {
                    0u32
                },
            forall|i: int| 0 <= i < r.filter@.len() ==> r.filter@[i] == 0,
    {
        proof {
            assert(width as u64 * height as u64 == width * height) by (nonlinear_arith);
        }
        let area = (width as u64 * height as u64) as usize;
        let mut d = data;
        let ghost orig = d@;
        while d.len() < area
            invariant
                d@.len() >= orig.len() ==> d@.subrange(0, orig.len() as int) == orig,
                d@.len() < orig.len() ==> d@ == orig,
                forall|i: int| orig.len() <= i < d@.len() ==> d@[i] == 0,
            decreases area - d@.len(),
        {
            d.push(0);
            proof {
                assert(d@.subrange(0, orig.len() as int) =~= orig);
            }
        }
        d.truncate(area);
        Img { width, height, data: d, filter: zero_bytes(height as usize) }
    }

    /// Serializes the canvas as PNG scanlines: each row is emitted as its
    /// filter byte followed by four bytes per pixel, rows top to bottom.
    pub fn to_bytes(&self) -> (r: Vec<u8>)
        requires
            self.wf(),
        ensures
            r@ == scanline_bytes(self.data@, self.filter@, self.width as int),
    {
        let ghost full = scanline_bytes(self.data@, self.filter@, self.width as int);
        let w = self.width as usize;
        let h = self.height as usize;
        let dlen = self.data.len();
        let mut out: Vec<u8> = Vec::new();
        let mut y: usize = 0;
        proof {
            assert(self.data@.skip(0) =~= self.data@);
            assert(self.filter@.skip(0) =~= self.filter@);
        }
        while y < h
            invariant
                self.wf(),
                w == self.width,
                h == self.height,
                dlen == self.data@.len(),
                y <= h,
                full == scanline_bytes(self.data@, self.filter@, self.width as int),
                full == out@ + scanline_bytes(
                    self.data@.skip(y * w as int),
                    self.filter@.skip(y as int),
                    self.width as int,
                ),
            decreases h - y,
        {
            proof {
                assert(0 <= y * w && (y + 1) * w == y * w + w && (y + 1) * w <= w * h && y * w
                    <= w * h) by (nonlinear_arith)
                    requires
                        0 <= y,
                        y + 1 <= h,
                        0 <= w,
                ;
            }
            let row_base = y * w;
            let ghost row = self.data@.subrange(row_base as int, row_base + w as int);
            let ghost tail = scanline_bytes(
                self.data@.skip(row_base + w as int),
                self.filter@.skip(y as int + 1),
                self.width as int,
            );
            proof {
                let rem_data = self.data@.skip(row_base as int);
                let rem_filter = self.filter@.skip(y as int);
                assert(rem_filter[0] == self.filter@[y as int]);
                assert(rem_data.subrange(0, w as int) =~= row);
                assert(rem_data.skip(w as int) =~= self.data@.skip(row_base + w as int));
                assert(rem_filter.drop_first() =~= self.filter@.skip(y as int + 1));
                assert(row.skip(0) =~= row);
                assert(scanline_bytes(rem_data, rem_filter, self.width as int) == seq![
                    rem_filter[0],
                ] + row_bytes(row) + tail);
            }
            let ghost out_snap0 = out@;
            out.push(self.filter[y]);
            proof {
                assert(out@ =~= out_snap0 + seq![self.filter@[y as int]]);
                assert(out@ + row_bytes(row.skip(0)) + tail =~= out_snap0 + (seq![
                    self.filter@[y as int],
                ] + row_bytes(row) + tail));
            }
            let mut x: usize = 0;
            while x < w
                invariant
                    self.wf(),
                    w == self.width,
                    h == self.height,
                    dlen == self.data@.len(),
                    y < h,
                    x <= w,
                    row_base == y * w,
                    row_base + w <= self.data@.len(),
                    row == self.data@.subrange(row_base as int, row_base + w as int),
                    full == out@ + row_bytes(row.skip(x as int)) + scanline_bytes(
                        self.data@.skip(row_base + w as int),
                        self.filter@.skip(y as int + 1),
                        self.width as int,
                    ),
                decreases w - x,
            {
                let p = self.data[row_base + x];
                proof {
                    assert(row.skip(x as int)[0] == row[x as int]);
                    assert(row[x as int] == self.data@[row_base + x as int]);
                    assert(row.skip(x as int).drop_first() =~= row.skip(x as int + 1));
                }
                let ghost out_snap = out@;
                let pb = crate::be::u32_to_be(p);
                out.push(pb[0]);
                out.push(pb[1]);
                out.push(pb[2]);
                out.push(pb[3]);
                proof {
                    assert(out@ =~= out_snap + u32_be(row[x as int]));
                    assert(out@ + row_bytes(row.skip(x as int + 1)) =~= out_snap + row_bytes(
                        row.skip(x as int),
                    ));
                }
                x += 1;
            }
            y += 1;
            proof {
                assert(row.skip(w as int) =~= Seq::<u32>::empty());
                assert(row_bytes(Seq::<u32>::empty()) =~= Seq::<u8>::empty());
                assert(out@ + Seq::<u8>::empty() + tail =~= out@ + tail);
            }
        }
        proof {
            assert(self.filter@.skip(h as int) =~= Seq::<u8>::empty());
            assert(out@ + Seq::<u8>::empty() =~= out@);
        }
        out
    }

    /// Builds a canvas from rows of pixels; every row must have the same
    /// width, the grid must not be empty, and both dimensions must stay
    /// under the global bound.
    pub fn from_vec_2d(data: Vec<Vec<u32>>) -> (r: PngRes<Img>)
        ensures
            ({
                let rows = data.deep_view();
                match r {
                    Ok(img) => {
                        &&& rows.len() > 0
                        &&& forall|k: int|
                            0 <= k < rows.len() ==> (#[trigger] rows[k]).len() == rows[0].len()
                        &&& rows.len() <= INT_MAX
                        &&& rows[0].len() <= INT_MAX
                        &&& img.wf()
                        &&& img.width == rows[0].len()
                        &&& img.height == rows.len()
                        &&& img.data@ == concat_rows(rows)
                        &&& forall|i: int| 0 <= i < img.filter@.len() ==> img.filter@[i] == 0
                    },
                    Err(e) => {
                        if rows.len() == 0 {
                            e == PngErr::ZeroWidth
                        } else if exists|k: int|
                            0 <= k < rows.len() && (#[trigger] rows[k]).len() != rows[0].len() {
                            e == PngErr::WidthMismatch
                        } else {
                            e == PngErr::IntOverflow && (rows.len() > INT_MAX || rows[0].len()
                                > INT_MAX)
                        }
                    },
                }
            }),
    {
        let ghost rows = data.deep_view();
        let height = data.len();
        if height == 0 {
            return Err(PngErr::ZeroWidth);
        }
        let width = data[0].len();
        let mut k: usize = 1;
        while k < height
            invariant
                height == rows.len(),
                height == data@.len(),
                rows == data.deep_view(),
                width == rows[0].len(),
                1 <= k <= height,
                forall|j: int| 0 <= j < k ==> (#[trigger] rows[j]).len() == rows[0].len(),
            decreases height - k,
        {
            if data[k].len() != width {
                proof {
                    assert(rows[k as int] == data@[k as int]@);
                }
                return Err(PngErr::WidthMismatch);
            }
            proof {
                assert(rows[k as int] == data@[k as int]@);
                assert(rows[k as int].len() == width);
            }
            k += 1;
        }
        if height > INT_MAX as usize {
            return Err(PngErr::IntOverflow);
        }
        if width > INT_MAX as usize {
            return Err(PngErr::IntOverflow);
        }
        let mut d: Vec<u32> = Vec::new();
        let mut y: usize = 0;
        proof {
            assert(rows.skip(0) =~= rows);
        }
        while y < height
            invariant
                height == rows.len(),
                height == data@.len(),
                rows == data.deep_view(),
                width == rows[0].len(),
                forall|j: int| 0 <= j < rows.len() ==> (#[trigger] rows[j]).len() == rows[0].len(),
                y <= height,
                d@.len() == y * width,
                concat_rows(rows) == d@ + concat_rows(rows.skip(y as int)),
            decreases height - y,
        {
            let ghost row = rows[y as int];
            proof {
                assert(row.len() == width);
                assert(rows.skip(y as int)[0] == row);
                assert(rows.skip(y as int).drop_first() =~= rows.skip(y as int + 1));
                assert(row.skip(0) =~= row);
                assert((y + 1) * width == y * width + width) by (nonlinear_arith);
            }
            let mut x: usize = 0;
            while x < width
                invariant
                    height == rows.len(),
                    height == data@.len(),
                    rows == data.deep_view(),
                    width == rows[0].len(),
                    y < height,
                    x <= width,
                    row == rows[y as int],
                    row.len() == width,
                    d@.len() == y * width + x,
                    concat_rows(rows) == d@ + row.skip(x as int) + concat_rows(
                        rows.skip(y as int + 1),
                    ),
                decreases width - x,
            {
                let rv = &data[y];
                proof {
                    assert(rv@ == rows[y as int]);
                }
                let p = rv[x];
                proof {
                    assert(rv@[x as int] == row[x as int]);
                    assert(row.skip(x as int)[0] == row[x as int]);
                    assert(row.skip(x as int).drop_first() =~= row.skip(x as int + 1));
                }
                let ghost d_snap = d@;
                d.push(p);
                proof {
                    assert(d@ + row.skip(x as int + 1) =~= d_snap + row.skip(x as int));
                }
                x += 1;
            }
            y += 1;
            proof {
                assert(row.skip(width as int) =~= Seq::<u32>::empty());
                assert(d@ + Seq::<u32>::empty() + concat_rows(rows.skip(y as int)) =~= d@
                    + concat_rows(rows.skip(y as int)));
            }
        }
        proof {
            assert(height * width == width * height) by (nonlinear_arith);
            assert(rows.skip(height as int) =~= Seq::<Seq<u32>>::empty());
            assert(d@ + Seq::<u32>::empty() =~= d@);
            assert(d@ =~= concat_rows(rows));
        }
        Ok(Img {
            width: width as u32,
            height: height as u32,
            data: d,
            filter: zero_bytes(height),
        })
    }
}

/// The concatenation of pixel rows into one flat row-major buffer.
pub open spec fn concat_rows(rows: Seq<Seq<u32>>) -> Seq<u32>
    decreases rows.len(),
{
    if rows.len() == 0 {
        Seq::empty()
    } else {
        rows[0] + concat_rows(rows.drop_first())
    }
}

/// The byte length of one serialized scanline: a filter byte plus four bytes
/// per pixel.
pub open spec fn scan_stride(width: int) -> int {
    1 + 4 * width
}

/// The filter byte of row `j` in a scanline stream.
pub open spec fn scan_filter(d: Seq<u8>, width: int, j: int) -> u8 {
    d[j * scan_stride(width)]
}

/// The pixel at `(i, j)` of a scanline stream, read big-endian.
pub open spec fn scan_px(d: Seq<u8>, width: int, i: int, j: int) -> u32 {
    be_u32(d.subrange(j * scan_stride(width) + 1 + 4 * i, j * scan_stride(width) + 1 + 4 * i + 4))
}

/// Entry `(i, j)` of the flat pixel buffer `out` equals pixel `(i, j)` of
/// the scanline stream `d`.
pub open spec fn scan_matches(out: Seq<u32>, d: Seq<u8>, width: int, i: int, j: int) -> bool {
    out[j * width + i] == scan_px(d, width, i, j)
}

impl Png {
    /// Wraps a canvas as a minimal PNG: an IHDR for its dimensions, one IDAT
    /// holding the compressed scanline stream, and the terminal IEND.
    pub fn from_img(img: &Img) -> (r: PngRes<Png>)
        requires
            img.wf(),
        ensures
            match r {
                Ok(p) => {
                    &&& p@.len() == 3
                    &&& p@[0] == (ChunkModel {
                        length: 13,
                        ty: ihdr_tag(),
                        data: ihdr_data(img.width, img.height),
                        crc: crc32_of(ihdr_tag() + ihdr_data(img.width, img.height)),
                    })
                    &&& p@[1].ty == idat_tag()
                    &&& p@[1].length == p@[1].data.len()
                    &&& p@[1].data.len() <= INT_MAX
                    &&& p@[1].crc == crc32_of(idat_tag() + p@[1].data)
                    &&& inflate_of(p@[1].data) == Some(
                        scanline_bytes(img.data@, img.filter@, img.width as int),
                    )
                    &&& p@[2] == (ChunkModel {
                        length: 0,
                        ty: iend_tag(),
                        data: Seq::empty(),
                        crc: crc32_of(iend_tag() + Seq::<u8>::empty()),
                    })
                    &&& forall|k: int| 0 <= k < p@.len() ==> (#[trigger] p@[k]).wf()
                },
                Err(e) => e == PngErr::CompressError || e == PngErr::IntOverflow,
            },
    {
        let ihdr = match Chunk::ihdr(img.width, img.height) {
            Ok(c) => c,
            Err(_) => {
                return Err(PngErr::IntOverflow);
            },
        };
        let bytes = img.to_bytes();
        let comp = match crate::zlib::compress(bytes.as_slice()) {
            Ok(v) => v,
            Err(e) => {
                return Err(e);
            },
        };
        if comp.len() > INT_MAX as usize {
            return Err(PngErr::IntOverflow);
        }
        let idat = match Chunk::idat(comp.as_slice()) {
            Ok(c) => c,
            Err(_) => {
                return Err(PngErr::IntOverflow);
            },
        };
        let iend = match Chunk::iend() {
            Ok(c) => c,
            Err(_) => {
                return Err(PngErr::IntOverflow);
            },
        };
        let ghost gm = seq![ihdr@, idat@, iend@];
        let mut chunks: Vec<Chunk> = Vec::new();
        chunks.push(ihdr);
        chunks.push(idat);
        chunks.push(iend);
        proof {
            assert(chunks.deep_view() =~= gm);
        }
        Ok(Png { chunks })
    }
}

impl Img {
    /// Rebuilds a canvas from a PNG: reads the dimensions from the first
    /// IHDR chunk, decompresses the concatenated IDAT payloads, and parses
    /// the scanline stream back into pixels and filter bytes.
    pub fn from_png(png: &Png) -> (r: PngRes<Img>)
        ensures
            ({
                let ms = png@;
                match r {
                    Ok(img) => match first_of_type(ms, ihdr_tag()) {
                        Some(h) => {
                            &&& h.data.len() == 13
                            &&& img.width == be_u32(h.data.subrange(0, 4))
                            &&& img.height == be_u32(h.data.subrange(4, 8))
                            &&& img.wf()
                            &&& match inflate_of(idat_payload(ms)) {
                                Some(d) => {
                                    &&& d.len() == img.height * scan_stride(img.width as int)
                                    &&& forall|j: int|
                                        0 <= j < img.height ==> img.filter@[j] == scan_filter(
                                            d,
                                            img.width as int,
                                            j,
                                        )
                                    &&& forall|i: int, j: int|
                                        0 <= i < img.width && 0 <= j < img.height
                                            ==> #[trigger] img.px(i, j) == scan_px(
                                            d,
                                            img.width as int,
                                            i,
                                            j,
                                        )
                                },
                                None => false,
                            }
                        },
                        None => false,
                    },
                    Err(e) => {
                        if first_of_type(ms, ihdr_tag()) is None {
                            e == PngErr::InvalidHeader
                        } else {
                            let h = first_of_type(ms, ihdr_tag()).unwrap();
                            let w = be_u32(h.data.subrange(0, 4));
                            let hh = be_u32(h.data.subrange(4, 8));
                            if h.data.len() != 13 {
                                e == PngErr::InvalidIHDR
                            } else if w > INT_MAX {
                                e == PngErr::IHDRWidthOverflow
                            } else if hh > INT_MAX {
                                e == PngErr::IHDRHeightOverflow
                            } else if w * hh > usize::MAX || hh * scan_stride(w as int)
                                > usize::MAX {
                                e == PngErr::IntOverflow
                            } else if inflate_of(idat_payload(ms)) is None {
                                e == PngErr::DecompressError
                            } else {
                                e == PngErr::DataLengthMismatch && inflate_of(
                                    idat_payload(ms),
                                ).unwrap().len() != hh * scan_stride(w as int)
                            }
                        }
                    },
                }
            }),
    {
        let ghost ms = png@;
        let n = png.chunks.len();
        let mut t: usize = 0;
        let mut header_idx: usize = 0;
        let mut found = false;
        while t < n && !found
            invariant
                n == png.chunks@.len(),
                ms == png@,
                t <= n,
                !found ==> forall|j: int| 0 <= j < t ==> (#[trigger] ms[j]).ty != ihdr_tag(),
                found ==> {
                    &&& header_idx < t
                    &&& ms[header_idx as int].ty == ihdr_tag()
                    &&& forall|j: int|
                        0 <= j < header_idx ==> (#[trigger] ms[j]).ty != ihdr_tag()
                },
            decreases n - t,
        {
            let b = &png.chunks[t].chunk_type.bytes;
            if b[0] == 73 && b[1] == 72 && b[2] == 68 && b[3] == 82 {
                proof {
                    assert(ms[t as int].ty =~= ihdr_tag());
                }
                header_idx = t;
                found = true;
            } else {
                proof {
                    assert(ms[t as int].ty != ihdr_tag()) by {
                        assert(ms[t as int].ty =~= seq![b@[0], b@[1], b@[2], b@[3]]);
                    }
                }
            }
            t += 1;
        }
        if !found {
            proof {
                lemma_first_of_type_none(ms, ihdr_tag());
            }
            return Err(PngErr::InvalidHeader);
        }
        proof {
            lemma_first_of_type_some(ms, ihdr_tag(), header_idx as int);
        }
        let header = &png.chunks[header_idx];
        let (width, height) = match Chunk::ihdr_to_dimensions(header) {
            Ok(d) => d,
            Err(e) => {
                return Err(e);
            },
        };
        if width > INT_MAX {
            return Err(PngErr::IHDRWidthOverflow);
        }
        if height > INT_MAX {
            return Err(PngErr::IHDRHeightOverflow);
        }
        proof {
            assert(width as u64 * height as u64 == width * height && width as u64 * height as u64
                <= 0x8000_0000u64 * 0x8000_0000u64) by (nonlinear_arith)
                requires
                    width <= 0x8000_0000u64,
                    height <= 0x8000_0000u64,
            ;
            assert(height as u128 * (4 * width as u128 + 1) == height * scan_stride(width as int)
                && height as u128 * (4 * width as u128 + 1) <= 0x8000_0000u128 * (4
                * 0x8000_0000u128 + 1)) by (nonlinear_arith)
                requires
                    width <= 0x8000_0000u128,
                    height <= 0x8000_0000u128,
            ;
        }
        if width as u64 * height as u64 > usize::MAX as u64 {
            return Err(PngErr::IntOverflow);
        }
        if height as u128 * (4 * width as u128 + 1) > usize::MAX as u128 {
            return Err(PngErr::IntOverflow);
        }
        let payload = Self::collect_idat(png);
        let d = match crate::zlib::decompress(payload.as_slice()) {
            Ok(v) => v,
            Err(e) => {
                return Err(e);
            },
        };
        let stride64: u64 = 4 * (width as u64) + 1;
        let h = height as usize;
        let w = width as usize;
        let dlen = d.len();
        if dlen as u128 != (height as u128) * (stride64 as u128) {
            proof {
                assert((height as u128) * (stride64 as u128) == height * scan_stride(
                    width as int,
                )) by (nonlinear_arith)
                    requires
                        stride64 == 4 * (width as u64) + 1,
                ;
            }
            return Err(PngErr::DataLengthMismatch);
        }
        proof {
            assert((height as u128) * (stride64 as u128) == height * scan_stride(width as int))
                by (nonlinear_arith)
                requires
                    stride64 == 4 * (width as u64) + 1,
            ;
            if height > 0 {
                assert(stride64 <= (height as u128) * (stride64 as u128)) by (nonlinear_arith)
                    requires
                        height >= 1,
                        stride64 >= 0,
                ;
            }
        }
        let ghost dd = d@;
        let mut data: Vec<u32> = Vec::new();
        let mut filter: Vec<u8> = Vec::new();
        if height == 0 {
            let img = Img { width, height, data, filter };
            proof {
                assert(width * 0 == 0) by (nonlinear_arith);
                assert(img.wf());
            }
            return Ok(img);
        }
        let stride = stride64 as usize;
        let mut j: usize = 0;
        while j < h
            invariant
                h == height,
                w == width,
                stride == scan_stride(w as int),
                dlen == dd.len(),
                dd == d@,
                dlen == h * stride,
                j <= h,
                data@.len() == j * w,
                filter@.len() == j,
                forall|qj: int| 0 <= qj < j ==> filter@[qj] == scan_filter(dd, w as int, qj),
                forall|qi: int, qj: int|
                    0 <= qi < w && 0 <= qj < j ==> #[trigger] scan_matches(
                        data@,
                        dd,
                        w as int,
                        qi,
                        qj,
                    ),
            decreases h - j,
        {
            proof {
                assert((j + 1) * stride == j * stride + stride) by (nonlinear_arith);
                assert((j + 1) * stride <= h * stride) by (nonlinear_arith)
                    requires
                        j + 1 <= h,
                        stride >= 0,
                ;
                assert(0 <= j * stride) by (nonlinear_arith)
                    requires
                        j >= 0,
                        stride >= 0,
                ;
                assert((j + 1) * w == j * w + w) by (nonlinear_arith);
            }
            let base = j * stride;
            filter.push(d[base]);
            let mut i: usize = 0;
            while i < w
                invariant
                    h == height,
                    w == width,
                    stride == scan_stride(w as int),
                    dlen == dd.len(),
                    dd == d@,
                    dlen == h * stride,
                    j < h,
                    i <= w,
                    base == j * stride,
                    base + stride <= dlen,
                    data@.len() == j * w + i,
                    filter@.len() == j + 1,
                    forall|qj: int| 0 <= qj <= j ==> filter@[qj] == scan_filter(dd, w as int, qj),
                    forall|qi: int, qj: int|
                        0 <= qi < w && 0 <= qj < j ==> #[trigger] scan_matches(
                            data@,
                            dd,
                            w as int,
                            qi,
                            qj,
                        ),
                    forall|qi: int|
                        0 <= qi < i ==> #[trigger] scan_matches(data@, dd, w as int, qi, j as int),
                decreases w - i,
            {
                let o = base + 1 + 4 * i;
                let p = crate::be::be_to_u32(d[o], d[o + 1], d[o + 2], d[o + 3]);
                proof {
                    assert(seq![dd[o as int], dd[o + 1], dd[o + 2], dd[o + 3]] =~= dd.subrange(
                        o as int,
                        o + 4,
                    ));
                }
                let ghost pre = data@;
                data.push(p);
                proof {
                    assert(scan_px(dd, w as int, i as int, j as int) == p);
                    assert forall|qi: int, qj: int|
                        0 <= qi < w && 0 <= qj < j implies #[trigger] scan_matches(
                        data@,
                        dd,
                        w as int,
                        qi,
                        qj,
                    ) by {
                        assert(scan_matches(pre, dd, w as int, qi, qj));
                        assert((qj + 1) * w == qj * w + w) by (nonlinear_arith);
                        assert((qj + 1) * w <= j * w) by (nonlinear_arith)
                            requires
                                qj + 1 <= j,
                                w >= 0,
                        ;
                        assert(data@[qj * w + qi] == pre[qj * w + qi]);
                    }
                    assert forall|qi: int|
                        0 <= qi < i + 1 implies #[trigger] scan_matches(
                        data@,
                        dd,
                        w as int,
                        qi,
                        j as int,
                    ) by {
                        if qi < i {
                            assert(scan_matches(pre, dd, w as int, qi, j as int));
                            assert(data@[j * w + qi] == pre[j * w + qi]);
                        } else {
                            assert(data@[j * w + qi] == p);
                        }
                    }
                }
                i += 1;
            }
            j += 1;
        }
        let img = Img { width, height, data, filter };
        proof {
            assert(width * height == h * w) by (nonlinear_arith)
                requires
                    w == width,
                    h == height,
            ;
            assert(img.wf());
            let d_spec = inflate_of(idat_payload(png@)).unwrap();
            assert(d_spec == dd);
            assert forall|qi: int, qj: int|
                0 <= qi < img.width && 0 <= qj < img.height implies #[trigger] img.px(qi, qj)
                == scan_px(d_spec, img.width as int, qi, qj) by {
                assert(scan_matches(data@, dd, w as int, qi, qj));
            }
            assert forall|qj: int|
                0 <= qj < img.height implies img.filter@[qj] == scan_filter(
                d_spec,
                img.width as int,
                qj,
            ) by {
            }
        }
        Ok(img)
    }

    /// Concatenates the payloads of every IDAT chunk, in order.
    fn collect_idat(png: &Png) -> (r: Vec<u8>)
        ensures
            r@ == idat_payload(png@),
    {
        let ghost ms = png@;
        let n = png.chunks.len();
        let mut out: Vec<u8> = Vec::new();
        let mut t: usize = 0;
        proof {
            assert(ms.skip(0) =~= ms);
        }
        while t < n
            invariant
                n == png.chunks@.len(),
                ms == png@,
                t <= n,
                idat_payload(ms) == out@ + idat_payload(ms.skip(t as int)),
            decreases n - t,
        {
            proof {
                assert(ms.skip(t as int)[0] == ms[t as int]);
                assert(ms.skip(t as int).drop_first() =~= ms.skip(t as int + 1));
            }
            let b = &png.chunks[t].chunk_type.bytes;
            if b[0] == 73 && b[1] == 68 && b[2] == 65 && b[3] == 84 {
                proof {
                    assert(ms[t as int].ty =~= idat_tag());
                }
                let c = &png.chunks[t];
                let mut k: usize = 0;
                let ghost snap = out@;
                while k < c.data.len()
                    invariant
                        k <= c.data@.len(),
                        c.data@ == ms[t as int].data,
                        out@ == snap + c.data@.subrange(0, k as int),
                    decreases c.data@.len() - k,
                {
                    out.push(c.data[k]);
                    k += 1;
                    proof {
                        assert(out@ =~= snap + c.data@.subrange(0, k as int));
                    }
                }
                proof {
                    assert(c.data@.subrange(0, c.data@.len() as int) =~= c.data@);
                    assert(out@ + idat_payload(ms.skip(t as int + 1)) =~= snap + (ms[t as int].data
                        + idat_payload(ms.skip(t as int + 1))));
                }
            } else {
                proof {
                    assert(ms[t as int].ty != idat_tag()) by {
                        assert(ms[t as int].ty =~= seq![b@[0], b@[1], b@[2], b@[3]]);
                    }
                }
            }
            t += 1;
        }
        proof {
            assert(ms.skip(n as int) =~= Seq::<ChunkModel>::empty());
            assert(out@ + Seq::<u8>::empty() =~= out@);
        }
        out
    }
}

} // verus!
