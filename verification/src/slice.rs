//! Rectangular views into a canvas: a lease that owns the canvas while it
//! lives, restricted to a clamped rectangle, with fill, positional copy and
//! region-to-region copy operations.

use vstd::prelude::*;

use crate::img::{lemma_px_index_bound, lemma_px_index_unique, Img};
use crate::rect::{spec_constrain, spec_from_dimensions, Rect};

verus! {

/// The row-major position of `(x, y)` within the rectangle `r`.
pub open spec fn rel_idx(r: Rect, x: int, y: int) -> int {
    (y - r.y) * r.spec_width() + (x - r.x)
}

/// Entry `(i, j)` of the flat vector `out` equals the canvas pixel at
/// offset `(i, j)` inside the rectangle `r`.
pub open spec fn region_matches(out: Seq<u32>, img: Img, r: Rect, i: int, j: int) -> bool {
    out[j * r.spec_width() + i] == img.px(r.x + i, r.y + j)
}

/// Walks the flat row-major indices of a rectangle inside a canvas of a
/// given width: the inner loop of the region operations, yielding
/// `y * width + x` for every pixel of the rectangle, rows top to bottom.
#[derive(Debug, Clone, Copy)]
pub struct Indexer {
    pub rect: Rect,
    pub img_width: u32,
    pub x: u32,
    pub y: u32,
}

impl Indexer {
    /// The cursor stays inside the rectangle, which lies within the canvas.
    pub open spec fn wf(&self) -> bool {
        &&& self.rect.wf()
        &&& self.rect.x2 <= self.img_width
        &&& self.rect.x <= self.x <= self.rect.x2
        &&& self.rect.y <= self.y <= self.rect.y2
    }

    /// Starts walking `rect` inside a canvas `img_width` pixels wide.
    pub fn from_slice(rect: &Rect, img_width: u32) -> (r: Indexer)
        requires
            rect.wf(),
            rect.x2 <= img_width,
        ensures
            r.rect == *rect,
            r.img_width == img_width,
            r.x == rect.x,
            r.y == rect.y,
            r.wf(),
    {
        Indexer { rect: *rect, img_width, x: rect.x, y: rect.y }
    }

    /// Yields the flat index of the current pixel and steps to the next,
    /// row-major; an exhausted or empty rectangle yields nothing.
    pub fn next(&mut self) -> (r: Option<usize>)
        requires
            old(self).wf(),
            old(self).rect.y2 * old(self).img_width + old(self).rect.x2 <= usize::MAX,
        ensures
            final(self).wf(),
            final(self).rect == old(self).rect,
            final(self).img_width == old(self).img_width,
            if old(self).x < old(self).rect.x2 && old(self).y < old(self).rect.y2 {
                &&& r == Some((old(self).y * old(self).img_width + old(self).x) as usize)
                &&& if old(self).x + 1 < old(self).rect.x2 {
                    final(self).x == old(self).x + 1 && final(self).y == old(self).y
                } else {
                    final(self).x == old(self).rect.x && final(self).y == old(self).y + 1
                }
            } else {
                r is None && *final(self) == *old(self)
            },
    {
        if self.y >= self.rect.y2 || self.x >= self.rect.x2 {
            return None;
        }
        proof {
            assert(self.y * self.img_width <= self.rect.y2 * self.img_width) by (nonlinear_arith)
                requires
                    0 <= self.y <= self.rect.y2,
                    0 <= self.img_width,
            ;
        }
        let idx = (self.y as usize) * (self.img_width as usize) + (self.x as usize);
        if self.x + 1 < self.rect.x2 {
            self.x = self.x + 1;
        } else {
            self.x = self.rect.x;
            self.y = self.y + 1;
        }
        Some(idx)
    }
}

impl Img {
    /// Takes a rectangular lease on the canvas; the canvas moves into the
    /// slice and comes back through `into_img`.
    pub fn slice(self, xx2: impl core::ops::RangeBounds<u32>, yy2: impl core::ops::RangeBounds<
        u32,
    >) -> (r: RectSlice)
        requires
            self.wf(),
        ensures
            r.img == self,
            r.wf(),
    {
        let rect = Rect::from_range(xx2, yy2);
        RectSlice::new(self, rect)
    }
}

/// A rectangle-addressed view of a canvas. The slice owns the canvas for its
/// whole lifetime, which is the sharing discipline: no other access to the
/// canvas can exist while the slice does. `into_img` gives the canvas back.
#[derive(Debug)]
pub struct RectSlice {
    pub img: Img,
    pub rect: Rect,
}

impl RectSlice {
    /// The slice invariant: a well-formed canvas and a normalized rectangle
    /// that lies within the canvas bounds.
    pub open spec fn wf(&self) -> bool {
        &&& self.img.wf()
        &&& self.rect.wf()
        &&& self.rect.x2 <= self.img.width
        &&& self.rect.y2 <= self.img.height
    }

    /// Takes a lease on a canvas, clamping the rectangle to its bounds.
    pub fn new(img: Img, rect: Rect) -> (r: RectSlice)
        requires
            img.wf(),
            rect.wf(),
        ensures
            r.img == img,
            r.rect == spec_constrain(rect, img.width, img.height),
            r.wf(),
    {
        let rect = rect.constrain(img.width, img.height);
        RectSlice { img, rect }
    }

    /// Releases the lease, giving the canvas back.
    pub fn into_img(self) -> (r: Img)
        ensures
            r == self.img,
    {
        self.img
    }

    /// The view's rectangle.
    pub fn rect(&self) -> (r: Rect)
        ensures
            r == self.rect,
    {
        self.rect
    }

    /// The view's width.
    pub fn width(&self) -> (r: u32)
        ensures
            r == self.rect.spec_width(),
    {
        self.rect.width()
    }

    /// The view's height.
    pub fn height(&self) -> (r: u32)
        ensures
            r == self.rect.spec_height(),
    {
        self.rect.height()
    }

    /// The view's width and height.
    pub fn dimensions(&self) -> (r: (u32, u32))
        ensures
            r.0 == self.rect.spec_width(),
            r.1 == self.rect.spec_height(),
    {
        self.rect.dimensions()
    }

    /// Replaces the rectangle, clamped to the canvas bounds.
    pub fn set_rect(&mut self, rect: Rect)
        requires
            old(self).wf(),
            rect.wf(),
        ensures
            final(self).img == old(self).img,
            final(self).rect == spec_constrain(rect, old(self).img.width, old(self).img.height),
            final(self).wf(),
    {
        self.rect = rect.constrain(self.img.width, self.img.height);
    }

    /// Re-aims the view at a new range pair, clamped to the canvas.
    pub fn reslice(&mut self, xx2: impl core::ops::RangeBounds<u32>, yy2: impl core::ops::RangeBounds<
        u32,
    >)
        requires
            old(self).wf(),
        ensures
            final(self).img == old(self).img,
            final(self).wf(),
    {
        let r = Rect::from_range(xx2, yy2);
        self.set_rect(r);
    }

    /// Re-aims the view at an origin and dimensions, clamped to the canvas.
    pub fn xywh(&mut self, xy: (u32, u32), width: u32, height: u32)
        requires
            old(self).wf(),
        ensures
            final(self).img == old(self).img,
            final(self).rect == spec_constrain(
                spec_from_dimensions(xy, width, height),
                old(self).img.width,
                old(self).img.height,
            ),
            final(self).wf(),
    {
        let r = Rect::from_dimensions(xy, width, height);
        self.set_rect(r);
    }

    /// Translates the view so its origin becomes `(x, y)`, preserving its
    /// dimensions up to clamping.
    pub fn pos(&mut self, x: u32, y: u32)
        requires
            old(self).wf(),
        ensures
            final(self).img == old(self).img,
            final(self).rect == spec_constrain(
                spec_from_dimensions(
                    (x, y),
                    old(self).rect.spec_width(),
                    old(self).rect.spec_height(),
                ),
                old(self).img.width,
                old(self).img.height,
            ),
            final(self).wf(),
    {
        let r = self.rect.pos(x, y);
        self.set_rect(r);
    }

    /// The view's pixels as a flat row-major vector.
    pub fn to_vec(&self) -> (r: Vec<u32>)
        requires
            self.wf(),
        ensures
            r@.len() == self.rect.spec_width() * self.rect.spec_height(),
            forall|i: int, j: int|
                0 <= i < self.rect.spec_width() && 0 <= j < self.rect.spec_height()
                    ==> #[trigger] region_matches(r@, self.img, self.rect, i, j),
    {
        let rw = self.rect.width() as usize;
        let rh = self.rect.height() as usize;
        let w = self.img.width as usize;
        let dlen = self.img.data.len();
        let mut out: Vec<u32> = Vec::new();
        let mut j: usize = 0;
        while j < rh
            invariant
                self.wf(),
                rw == self.rect.spec_width(),
                rh == self.rect.spec_height(),
                w == self.img.width,
                dlen == self.img.data@.len(),
                j <= rh,
                out@.len() == j * rw,
                forall|qi: int, qj: int|
                    0 <= qi < rw && 0 <= qj < j ==> #[trigger] region_matches(
                        out@,
                        self.img,
                        self.rect,
                        qi,
                        qj,
                    ),
            decreases rh - j,
        {
            proof {
                assert((j + 1) * rw == j * rw + rw) by (nonlinear_arith);
            }
            let mut i: usize = 0;
            while i < rw
                invariant
                    self.wf(),
                    rw == self.rect.spec_width(),
                    rh == self.rect.spec_height(),
                    w == self.img.width,
                    dlen == self.img.data@.len(),
                    j < rh,
                    i <= rw,
                    out@.len() == j * rw + i,
                    forall|qi: int, qj: int|
                        0 <= qi < rw && 0 <= qj < j ==> #[trigger] region_matches(
                            out@,
                            self.img,
                            self.rect,
                            qi,
                            qj,
                        ),
                    forall|qi: int|
                        0 <= qi < i ==> #[trigger] region_matches(
                            out@,
                            self.img,
                            self.rect,
                            qi,
                            j as int,
                        ),
                decreases rw - i,
            {
                let px_x = self.rect.x as usize + i;
                let px_y = self.rect.y as usize + j;
                proof {
                    lemma_px_index_bound(
                        self.img.width as int,
                        self.img.height as int,
                        px_x as int,
                        px_y as int,
                    );
                }
                let idx = px_y * w + px_x;
                let p = self.img.data[idx];
                let ghost pre = out@;
                out.push(p);
                proof {
                    assert forall|qi: int, qj: int|
                        0 <= qi < rw && 0 <= qj < j implies #[trigger] region_matches(
                        out@,
                        self.img,
                        self.rect,
                        qi,
                        qj,
                    ) by {
                        assert(region_matches(pre, self.img, self.rect, qi, qj));
                        assert((qj + 1) * rw == qj * rw + rw) by (nonlinear_arith);
                        assert((qj + 1) * rw <= j * rw) by (nonlinear_arith)
                            requires
                                qj + 1 <= j,
                                rw >= 0,
                        ;
                        assert(out@[qj * rw + qi] == pre[qj * rw + qi]);
                    }
                    assert forall|qi: int|
                        0 <= qi < i + 1 implies #[trigger] region_matches(
                        out@,
                        self.img,
                        self.rect,
                        qi,
                        j as int,
                    ) by {
                        if qi < i {
                            assert(region_matches(pre, self.img, self.rect, qi, j as int));
                            assert(out@[j * rw + qi] == pre[j * rw + qi]);
                        } else {
                            assert(out@[j * rw + qi] == p);
                        }
                    }
                }
                i += 1;
            }
            j += 1;
        }
        proof {
            assert(rh * rw == rw * rh) by (nonlinear_arith);
        }
        out
    }

    /// Shrinks the view in place so it spans at most `width` by `height`
    /// pixels, keeping its origin.
    pub fn clamp(&mut self, width: u32, height: u32)
        requires
            old(self).wf(),
        ensures
            final(self).img == old(self).img,
            final(self).rect.x == old(self).rect.x,
            final(self).rect.y == old(self).rect.y,
            final(self).rect.x2 == if old(self).rect.x + width < old(self).rect.x2 {
                (old(self).rect.x + width) as u32
            } else {
                old(self).rect.x2
            },
            final(self).rect.y2 == if old(self).rect.y + height < old(self).rect.y2 {
                (old(self).rect.y + height) as u32
            } else {
                old(self).rect.y2
            },
            final(self).wf(),
    {
        let xw = self.rect.x as u64 + width as u64;
        if xw < self.rect.x2 as u64 {
            self.rect.x2 = xw as u32;
        }
        let yh = self.rect.y as u64 + height as u64;
        if yh < self.rect.y2 as u64 {
            self.rect.y2 = yh as u32;
        }
    }

    /// Overwrites the view's pixels positionally from an owned vector, with
    /// the same zip semantics as `copy_from`.
    pub fn copy_from_vec(&mut self, data: Vec<u32>)
        requires
            old(self).wf(),
        ensures
            final(self).wf(),
            final(self).rect == old(self).rect,
            final(self).img.width == old(self).img.width,
            final(self).img.height == old(self).img.height,
            final(self).img.filter == old(self).img.filter,
            final(self).img.data@.len() == old(self).img.data@.len(),
            forall|qx: int, qy: int|
                0 <= qx < final(self).img.width && 0 <= qy < final(self).img.height
                    ==> final(self).img.px(qx, qy) == if old(self).rect.contains(qx, qy)
                    && rel_idx(old(self).rect, qx, qy) < data@.len() {
                    data@[rel_idx(old(self).rect, qx, qy)]
                } else {
                    old(self).img.px(qx, qy)
                },
    {
        self.copy_from(data.as_slice());
    }

    /// The view's pixels as one vector per row.
    pub fn to_vec_2d(&self) -> (r: Vec<Vec<u32>>)
        requires
            self.wf(),
        ensures
            r@.len() == self.rect.spec_height(),
            forall|j: int|
                0 <= j < self.rect.spec_height() ==> (#[trigger] r@[j])@.len()
                    == self.rect.spec_width() && forall|i: int|
                    0 <= i < self.rect.spec_width() ==> r@[j]@[i] == self.img.px(
                        self.rect.x + i,
                        self.rect.y + j,
                    ),
    {
        let rw = self.rect.width() as usize;
        let rh = self.rect.height() as usize;
        let w = self.img.width as usize;
        let dlen = self.img.data.len();
        let mut out: Vec<Vec<u32>> = Vec::new();
        let mut j: usize = 0;
        while j < rh
            invariant
                self.wf(),
                rw == self.rect.spec_width(),
                rh == self.rect.spec_height(),
                w == self.img.width,
                dlen == self.img.data@.len(),
                j <= rh,
                out@.len() == j,
                forall|qj: int|
                    0 <= qj < j ==> (#[trigger] out@[qj])@.len() == rw && forall|qi: int|
                        0 <= qi < rw ==> out@[qj]@[qi] == self.img.px(
                            self.rect.x + qi,
                            self.rect.y + qj,
                        ),
            decreases rh - j,
        {
            let mut row: Vec<u32> = Vec::new();
            let mut i: usize = 0;
            while i < rw
                invariant
                    self.wf(),
                    rw == self.rect.spec_width(),
                    rh == self.rect.spec_height(),
                    w == self.img.width,
                    dlen == self.img.data@.len(),
                    j < rh,
                    i <= rw,
                    row@.len() == i,
                    forall|qi: int|
                        0 <= qi < i ==> row@[qi] == self.img.px(
                            self.rect.x + qi,
                            self.rect.y + j,
                        ),
                decreases rw - i,
            {
                let px_x = self.rect.x as usize + i;
                let px_y = self.rect.y as usize + j;
                proof {
                    lemma_px_index_bound(
                        self.img.width as int,
                        self.img.height as int,
                        px_x as int,
                        px_y as int,
                    );
                }
                row.push(self.img.data[px_y * w + px_x]);
                i += 1;
            }
            out.push(row);
            j += 1;
        }
        out
    }

    /// Overwrites every pixel of the view with `col`; pixels outside the
    /// view are untouched.
    pub fn fill(&mut self, col: u32)
        requires
            old(self).wf(),
        ensures
            final(self).wf(),
            final(self).rect == old(self).rect,
            final(self).img.width == old(self).img.width,
            final(self).img.height == old(self).img.height,
            final(self).img.filter == old(self).img.filter,
            final(self).img.data@.len() == old(self).img.data@.len(),
            forall|qx: int, qy: int|
                0 <= qx < final(self).img.width && 0 <= qy < final(self).img.height
                    ==> final(self).img.px(qx, qy) == if old(self).rect.contains(qx, qy) {
                    col
                } else {
                    old(self).img.px(qx, qy)
                },
    {
        let w = self.img.width as usize;
        let dlen = self.img.data.len();
        let ry2 = self.rect.y2 as usize;
        let rx2 = self.rect.x2 as usize;
        let rx = self.rect.x as usize;
        let mut y = self.rect.y as usize;
        while y < ry2
            invariant
                self.wf(),
                self.rect == old(self).rect,
                w == self.img.width,
                dlen == self.img.data@.len(),
                rx == self.rect.x,
                rx2 == self.rect.x2,
                ry2 == self.rect.y2,
                self.img.width == old(self).img.width,
                self.img.height == old(self).img.height,
                self.img.filter == old(self).img.filter,
                self.img.data@.len() == old(self).img.data@.len(),
                self.rect.y <= y <= ry2,
                forall|qx: int, qy: int|
                    0 <= qx < self.img.width && 0 <= qy < self.img.height ==> self.img.px(qx, qy)
                        == if old(self).rect.contains(qx, qy) && qy < y {
                        col
                    } else {
                        old(self).img.px(qx, qy)
                    },
            decreases ry2 - y,
        {
            let mut x = rx;
            while x < rx2
                invariant
                    self.wf(),
                    self.rect == old(self).rect,
                    w == self.img.width,
                    dlen == self.img.data@.len(),
                    rx == self.rect.x,
                    rx2 == self.rect.x2,
                    ry2 == self.rect.y2,
                    self.img.width == old(self).img.width,
                    self.img.height == old(self).img.height,
                    self.img.filter == old(self).img.filter,
                    self.img.data@.len() == old(self).img.data@.len(),
                    self.rect.y <= y < ry2,
                    rx <= x <= rx2,
                    forall|qx: int, qy: int|
                        0 <= qx < self.img.width && 0 <= qy < self.img.height ==> self.img.px(
                            qx,
                            qy,
                        ) == if old(self).rect.contains(qx, qy) && (qy < y || (qy == y && qx < x)) {
                            col
                        } else {
                            old(self).img.px(qx, qy)
                        },
                decreases rx2 - x,
            {
                proof {
                    lemma_px_index_bound(
                        self.img.width as int,
                        self.img.height as int,
                        x as int,
                        y as int,
                    );
                }
                let idx = y * w + x;
                let ghost pre_img = self.img;
                self.img.data[idx] = col;
                proof {
                    assert forall|qx: int, qy: int|
                        0 <= qx < self.img.width && 0 <= qy < self.img.height && !(qx == x && qy
                            == y) implies self.img.px(qx, qy) == pre_img.px(qx, qy) by {
                        lemma_px_index_bound(
                            self.img.width as int,
                            self.img.height as int,
                            qx,
                            qy,
                        );
                        if qy * self.img.width + qx == y * self.img.width + x {
                            lemma_px_index_unique(
                                self.img.width as int,
                                qx,
                                qy,
                                x as int,
                                y as int,
                            );
                        }
                    }
                    assert(self.img.px(x as int, y as int) == col);
                    assert forall|qx: int, qy: int|
                        0 <= qx < self.img.width && 0 <= qy < self.img.height implies self.img.px(
                        qx,
                        qy,
                    ) == (if old(self).rect.contains(qx, qy) && (qy < y || (qy == y && qx < x + 1)) {
                        col
                    } else {
                        old(self).img.px(qx, qy)
                    }) by {
                        if qx == x && qy == y {
                        } else {
                            assert(self.img.px(qx, qy) == pre_img.px(qx, qy));
                            assert(pre_img.px(qx, qy) == (if old(self).rect.contains(qx, qy) && (qy
                                < y || (qy == y && qx < x)) {
                                col
                            } else {
                                old(self).img.px(qx, qy)
                            }));
                        }
                    }
                }
                x += 1;
            }
            y += 1;
        }
    }

    /// Overwrites the view's pixels positionally from a flat source, zipped:
    /// extra source pixels are ignored, and a short source leaves the
    /// remaining view pixels untouched.
    pub fn copy_from(&mut self, data: &[u32])
        requires
            old(self).wf(),
        ensures
            final(self).wf(),
            final(self).rect == old(self).rect,
            final(self).img.width == old(self).img.width,
            final(self).img.height == old(self).img.height,
            final(self).img.filter == old(self).img.filter,
            final(self).img.data@.len() == old(self).img.data@.len(),
            forall|qx: int, qy: int|
                0 <= qx < final(self).img.width && 0 <= qy < final(self).img.height
                    ==> final(self).img.px(qx, qy) == if old(self).rect.contains(qx, qy)
                    && rel_idx(old(self).rect, qx, qy) < data@.len() {
                    data@[rel_idx(old(self).rect, qx, qy)]
                } else {
                    old(self).img.px(qx, qy)
                },
    {
        let w = self.img.width as usize;
        let dlen = self.img.data.len();
        let rw = self.rect.width() as usize;
        let ry2 = self.rect.y2 as usize;
        let rx2 = self.rect.x2 as usize;
        let rx = self.rect.x as usize;
        let mut k: usize = 0;
        let mut y = self.rect.y as usize;
        while y < ry2
            invariant
                self.wf(),
                self.rect == old(self).rect,
                w == self.img.width,
                dlen == self.img.data@.len(),
                rw == self.rect.spec_width(),
                rx == self.rect.x,
                rx2 == self.rect.x2,
                ry2 == self.rect.y2,
                self.img.width == old(self).img.width,
                self.img.height == old(self).img.height,
                self.img.filter == old(self).img.filter,
                self.img.data@.len() == old(self).img.data@.len(),
                self.rect.y <= y <= ry2,
                k == (y - self.rect.y) * rw,
                k <= dlen,
                forall|qx: int, qy: int|
                    0 <= qx < self.img.width && 0 <= qy < self.img.height ==> self.img.px(qx, qy)
                        == if old(self).rect.contains(qx, qy) && qy < y && rel_idx(
                        old(self).rect,
                        qx,
                        qy,
                    ) < data@.len() {
                        data@[rel_idx(old(self).rect, qx, qy)]
                    } else {
                        old(self).img.px(qx, qy)
                    },
            decreases ry2 - y,
        {
            proof {
                let ry = self.rect.y as int;
                assert((y + 1 - ry) * rw == (y - ry) * rw + rw) by (nonlinear_arith);
                assert((y + 1 - ry) * rw <= (ry2 - ry) * rw) by (nonlinear_arith)
                    requires
                        y + 1 <= ry2,
                        rw >= 0,
                        ry <= y,
                ;
                assert((ry2 - ry) * rw <= self.img.width * self.img.height) by (nonlinear_arith)
                    requires
                        0 <= ry2 - ry <= self.img.height,
                        0 <= rw <= self.img.width,
                ;
            }
            let mut x = rx;
            while x < rx2
                invariant
                    self.wf(),
                    self.rect == old(self).rect,
                    w == self.img.width,
                    dlen == self.img.data@.len(),
                    rw == self.rect.spec_width(),
                    rx == self.rect.x,
                    rx2 == self.rect.x2,
                    ry2 == self.rect.y2,
                    self.img.width == old(self).img.width,
                    self.img.height == old(self).img.height,
                    self.img.filter == old(self).img.filter,
                    self.img.data@.len() == old(self).img.data@.len(),
                    self.rect.y <= y < ry2,
                    rx <= x <= rx2,
                    k == (y - self.rect.y) * rw + (x - rx),
                    k <= dlen,
                    forall|qx: int, qy: int|
                        0 <= qx < self.img.width && 0 <= qy < self.img.height ==> self.img.px(
                            qx,
                            qy,
                        ) == if old(self).rect.contains(qx, qy) && (qy < y || (qy == y && qx < x))
                            && rel_idx(old(self).rect, qx, qy) < data@.len() {
                            data@[rel_idx(old(self).rect, qx, qy)]
                        } else {
                            old(self).img.px(qx, qy)
                        },
                decreases rx2 - x,
            {
                proof {
                    lemma_px_index_bound(
                        self.img.width as int,
                        self.img.height as int,
                        x as int,
                        y as int,
                    );
                    let ry = self.rect.y as int;
                    assert((y + 1 - ry) * rw == (y - ry) * rw + rw) by (nonlinear_arith);
                    assert((y - ry) * rw + (x - rx) < (y + 1 - ry) * rw) by (nonlinear_arith)
                        requires
                            x - rx < rw,
                            ry <= y,
                            0 <= rw,
                            (y + 1 - ry) * rw == (y - ry) * rw + rw,
                    ;
                    assert((y + 1 - ry) * rw <= (ry2 - ry) * rw) by (nonlinear_arith)
                        requires
                            y + 1 <= ry2,
                            rw >= 0,
                            ry <= y,
                    ;
                    assert((ry2 - ry) * rw <= self.img.width * self.img.height) by (
                    nonlinear_arith)
                        requires
                            0 <= ry2 - ry <= self.img.height,
                            0 <= rw <= self.img.width,
                    ;
                }
                let idx = y * w + x;
                let ghost pre_img = self.img;
                if k < data.len() {
                    let v = data[k];
                    self.img.data[idx] = v;
                }
                proof {
                    assert forall|qx: int, qy: int|
                        0 <= qx < self.img.width && 0 <= qy < self.img.height && !(qx == x && qy
                            == y) implies self.img.px(qx, qy) == pre_img.px(qx, qy) by {
                        lemma_px_index_bound(
                            self.img.width as int,
                            self.img.height as int,
                            qx,
                            qy,
                        );
                        if qy * self.img.width + qx == y * self.img.width + x {
                            lemma_px_index_unique(
                                self.img.width as int,
                                qx,
                                qy,
                                x as int,
                                y as int,
                            );
                        }
                    }
                    assert(rel_idx(old(self).rect, x as int, y as int) == k);
                    assert forall|qx: int, qy: int|
                        0 <= qx < self.img.width && 0 <= qy < self.img.height implies self.img.px(
                        qx,
                        qy,
                    ) == (if old(self).rect.contains(qx, qy) && (qy < y || (qy == y && qx < x + 1))
                        && rel_idx(old(self).rect, qx, qy) < data@.len() {
                        data@[rel_idx(old(self).rect, qx, qy)]
                    } else {
                        old(self).img.px(qx, qy)
                    }) by {
                        if qx == x && qy == y {
                        } else {
                            assert(self.img.px(qx, qy) == pre_img.px(qx, qy));
                            assert(pre_img.px(qx, qy) == (if old(self).rect.contains(qx, qy) && (qy
                                < y || (qy == y && qx < x)) && rel_idx(old(self).rect, qx, qy)
                                < data@.len() {
                                data@[rel_idx(old(self).rect, qx, qy)]
                            } else {
                                old(self).img.px(qx, qy)
                            }));
                        }
                    }
                }
                k += 1;
                x += 1;
            }
            y += 1;
        }
    }

    /// Copies the view onto the region whose origin is `(dx, dy)`, sending
    /// each destination pixel through `f`: the new pixel is
    /// `f(source_pixel, old_destination_pixel)`. The destination clamps to
    /// the canvas, and the source region shrinks to match, so the two always
    /// agree in size; source pixels are read from the state before any write.
    pub fn copy_each<F: Fn(u32, u32) -> u32>(&mut self, dx: u32, dy: u32, f: F)
        requires
            old(self).wf(),
            forall|a: u32, b: u32| #[trigger] f.requires((a, b)),
        ensures
            final(self).wf(),
            final(self).rect == old(self).rect,
            final(self).img.width == old(self).img.width,
            final(self).img.height == old(self).img.height,
            final(self).img.filter == old(self).img.filter,
            final(self).img.data@.len() == old(self).img.data@.len(),
            ({
                let to = spec_constrain(
                    spec_from_dimensions(
                        (dx, dy),
                        old(self).rect.spec_width(),
                        old(self).rect.spec_height(),
                    ),
                    old(self).img.width,
                    old(self).img.height,
                );
                forall|qx: int, qy: int|
                    #![trigger final(self).img.px(qx, qy)]
                    0 <= qx < old(self).img.width && 0 <= qy < old(self).img.height ==> if to.contains(
                        qx,
                        qy,
                    ) {
                        f.ensures(
                            (
                                old(self).img.px(
                                    old(self).rect.x + (qx - to.x),
                                    old(self).rect.y + (qy - to.y),
                                ),
                                old(self).img.px(qx, qy),
                            ),
                            final(self).img.px(qx, qy),
                        )
                    } else {
                        final(self).img.px(qx, qy) == old(self).img.px(qx, qy)
                    }
            }),
    {
        let from = self.rect;
        let rw = from.width() as usize;
        let src = self.to_vec();
        let slen = src.len();
        let to = from.pos(dx, dy).constrain(self.img.width, self.img.height);
        let w = self.img.width as usize;
        let dlen = self.img.data.len();
        let ty2 = to.y2 as usize;
        let tx2 = to.x2 as usize;
        let tx = to.x as usize;
        proof {
            assert(to.spec_width() <= from.spec_width());
            assert(to.spec_height() <= from.spec_height());
        }
        let mut y = to.y as usize;
        while y < ty2
            invariant
                self.wf(),
                self.rect == old(self).rect,
                self.rect == from,
                w == self.img.width,
                dlen == self.img.data@.len(),
                rw == from.spec_width(),
                tx == to.x,
                tx2 == to.x2,
                ty2 == to.y2,
                to == spec_constrain(
                    spec_from_dimensions((dx, dy), from.spec_width(), from.spec_height()),
                    old(self).img.width,
                    old(self).img.height,
                ),
                to.wf(),
                to.x2 <= self.img.width,
                to.y2 <= self.img.height,
                to.spec_width() <= from.spec_width(),
                to.spec_height() <= from.spec_height(),
                self.img.width == old(self).img.width,
                self.img.height == old(self).img.height,
                self.img.filter == old(self).img.filter,
                self.img.data@.len() == old(self).img.data@.len(),
                to.y <= y <= ty2,
                slen == src@.len(),
                src@.len() == from.spec_width() * from.spec_height(),
                forall|i: int, j: int|
                    0 <= i < from.spec_width() && 0 <= j < from.spec_height()
                        ==> #[trigger] region_matches(src@, old(self).img, from, i, j),
                forall|a: u32, b: u32| #[trigger] f.requires((a, b)),
                forall|qx: int, qy: int|
                    #![trigger self.img.px(qx, qy)]
                    0 <= qx < self.img.width && 0 <= qy < self.img.height ==> if to.contains(
                        qx,
                        qy,
                    ) && qy < y {
                        f.ensures(
                            (
                                old(self).img.px(from.x + (qx - to.x), from.y + (qy - to.y)),
                                old(self).img.px(qx, qy),
                            ),
                            self.img.px(qx, qy),
                        )
                    } else {
                        self.img.px(qx, qy) == old(self).img.px(qx, qy)
                    },
            decreases ty2 - y,
        {
            let mut x = tx;
            while x < tx2
                invariant
                    self.wf(),
                    self.rect == old(self).rect,
                    self.rect == from,
                    w == self.img.width,
                    dlen == self.img.data@.len(),
                    rw == from.spec_width(),
                    tx == to.x,
                    tx2 == to.x2,
                    ty2 == to.y2,
                    to.wf(),
                    to.x2 <= self.img.width,
                    to.y2 <= self.img.height,
                    to.spec_width() <= from.spec_width(),
                    to.spec_height() <= from.spec_height(),
                    self.img.width == old(self).img.width,
                    self.img.height == old(self).img.height,
                    self.img.filter == old(self).img.filter,
                    self.img.data@.len() == old(self).img.data@.len(),
                    to.y <= y < ty2,
                    tx <= x <= tx2,
                    slen == src@.len(),
                    src@.len() == from.spec_width() * from.spec_height(),
                    forall|i: int, j: int|
                        0 <= i < from.spec_width() && 0 <= j < from.spec_height()
                            ==> #[trigger] region_matches(src@, old(self).img, from, i, j),
                    forall|a: u32, b: u32| #[trigger] f.requires((a, b)),
                    forall|qx: int, qy: int|
                        #![trigger self.img.px(qx, qy)]
                        0 <= qx < self.img.width && 0 <= qy < self.img.height ==> if to.contains(
                            qx,
                            qy,
                        ) && (qy < y || (qy == y && qx < x)) {
                            f.ensures(
                                (
                                    old(self).img.px(from.x + (qx - to.x), from.y + (qy - to.y)),
                                    old(self).img.px(qx, qy),
                                ),
                                self.img.px(qx, qy),
                            )
                        } else {
                            self.img.px(qx, qy) == old(self).img.px(qx, qy)
                        },
                decreases tx2 - x,
            {
                let ii = x - tx;
                let jj = y - to.y as usize;
                proof {
                    lemma_px_index_bound(
                        self.img.width as int,
                        self.img.height as int,
                        x as int,
                        y as int,
                    );
                    lemma_px_index_bound(
                        from.spec_width() as int,
                        from.spec_height() as int,
                        ii as int,
                        jj as int,
                    );
                    assert(region_matches(src@, old(self).img, from, ii as int, jj as int));
                }
                let idx = y * w + x;
                let s = src[jj * rw + ii];
                let cur = self.img.data[idx];
                proof {
                    assert(cur == self.img.px(x as int, y as int));
                    assert(s == old(self).img.px(from.x + ii, from.y + jj));
                }
                let v = f(s, cur);
                let ghost pre_img = self.img;
                self.img.data[idx] = v;
                proof {
                    assert forall|qx: int, qy: int|
                        0 <= qx < self.img.width && 0 <= qy < self.img.height && !(qx == x && qy
                            == y) implies self.img.px(qx, qy) == pre_img.px(qx, qy) by {
                        lemma_px_index_bound(
                            self.img.width as int,
                            self.img.height as int,
                            qx,
                            qy,
                        );
                        if qy * self.img.width + qx == y * self.img.width + x {
                            lemma_px_index_unique(
                                self.img.width as int,
                                qx,
                                qy,
                                x as int,
                                y as int,
                            );
                        }
                    }
                    assert(self.img.px(x as int, y as int) == v);
                    assert(cur == pre_img.px(x as int, y as int));
                    assert(f.ensures((s, cur), v));
                    assert forall|qx: int, qy: int|
                        #![trigger self.img.px(qx, qy)]
                        0 <= qx < self.img.width && 0 <= qy < self.img.height implies (if to.contains(
                        qx,
                        qy,
                    ) && (qy < y || (qy == y && qx < x + 1)) {
                        f.ensures(
                            (
                                old(self).img.px(from.x + (qx - to.x), from.y + (qy - to.y)),
                                old(self).img.px(qx, qy),
                            ),
                            self.img.px(qx, qy),
                        )
                    } else {
                        self.img.px(qx, qy) == old(self).img.px(qx, qy)
                    }) by {
                        if qx == x && qy == y {
                            assert(pre_img.px(qx, qy) == old(self).img.px(qx, qy));
                            assert(to.contains(qx, qy));
                        } else {
                            assert(self.img.px(qx, qy) == pre_img.px(qx, qy));
                        }
                    }
                }
                x += 1;
            }
            y += 1;
        }
    }

    /// Copies the view onto the region whose origin is `(x, y)`; only the
    /// clamped overlap is written, and source pixels are read from the state
    /// before any write, so an overlapping destination is safe.
    pub fn copy(&mut self, x: u32, y: u32)
        requires
            old(self).wf(),
        ensures
            final(self).wf(),
            final(self).rect == old(self).rect,
            final(self).img.width == old(self).img.width,
            final(self).img.height == old(self).img.height,
            final(self).img.filter == old(self).img.filter,
            final(self).img.data@.len() == old(self).img.data@.len(),
            ({
                let to = spec_constrain(
                    spec_from_dimensions(
                        (x, y),
                        old(self).rect.spec_width(),
                        old(self).rect.spec_height(),
                    ),
                    old(self).img.width,
                    old(self).img.height,
                );
                forall|qx: int, qy: int|
                    #![trigger final(self).img.px(qx, qy)]
                    0 <= qx < old(self).img.width && 0 <= qy < old(self).img.height
                        ==> final(self).img.px(qx, qy) == if to.contains(qx, qy) {
                        old(self).img.px(
                            old(self).rect.x + (qx - to.x),
                            old(self).rect.y + (qy - to.y),
                        )
                    } else {
                        old(self).img.px(qx, qy)
                    }
            }),
    {
        let keep_source = |a: u32, b: u32| -> (r: u32)
            ensures
                r == a,
            { a };
        self.copy_each(x, y, keep_source);
        proof {
            let to = spec_constrain(
                spec_from_dimensions(
                    (x, y),
                    old(self).rect.spec_width(),
                    old(self).rect.spec_height(),
                ),
                old(self).img.width,
                old(self).img.height,
            );
            assert forall|qx: int, qy: int|
                #![trigger self.img.px(qx, qy)]
                0 <= qx < old(self).img.width && 0 <= qy < old(self).img.height implies self.img.px(
                qx,
                qy,
            ) == (if to.contains(qx, qy) {
                old(self).img.px(old(self).rect.x + (qx - to.x), old(self).rect.y + (qy - to.y))
            } else {
                old(self).img.px(qx, qy)
            }) by {
                if to.contains(qx, qy) {
                    assert(keep_source.ensures(
                        (
                            old(self).img.px(
                                old(self).rect.x + (qx - to.x),
                                old(self).rect.y + (qy - to.y),
                            ),
                            old(self).img.px(qx, qy),
                        ),
                        self.img.px(qx, qy),
                    ));
                }
            }
        }
    }

    /// Extracts the view into a new owned canvas of the view's dimensions.
    pub fn clone_to_img(&self) -> (r: Img)
        requires
            self.wf(),
        ensures
            r.wf(),
            r.width == self.rect.spec_width(),
            r.height == self.rect.spec_height(),
            forall|i: int, j: int|
                #![trigger r.px(i, j)]
                0 <= i < self.rect.spec_width() && 0 <= j < self.rect.spec_height() ==> r.px(i, j)
                    == self.img.px(self.rect.x + i, self.rect.y + j),
            forall|i: int| 0 <= i < r.filter@.len() ==> r.filter@[i] == 0,
    {
        let rw = self.rect.width();
        let rh = self.rect.height();
        proof {
            assert(rw * rh <= self.img.width * self.img.height) by (nonlinear_arith)
                requires
                    0 <= rw <= self.img.width,
                    0 <= rh <= self.img.height,
            ;
        }
        let dlen = self.img.data.len();
        let v = self.to_vec();
        let out = Img::from_vec(rw, rh, v);
        proof {
            assert forall|i: int, j: int|
                #![trigger out.px(i, j)]
                0 <= i < self.rect.spec_width() && 0 <= j < self.rect.spec_height() implies out.px(
                i,
                j,
            ) == self.img.px(self.rect.x + i, self.rect.y + j) by {
                lemma_px_index_bound(rw as int, rh as int, i, j);
                assert(region_matches(v@, self.img, self.rect, i, j));
            }
        }
        out
    }

    /// Overwrites every pixel of the view with the zero color.
    pub fn clear(&mut self)
        requires
            old(self).wf(),
        ensures
            final(self).wf(),
            final(self).rect == old(self).rect,
            final(self).img.width == old(self).img.width,
            final(self).img.height == old(self).img.height,
            final(self).img.filter == old(self).img.filter,
            final(self).img.data@.len() == old(self).img.data@.len(),
            forall|qx: int, qy: int|
                0 <= qx < final(self).img.width && 0 <= qy < final(self).img.height
                    ==> final(self).img.px(qx, qy) == if old(self).rect.contains(qx, qy) {
                    0u32
                } else {
                    old(self).img.px(qx, qy)
                },
    {
        self.fill(0);
    }
}

} // verus!
