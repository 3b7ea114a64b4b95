//! Axis-aligned integer rectangles with overflow-safe construction,
//! normalization and clamping against canvas bounds.

use vstd::prelude::*;

use crate::err::{PngErr, PngRes};
use crate::INT_MAX;

verus! {

/// The smaller of two coordinates.
pub open spec fn umin(a: u32, b: u32) -> u32 {
    if a <= b {
        a
    } else {
        b
    }
}

/// The larger of two coordinates.
pub open spec fn umax(a: u32, b: u32) -> u32 {
    if a >= b {
        a
    } else {
        b
    }
}

/// A rectangle `(x, y)` to `(x2, y2)` in canvas coordinates, half-open on
/// the high edges: `x2 == x` means zero width.
#[derive(Debug, Clone, Copy, PartialEq, Eq, Structural)]
pub struct Rect {
    pub x: u32,
    pub y: u32,
    pub x2: u32,
    pub y2: u32,
}

/// One end of a coordinate range: inclusive, exclusive, or unbounded.
#[derive(Debug, Clone, Copy, PartialEq, Eq, Structural)]
pub enum RangeEdge {
    Incl(u32),
    Excl(u32),
    Open,
}

/// The coordinate an edge stands for; an unbounded edge falls back to
/// `default`, an exclusive edge steps back by one (saturating at zero).
pub open spec fn edge_point(e: RangeEdge, default: u32) -> u32 {
    match e {
        RangeEdge::Incl(v) => v,
        RangeEdge::Excl(v) => if v > 0 {
            (v - 1) as u32
        } else {
            0
        },
        RangeEdge::Open => default,
    }
}

/// Construction from explicit corners: both corners clamp to the global
/// bound, and an inverted pair collapses onto the first corner, yielding an
/// empty rectangle.
pub open spec fn spec_new(xy: (u32, u32), xy2: (u32, u32)) -> Rect {
    let x = umin(xy.0, INT_MAX);
    let y = umin(xy.1, INT_MAX);
    Rect { x, y, x2: umax(x, umin(xy2.0, INT_MAX)), y2: umax(y, umin(xy2.1, INT_MAX)) }
}

/// Construction from an origin and dimensions, saturating at the global
/// bound.
pub open spec fn spec_from_dimensions(xy: (u32, u32), width: u32, height: u32) -> Rect {
    Rect {
        x: umin(xy.0, INT_MAX),
        y: umin(xy.1, INT_MAX),
        x2: if xy.0 + width <= INT_MAX {
            (xy.0 + width) as u32
        } else {
            INT_MAX
        },
        y2: if xy.1 + height <= INT_MAX {
            (xy.1 + height) as u32
        } else {
            INT_MAX
        },
    }
}

/// Construction from two range edges per axis: each edge resolves to a
/// coordinate (starts default to 0, ends to the global bound), clamps, and
/// the pair is sorted so the rectangle is always normalized.
pub open spec fn spec_from_edges(xs: RangeEdge, xe: RangeEdge, ys: RangeEdge, ye: RangeEdge) -> Rect {
    let a = umin(edge_point(xs, 0), INT_MAX);
    let b = umin(edge_point(xe, INT_MAX), INT_MAX);
    let c = umin(edge_point(ys, 0), INT_MAX);
    let d = umin(edge_point(ye, INT_MAX), INT_MAX);
    Rect { x: umin(a, b), y: umin(c, d), x2: umax(a, b), y2: umax(c, d) }
}

/// Clamping both corners independently against canvas bounds.
pub open spec fn spec_constrain(r: Rect, width: u32, height: u32) -> Rect {
    Rect {
        x: umin(width, r.x),
        y: umin(height, r.y),
        x2: umin(width, r.x2),
        y2: umin(height, r.y2),
    }
}

/// Normalization: swapping the two ends of both inclusive ranges leaves the
/// constructed rectangle unchanged, so an inverted range is auto-corrected.
pub proof fn lemma_from_range_swap(a: u32, b: u32, c: u32, d: u32)
    ensures
        spec_from_edges(RangeEdge::Incl(a), RangeEdge::Incl(b), RangeEdge::Incl(c), RangeEdge::Incl(d))
            == spec_from_edges(
            RangeEdge::Incl(b),
            RangeEdge::Incl(a),
            RangeEdge::Incl(d),
            RangeEdge::Incl(c),
        ),
{
}

/// Clamp idempotence: constraining twice to the same bounds equals
/// constraining once.
pub proof fn lemma_constrain_idempotent(r: Rect, width: u32, height: u32)
    ensures
        spec_constrain(spec_constrain(r, width, height), width, height) == spec_constrain(
            r,
            width,
            height,
        ),
{
}

#[verifier::external_type_specification]
pub struct ExRangeFull(core::ops::RangeFull);

#[verifier::external_type_specification]
#[verifier::reject_recursive_types(Idx)]
pub struct ExRangeTo<Idx>(core::ops::RangeTo<Idx>);

#[verifier::external_type_specification]
#[verifier::reject_recursive_types(Idx)]
pub struct ExRangeFrom<Idx>(core::ops::RangeFrom<Idx>);

#[verifier::external_type_specification]
#[verifier::reject_recursive_types(Idx)]
pub struct ExRangeToInclusive<Idx>(core::ops::RangeToInclusive<Idx>);

/// Relies on `core::ops::RangeBounds::start_bound` to read a range's lower
/// edge as a plain value.
#[verifier::external_body]
fn start_edge<R: core::ops::RangeBounds<u32>>(r: &R) -> RangeEdge {
    match r.start_bound() {
        core::ops::Bound::Included(v) => RangeEdge::Incl(*v),
        core::ops::Bound::Excluded(v) => RangeEdge::Excl(*v),
        core::ops::Bound::Unbounded => RangeEdge::Open,
    }
}

/// Relies on `core::ops::RangeBounds::end_bound` to read a range's upper
/// edge as a plain value.
#[verifier::external_body]
fn end_edge<R: core::ops::RangeBounds<u32>>(r: &R) -> RangeEdge {
    match r.end_bound() {
        core::ops::Bound::Included(v) => RangeEdge::Incl(*v),
        core::ops::Bound::Excluded(v) => RangeEdge::Excl(*v),
        core::ops::Bound::Unbounded => RangeEdge::Open,
    }
}

impl Rect {
    /// Normalized and bounded: the corners are ordered and stay under the
    /// global coordinate bound.
    pub open spec fn wf(&self) -> bool {
        &&& self.x <= self.x2 <= INT_MAX
        &&& self.y <= self.y2 <= INT_MAX
    }

    /// True when the pixel `(x, y)` lies inside the rectangle.
    pub open spec fn contains(&self, x: int, y: int) -> bool {
        &&& self.x <= x < self.x2
        &&& self.y <= y < self.y2
    }

    /// The width the rectangle spans; zero when degenerate.
    pub open spec fn spec_width(&self) -> u32 {
        if self.x <= self.x2 {
            (self.x2 - self.x) as u32
        } else {
            0
        }
    }

    /// The height the rectangle spans; zero when degenerate.
    pub open spec fn spec_height(&self) -> u32 {
        if self.y <= self.y2 {
            (self.y2 - self.y) as u32
        } else {
            0
        }
    }

    /// The left edge.
    pub fn x(&self) -> (r: u32)
        ensures
            r == self.x,
    {
        self.x
    }

    /// The top edge.
    pub fn y(&self) -> (r: u32)
        ensures
            r == self.y,
    {
        self.y
    }

    /// The right edge (exclusive).
    pub fn x2(&self) -> (r: u32)
        ensures
            r == self.x2,
    {
        self.x2
    }

    /// The bottom edge (exclusive).
    pub fn y2(&self) -> (r: u32)
        ensures
            r == self.y2,
    {
        self.y2
    }

    /// The width, saturating to zero on a degenerate rectangle.
    pub fn width(&self) -> (r: u32)
        ensures
            r == self.spec_width(),
    {
        if self.x2 >= self.x {
            self.x2 - self.x
        } else {
            0
        }
    }

    /// The height, saturating to zero on a degenerate rectangle.
    pub fn height(&self) -> (r: u32)
        ensures
            r == self.spec_height(),
    {
        if self.y2 >= self.y {
            self.y2 - self.y
        } else {
            0
        }
    }

    /// Width and height together.
    pub fn dimensions(&self) -> (r: (u32, u32))
        ensures
            r.0 == self.spec_width(),
            r.1 == self.spec_height(),
    {
        (self.width(), self.height())
    }

    /// The pixel count of the rectangle; fails with `IntOverflow` when it
    /// does not fit the platform's addressable size.
    pub fn area(&self) -> (r: PngRes<usize>)
        ensures
            match r {
                Ok(a) => a == self.spec_width() * self.spec_height() && a <= usize::MAX,
                Err(e) => e == PngErr::IntOverflow && self.spec_width() * self.spec_height()
                    > usize::MAX,
            },
    {
        let w = self.width() as u64;
        let h = self.height() as u64;
        proof {
            assert(w * h <= 0xFFFFFFFFu64 * 0xFFFFFFFFu64) by (nonlinear_arith)
                requires
                    0 <= w <= 0xFFFFFFFFu64,
                    0 <= h <= 0xFFFFFFFFu64,
            ;
        }
        let prod = w * h;
        if prod <= usize::MAX as u64 {
            Ok(prod as usize)
        } else {
            Err(PngErr::IntOverflow)
        }
    }

    /// Builds a rectangle from two corners; see `spec_new` for the clamping
    /// and collapse rules.
    pub fn new(xy: (u32, u32), xy2: (u32, u32)) -> (r: Rect)
        ensures
            r == spec_new(xy, xy2),
            r.wf(),
    {
        let x = if xy.0 <= INT_MAX {
            xy.0
        } else {
            INT_MAX
        };
        let y = if xy.1 <= INT_MAX {
            xy.1
        } else {
            INT_MAX
        };
        let cx2 = if xy2.0 <= INT_MAX {
            xy2.0
        } else {
            INT_MAX
        };
        let cy2 = if xy2.1 <= INT_MAX {
            xy2.1
        } else {
            INT_MAX
        };
        Rect {
            x,
            y,
            x2: if cx2 >= x {
                cx2
            } else {
                x
            },
            y2: if cy2 >= y {
                cy2
            } else {
                y
            },
        }
    }

    /// Builds a rectangle from an origin and dimensions, saturating at the
    /// global bound.
    pub fn from_dimensions(xy: (u32, u32), width: u32, height: u32) -> (r: Rect)
        ensures
            r == spec_from_dimensions(xy, width, height),
            r.wf(),
    {
        let x = if xy.0 <= INT_MAX {
            xy.0
        } else {
            INT_MAX
        };
        let y = if xy.1 <= INT_MAX {
            xy.1
        } else {
            INT_MAX
        };
        let xw = xy.0 as u64 + width as u64;
        let yh = xy.1 as u64 + height as u64;
        let x2 = if xw <= INT_MAX as u64 {
            xw as u32
        } else {
            INT_MAX
        };
        let y2 = if yh <= INT_MAX as u64 {
            yh as u32
        } else {
            INT_MAX
        };
        Rect { x, y, x2, y2 }
    }

    /// Builds a normalized rectangle from two explicit range edges per axis.
    pub fn from_edges(xs: RangeEdge, xe: RangeEdge, ys: RangeEdge, ye: RangeEdge) -> (r: Rect)
        ensures
            r == spec_from_edges(xs, xe, ys, ye),
            r.wf(),
    {
        let a = Self::resolve_edge(xs, 0);
        let b = Self::resolve_edge(xe, INT_MAX);
        let c = Self::resolve_edge(ys, 0);
        let d = Self::resolve_edge(ye, INT_MAX);
        Rect {
            x: if a <= b {
                a
            } else {
                b
            },
            y: if c <= d {
                c
            } else {
                d
            },
            x2: if a >= b {
                a
            } else {
                b
            },
            y2: if c >= d {
                c
            } else {
                d
            },
        }
    }

    /// Resolves one range edge to a clamped coordinate.
    fn resolve_edge(e: RangeEdge, default: u32) -> (r: u32)
        requires
            default <= INT_MAX,
        ensures
            r == umin(edge_point(e, default), INT_MAX),
    {
        let v = match e {
            RangeEdge::Incl(v) => v,
            RangeEdge::Excl(v) => if v > 0 {
                v - 1
            } else {
                0
            },
            RangeEdge::Open => default,
        };
        if v <= INT_MAX {
            v
        } else {
            INT_MAX
        }
    }

    /// Builds a normalized rectangle from a pair of ranges; an unbounded
    /// start maps to 0, an unbounded end to the global maximum, and an
    /// inverted range is swapped rather than rejected.
    pub fn from_range(xx2: impl core::ops::RangeBounds<u32>, yy2: impl core::ops::RangeBounds<
        u32,
    >) -> (r: Rect)
        ensures
            r.wf(),
    {
        Self::from_edges(start_edge(&xx2), end_edge(&xx2), start_edge(&yy2), end_edge(&yy2))
    }

    /// Clamps both corners independently against canvas bounds; this can
    /// legitimately produce a zero-area rectangle.
    pub fn constrain(&self, width: u32, height: u32) -> (r: Rect)
        ensures
            r == spec_constrain(*self, width, height),
            self.wf() ==> r.wf(),
    {
        Rect {
            x: if width <= self.x {
                width
            } else {
                self.x
            },
            y: if height <= self.y {
                height
            } else {
                self.y
            },
            x2: if width <= self.x2 {
                width
            } else {
                self.x2
            },
            y2: if height <= self.y2 {
                height
            } else {
                self.y2
            },
        }
    }

    /// Translates the rectangle so its origin becomes `(x, y)`, preserving
    /// width and height up to saturation at the global bound.
    pub fn pos(&self, x: u32, y: u32) -> (r: Rect)
        ensures
            r == spec_from_dimensions((x, y), self.spec_width(), self.spec_height()),
            r.wf(),
    {
        let w = self.width();
        let h = self.height();
        Self::from_dimensions((x, y), w, h)
    }
}

} // verus!
