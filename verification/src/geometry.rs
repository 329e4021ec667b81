//! Bounding boxes and keypoints in corner form, with exact integer
//! intersection-over-union comparisons.

use vstd::prelude::*;
use crate::{COORD_LIMIT, IOU_SCALE};

verus! {

/// An axis-aligned box in original-image pixel space, in corner form:
/// `(x, y)` is the top-left corner, `w` and `h` the extent.  `id` is the
/// class index and `confidence` the max-class score as a fraction of
/// [`crate::CONF_SCALE`].
#[derive(Clone, Copy, Debug, PartialEq, Eq, Structural)]
pub struct Bbox {
    pub x: i64,
    pub y: i64,
    pub w: i64,
    pub h: i64,
    pub id: usize,
    pub confidence: u32,
}

/// A keypoint with its own confidence; a keypoint whose confidence fell
/// below the threshold is stored as the zero point with zero confidence.
#[derive(Clone, Copy, Debug, PartialEq, Eq, Structural)]
pub struct Point2 {
    pub x: i64,
    pub y: i64,
    pub confidence: u32,
}

/// The box lies inside the coordinate budget: both corners in
/// `[0, COORD_LIMIT]` with non-negative extent.
pub open spec fn box_wf(b: Bbox) -> bool {
    &&& 0 <= b.x
    &&& 0 <= b.y
    &&& 0 <= b.w
    &&& 0 <= b.h
    &&& b.x + b.w <= COORD_LIMIT
    &&& b.y + b.h <= COORD_LIMIT
}

/// Area of the intersection of `a` and `b` (0 when they do not overlap).
pub open spec fn inter_area(a: Bbox, b: Bbox) -> int {
    let iw = vstd::math::min(a.x + a.w, b.x + b.w) - vstd::math::max(a.x as int, b.x as int);
    let ih = vstd::math::min(a.y + a.h, b.y + b.h) - vstd::math::max(a.y as int, b.y as int);
    if iw > 0 && ih > 0 {
        iw * ih
    } else {
        0
    }
}

/// Area of the union of `a` and `b`.
pub open spec fn union_area(a: Bbox, b: Bbox) -> int {
    a.w * a.h + b.w * b.h - inter_area(a, b)
}

/// The intersection-over-union ratio of `a` and `b` strictly exceeds the
/// fixed-point threshold `thr / IOU_SCALE`.  Stated multiplicatively so the
/// comparison is exact; two zero-area boxes never exceed any threshold.
pub open spec fn spec_iou_exceeds(a: Bbox, b: Bbox, thr: int) -> bool {
    inter_area(a, b) * IOU_SCALE > thr * union_area(a, b)
}

/// IoU is symmetric in its two boxes.
pub proof fn lemma_iou_symmetric(a: Bbox, b: Bbox, thr: int)
    ensures
        spec_iou_exceeds(a, b, thr) == spec_iou_exceeds(b, a, thr),
{
}

/// Products of bounded non-negative factors are bounded:
/// `0 <= a <= b` and `0 <= c <= d` give `0 <= a * c <= b * d`.
proof fn mul_le(a: int, b: int, c: int, d: int)
    requires
        0 <= a <= b,
        0 <= c <= d,
    ensures
        0 <= a * c <= b * d,
{
    assert(0 <= a * c <= b * d) by (nonlinear_arith)
        requires
            0 <= a <= b,
            0 <= c <= d,
    ;
}

/// Bounds on intersection and union areas of two well-formed boxes.
pub proof fn lemma_area_bounds(a: Bbox, b: Bbox)
    requires
        box_wf(a),
        box_wf(b),
    ensures
        0 <= inter_area(a, b) <= COORD_LIMIT * COORD_LIMIT,
        inter_area(a, b) <= a.w * a.h,
        0 <= a.w * a.h <= COORD_LIMIT * COORD_LIMIT,
        0 <= b.w * b.h <= COORD_LIMIT * COORD_LIMIT,
        0 <= union_area(a, b) <= 2 * (COORD_LIMIT * COORD_LIMIT),
{
    mul_le(a.w as int, COORD_LIMIT as int, a.h as int, COORD_LIMIT as int);
    mul_le(b.w as int, COORD_LIMIT as int, b.h as int, COORD_LIMIT as int);
    let iw = vstd::math::min(a.x + a.w, b.x + b.w) - vstd::math::max(a.x as int, b.x as int);
    let ih = vstd::math::min(a.y + a.h, b.y + b.h) - vstd::math::max(a.y as int, b.y as int);
    if iw > 0 && ih > 0 {
        assert(iw <= a.w && ih <= a.h);
        mul_le(iw, a.w as int, ih, a.h as int);
        mul_le(iw, COORD_LIMIT as int, ih, COORD_LIMIT as int);
    }
}

impl Bbox {
    pub fn new(x: i64, y: i64, w: i64, h: i64, id: usize, confidence: u32) -> (r: Bbox)
        ensures
            r == (Bbox { x, y, w, h, id, confidence }),
    {
        Bbox { x, y, w, h, id, confidence }
    }

    pub fn xmin(&self) -> (r: i64)
        ensures
            r == self.x,
    {
        self.x
    }

    pub fn ymin(&self) -> (r: i64)
        ensures
            r == self.y,
    {
        self.y
    }

    pub fn xmax(&self) -> (r: i64)
        requires
            box_wf(*self),
        ensures
            r == self.x + self.w,
    {
        self.x + self.w
    }

    pub fn ymax(&self) -> (r: i64)
        requires
            box_wf(*self),
        ensures
            r == self.y + self.h,
    {
        self.y + self.h
    }

    pub fn width(&self) -> (r: i64)
        ensures
            r == self.w,
    {
        self.w
    }

    pub fn height(&self) -> (r: i64)
        ensures
            r == self.h,
    {
        self.h
    }

    pub fn id(&self) -> (r: usize)
        ensures
            r == self.id,
    {
        self.id
    }

    pub fn confidence(&self) -> (r: u32)
        ensures
            r == self.confidence,
    {
        self.confidence
    }

    /// Decides whether the IoU of `self` and `other` strictly exceeds the
    /// fixed-point threshold `thr / IOU_SCALE`, by exact cross-multiplication.
    pub fn iou_exceeds(&self, other: &Bbox, thr: i64) -> (r: bool)
        requires
            box_wf(*self),
            box_wf(*other),
            0 <= thr <= IOU_SCALE,
        ensures
            r == spec_iou_exceeds(*self, *other, thr as int),
    {
        proof {
            lemma_area_bounds(*self, *other);
        }
        let ax2 = self.x + self.w;
        let ay2 = self.y + self.h;
        let bx2 = other.x + other.w;
        let by2 = other.y + other.h;
        let ix1 = if self.x > other.x { self.x } else { other.x };
        let iy1 = if self.y > other.y { self.y } else { other.y };
        let ix2 = if ax2 < bx2 { ax2 } else { bx2 };
        let iy2 = if ay2 < by2 { ay2 } else { by2 };
        let inter: i64 = if ix2 > ix1 && iy2 > iy1 {
            (ix2 - ix1) * (iy2 - iy1)
        } else {
            0
        };
        assert(inter == inter_area(*self, *other));
        let uni: i64 = self.w * self.h + other.w * other.h - inter;
        proof {
            mul_le(inter as int, COORD_LIMIT * COORD_LIMIT, IOU_SCALE as int, IOU_SCALE as int);
            mul_le(thr as int, IOU_SCALE as int, uni as int, 2 * (COORD_LIMIT * COORD_LIMIT));
        }
        inter * IOU_SCALE > thr * uni
    }
}

} // verus!
