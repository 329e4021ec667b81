//! The postprocessor: per-anchor confidence filtering, box and keypoint
//! decoding back to original-image coordinates, non-max suppression, and
//! assembly of the per-slot results.

use vstd::prelude::*;
use crate::geometry::{box_wf, Bbox, Point2};
use crate::image_data::DIM_LIMIT;
use crate::mask::raw_bounded;
use crate::nms::Detection;
use crate::scale::descale;
use crate::tensor::{raw_at, raw_wf, RawTensor};
use crate::config::{yolo_wf, YOLOv8};
use crate::{COORD_LIMIT, YOLOTask};

verus! {

/// Clamp into `[0, hi]`.
pub open spec fn clamp_to(v: int, hi: int) -> int {
    if v < 0 {
        0
    } else if v > hi {
        hi
    } else {
        v
    }
}

/// The first class attaining the maximum score among the first `k`
/// classes of anchor `a`: the running best is replaced only by a strictly
/// greater score, so ties keep the earliest class.
pub open spec fn best_of_prefix(t: RawTensor, n: int, a: int, k: int) -> (int, i64)
    decreases k,
{
    if k <= 1 {
        (0, raw_at(t, n, 4, a))
    } else {
        let prev = best_of_prefix(t, n, a, k - 1);
        let v = raw_at(t, n, 4 + (k - 1), a);
        if v > prev.1 {
            (k - 1, v)
        } else {
            prev
        }
    }
}

/// The box of anchor `a` taken back to original-image space: divide by
/// the letterbox ratio `rn / rd`, go from center-size to corner form, and
/// clamp both corners into `[0, w0] x [0, h0]`.
pub open spec fn decoded_box(
    t: RawTensor,
    n: int,
    a: int,
    id: int,
    confv: i64,
    rn: int,
    rd: int,
    w0: int,
    h0: int,
) -> Bbox {
    let cxs = descale(raw_at(t, n, 0, a) as int, rn, rd);
    let cys = descale(raw_at(t, n, 1, a) as int, rn, rd);
    let ws = vstd::math::max(descale(raw_at(t, n, 2, a) as int, rn, rd), 0);
    let hs = vstd::math::max(descale(raw_at(t, n, 3, a) as int, rn, rd), 0);
    let x1 = clamp_to(cxs - ws / 2, w0);
    let y1 = clamp_to(cys - hs / 2, h0);
    let x2 = clamp_to(cxs - ws / 2 + ws, w0);
    let y2 = clamp_to(cys - hs / 2 + hs, h0);
    Bbox {
        x: x1 as i64,
        y: y1 as i64,
        w: (x2 - x1) as i64,
        h: (y2 - y1) as i64,
        id: id as usize,
        confidence: confv as u32,
    }
}

/// Any box decoded from model space lands inside `[0, w0] x [0, h0]`
/// after clamping, whatever the tensor held.
pub proof fn lemma_decoded_box_in_bounds(
    t: RawTensor,
    n: int,
    a: int,
    id: int,
    confv: i64,
    rn: int,
    rd: int,
    w0: int,
    h0: int,
)
    requires
        0 <= w0 <= COORD_LIMIT,
        0 <= h0 <= COORD_LIMIT,
    ensures
        ({
            let b = decoded_box(t, n, a, id, confv, rn, rd, w0, h0);
            &&& 0 <= b.x
            &&& 0 <= b.y
            &&& 0 <= b.w
            &&& 0 <= b.h
            &&& b.x + b.w <= w0
            &&& b.y + b.h <= h0
        }),
{
}

/// Keypoint `k` of anchor `a`: rescaled and clamped like a box corner,
/// except that a keypoint whose own confidence falls strictly below the
/// threshold is replaced by the zero keypoint (the list keeps its
/// length).
pub open spec fn decoded_kpt(
    t: RawTensor,
    n: int,
    a: int,
    nc: int,
    k: int,
    rn: int,
    rd: int,
    w0: int,
    h0: int,
    kconf: int,
) -> Point2 {
    let kx = raw_at(t, n, 4 + nc + 3 * k, a);
    let ky = raw_at(t, n, 4 + nc + 3 * k + 1, a);
    let kc = raw_at(t, n, 4 + nc + 3 * k + 2, a);
    if kc < kconf {
        Point2 { x: 0, y: 0, confidence: 0 }
    } else {
        Point2 {
            x: clamp_to(descale(kx as int, rn, rd), w0) as i64,
            y: clamp_to(descale(ky as int, rn, rd), h0) as i64,
            confidence: kc as u32,
        }
    }
}

/// Rows of the primary tensor past the 4 box values and the class
/// scores: keypoint triples for pose, mask coefficients for
/// segmentation.
pub open spec fn extra_rows(m: YOLOv8) -> int {
    if m.task is Pose {
        3 * m.nk
    } else if m.task is Segment {
        m.nm as int
    } else {
        0
    }
}

/// `d` is exactly the decoded candidate of anchor `a`.
pub open spec fn cand_matches(
    d: Detection,
    t: RawTensor,
    n: int,
    a: int,
    m: YOLOv8,
    rn: int,
    rd: int,
    w0: int,
    h0: int,
) -> bool {
    let best = best_of_prefix(t, n, a, m.nc as int);
    &&& d.bbox == decoded_box(t, n, a, best.0, best.1, rn, rd, w0, h0)
    &&& match d.keypoints {
        Some(ks) => m.task is Pose && ks.len() == m.nk && forall|k: int|
            0 <= k < m.nk ==> #[trigger] ks[k] == decoded_kpt(
                t,
                n,
                a,
                m.nc as int,
                k,
                rn,
                rd,
                w0,
                h0,
                m.kconf as int,
            ),
        None => !(m.task is Pose),
    }
    &&& match d.coefs {
        Some(cs) => m.task is Segment && cs.len() == m.nm && forall|k: int|
            0 <= k < m.nm ==> #[trigger] cs[k] == raw_at(t, n, 4 + m.nc + k, a),
        None => !(m.task is Segment),
    }
}

/// `cands` is exactly the list of candidates that anchors `lo` to `hi`
/// contribute: one decoded candidate per anchor whose best class score
/// reaches the confidence threshold (the boundary is inclusive), nothing
/// for the anchors strictly below it.
pub open spec fn decoded_prefix(
    cands: Seq<Detection>,
    t: RawTensor,
    n: int,
    m: YOLOv8,
    rn: int,
    rd: int,
    w0: int,
    h0: int,
    lo: int,
    hi: int,
) -> bool
    decreases hi - lo,
{
    if lo >= hi {
        cands.len() == 0
    } else {
        let best = best_of_prefix(t, n, lo, m.nc as int);
        if best.1 >= m.conf {
            &&& cands.len() > 0
            &&& cand_matches(cands[0], t, n, lo, m, rn, rd, w0, h0)
            &&& decoded_prefix(cands.drop_first(), t, n, m, rn, rd, w0, h0, lo + 1, hi)
        } else {
            decoded_prefix(cands, t, n, m, rn, rd, w0, h0, lo + 1, hi)
        }
    }
}

/// `cands` is exactly what the whole anchor dimension contributes.
pub open spec fn decoded_candidates(
    cands: Seq<Detection>,
    t: RawTensor,
    n: int,
    m: YOLOv8,
    rn: int,
    rd: int,
    w0: int,
    h0: int,
) -> bool {
    decoded_prefix(cands, t, n, m, rn, rd, w0, h0, 0, t.anchors as int)
}

/// How many anchors of `[lo, hi)` pass the confidence filter.
pub open spec fn kept_count(t: RawTensor, n: int, m: YOLOv8, lo: int, hi: int) -> int
    decreases hi - lo,
{
    if lo >= hi {
        0
    } else {
        (if best_of_prefix(t, n, lo, m.nc as int).1 >= m.conf {
            1int
        } else {
            0int
        }) + kept_count(t, n, m, lo + 1, hi)
    }
}

/// The confidence filter's boundary is inclusive: an anchor whose best
/// class score is exactly the threshold is kept, one strictly below is
/// dropped.
pub proof fn lemma_confidence_boundary(t: RawTensor, n: int, m: YOLOv8, lo: int, hi: int)
    requires
        lo < hi,
    ensures
        best_of_prefix(t, n, lo, m.nc as int).1 == m.conf ==> kept_count(t, n, m, lo, hi) == 1
            + kept_count(t, n, m, lo + 1, hi),
        best_of_prefix(t, n, lo, m.nc as int).1 < m.conf ==> kept_count(t, n, m, lo, hi)
            == kept_count(t, n, m, lo + 1, hi),
{
}

/// When every anchor of `[lo, hi)` falls strictly below the threshold,
/// nothing is decoded.
proof fn lemma_decoded_empty(
    cands: Seq<Detection>,
    t: RawTensor,
    n: int,
    m: YOLOv8,
    rn: int,
    rd: int,
    w0: int,
    h0: int,
    lo: int,
    hi: int,
)
    requires
        decoded_prefix(cands, t, n, m, rn, rd, w0, h0, lo, hi),
        forall|a: int|
            lo <= a < hi ==> #[trigger] best_of_prefix(t, n, a, m.nc as int).1 < m.conf,
    ensures
        cands.len() == 0,
    decreases hi - lo,
{
    if lo < hi {
        lemma_decoded_empty(cands, t, n, m, rn, rd, w0, h0, lo + 1, hi);
    }
}

/// When exactly one anchor of `[lo, hi)` reaches the threshold, the
/// decoded list is that anchor's candidate alone.
proof fn lemma_decoded_single(
    cands: Seq<Detection>,
    t: RawTensor,
    n: int,
    m: YOLOv8,
    rn: int,
    rd: int,
    w0: int,
    h0: int,
    lo: int,
    hi: int,
    a_star: int,
)
    requires
        decoded_prefix(cands, t, n, m, rn, rd, w0, h0, lo, hi),
        lo <= a_star < hi,
        best_of_prefix(t, n, a_star, m.nc as int).1 >= m.conf,
        forall|a: int|
            lo <= a < hi && a != a_star ==> #[trigger] best_of_prefix(t, n, a, m.nc as int).1
                < m.conf,
    ensures
        cands.len() == 1,
        cand_matches(cands[0], t, n, a_star, m, rn, rd, w0, h0),
    decreases hi - lo,
{
    if lo == a_star {
        lemma_decoded_empty(cands.drop_first(), t, n, m, rn, rd, w0, h0, lo + 1, hi);
    } else {
        lemma_decoded_single(cands, t, n, m, rn, rd, w0, h0, lo + 1, hi, a_star);
    }
}

/// The confidence boundary is inclusive through the whole slot: when
/// exactly one anchor's best class score equals the threshold and every
/// other anchor falls strictly below it, the slot's result holds
/// exactly one box — the decoded candidate of that anchor — and its
/// confidence is the threshold itself.
pub proof fn lemma_equality_anchor_kept(
    res: crate::yolo_result::YOLOResult,
    preds: RawTensor,
    proto: RawTensor,
    pw: int,
    ph: int,
    m: YOLOv8,
    w0: int,
    h0: int,
    n: int,
    a_star: int,
)
    requires
        slot_ok(res, preds, proto, pw, ph, m, w0, h0, n),
        1 <= w0,
        1 <= h0,
        0 <= a_star < preds.anchors,
        best_of_prefix(preds, n, a_star, m.nc as int).1 == m.conf,
        forall|a: int|
            0 <= a < preds.anchors && a != a_star ==> #[trigger] best_of_prefix(
                preds,
                n,
                a,
                m.nc as int,
            ).1 < m.conf,
    ensures
        res.bboxes is Some,
        res.bboxes->0.len() == 1,
        res.bboxes->0[0] == decoded_box(
            preds,
            n,
            a_star,
            best_of_prefix(preds, n, a_star, m.nc as int).0,
            best_of_prefix(preds, n, a_star, m.nc as int).1,
            crate::scale::ratio_num(w0, h0, m.width as int, m.height as int),
            crate::scale::ratio_den(w0, h0, m.width as int, m.height as int),
            w0,
            h0,
        ),
        res.bboxes->0[0].confidence == m.conf,
{
    let rn = crate::scale::ratio_num(w0, h0, m.width as int, m.height as int);
    let rd = crate::scale::ratio_den(w0, h0, m.width as int, m.height as int);
    let cands = choose|cands: Seq<Detection>|
        #[trigger] decoded_candidates(cands, preds, n, m, rn, rd, w0, h0) && split_matches(
            res,
            crate::nms::nms_spec(cands, m.iou as int),
            m,
            proto,
            pw,
            ph,
            n,
            w0,
            h0,
        );
    lemma_decoded_single(cands, preds, n, m, rn, rd, w0, h0, 0, preds.anchors as int, a_star);
    assert(cands =~= seq![cands[0]]);
    crate::nms::lemma_nms_single(cands[0], m.iou as int);
    let best = best_of_prefix(preds, n, a_star, m.nc as int);
    assert(cands[0].bbox == decoded_box(preds, n, a_star, best.0, best.1, rn, rd, w0, h0));
}

/// A decoded candidate list has one entry per kept anchor.
pub proof fn lemma_decoded_len(
    cands: Seq<Detection>,
    t: RawTensor,
    n: int,
    m: YOLOv8,
    rn: int,
    rd: int,
    w0: int,
    h0: int,
    lo: int,
    hi: int,
)
    requires
        decoded_prefix(cands, t, n, m, rn, rd, w0, h0, lo, hi),
    ensures
        cands.len() == kept_count(t, n, m, lo, hi),
    decreases hi - lo,
{
    if lo < hi {
        let best = best_of_prefix(t, n, lo, m.nc as int);
        if best.1 >= m.conf {
            lemma_decoded_len(cands.drop_first(), t, n, m, rn, rd, w0, h0, lo + 1, hi);
        } else {
            lemma_decoded_len(cands, t, n, m, rn, rd, w0, h0, lo + 1, hi);
        }
    }
}

/// Appending the candidate of the next kept anchor extends the relation.
proof fn lemma_decoded_push(
    cands: Seq<Detection>,
    d: Detection,
    t: RawTensor,
    n: int,
    m: YOLOv8,
    rn: int,
    rd: int,
    w0: int,
    h0: int,
    lo: int,
    hi: int,
)
    requires
        decoded_prefix(cands, t, n, m, rn, rd, w0, h0, lo, hi),
        lo <= hi,
        best_of_prefix(t, n, hi, m.nc as int).1 >= m.conf,
        cand_matches(d, t, n, hi, m, rn, rd, w0, h0),
    ensures
        decoded_prefix(cands.push(d), t, n, m, rn, rd, w0, h0, lo, hi + 1),
    decreases hi - lo,
{
    reveal_with_fuel(decoded_prefix, 3);
    if lo >= hi {
        assert(cands.len() == 0);
        let c2 = cands.push(d);
        assert(c2[0] == d);
        assert(c2.drop_first() =~= Seq::<Detection>::empty());
    } else {
        let best = best_of_prefix(t, n, lo, m.nc as int);
        if best.1 >= m.conf {
            lemma_decoded_push(cands.drop_first(), d, t, n, m, rn, rd, w0, h0, lo + 1, hi);
            assert(cands.push(d).drop_first() =~= cands.drop_first().push(d));
            assert(cands.push(d)[0] == cands[0]);
        } else {
            lemma_decoded_push(cands, d, t, n, m, rn, rd, w0, h0, lo + 1, hi);
        }
    }
}

/// A skipped anchor extends the relation unchanged.
proof fn lemma_decoded_skip(
    cands: Seq<Detection>,
    t: RawTensor,
    n: int,
    m: YOLOv8,
    rn: int,
    rd: int,
    w0: int,
    h0: int,
    lo: int,
    hi: int,
)
    requires
        decoded_prefix(cands, t, n, m, rn, rd, w0, h0, lo, hi),
        lo <= hi,
        best_of_prefix(t, n, hi, m.nc as int).1 < m.conf,
    ensures
        decoded_prefix(cands, t, n, m, rn, rd, w0, h0, lo, hi + 1),
    decreases hi - lo,
{
    reveal_with_fuel(decoded_prefix, 3);
    if lo >= hi {
    } else {
        let best = best_of_prefix(t, n, lo, m.nc as int);
        if best.1 >= m.conf {
            lemma_decoded_skip(cands.drop_first(), t, n, m, rn, rd, w0, h0, lo + 1, hi);
        } else {
            lemma_decoded_skip(cands, t, n, m, rn, rd, w0, h0, lo + 1, hi);
        }
    }
}

/// `d` is the decoded candidate of some anchor in `[lo, hi)`.
pub open spec fn cand_from_range(
    d: Detection,
    t: RawTensor,
    n: int,
    m: YOLOv8,
    rn: int,
    rd: int,
    w0: int,
    h0: int,
    lo: int,
    hi: int,
) -> bool {
    exists|a: int| lo <= a < hi && #[trigger] cand_matches(d, t, n, a, m, rn, rd, w0, h0)
}

/// Every candidate of a decoded list matches some anchor of `[lo, hi)`.
pub proof fn lemma_decoded_members(
    cands: Seq<Detection>,
    t: RawTensor,
    n: int,
    m: YOLOv8,
    rn: int,
    rd: int,
    w0: int,
    h0: int,
    lo: int,
    hi: int,
)
    requires
        decoded_prefix(cands, t, n, m, rn, rd, w0, h0, lo, hi),
    ensures
        forall|i: int|
            0 <= i < cands.len() ==> cand_from_range(
                #[trigger] cands[i],
                t,
                n,
                m,
                rn,
                rd,
                w0,
                h0,
                lo,
                hi,
            ),
    decreases hi - lo,
{
    reveal_with_fuel(decoded_prefix, 3);
    if lo < hi {
        let best = best_of_prefix(t, n, lo, m.nc as int);
        if best.1 >= m.conf {
            lemma_decoded_members(cands.drop_first(), t, n, m, rn, rd, w0, h0, lo + 1, hi);
            assert forall|i: int| 0 <= i < cands.len() implies cand_from_range(
                #[trigger] cands[i],
                t,
                n,
                m,
                rn,
                rd,
                w0,
                h0,
                lo,
                hi,
            ) by {
                if i == 0 {
                    assert(cand_matches(cands[0], t, n, lo, m, rn, rd, w0, h0));
                } else {
                    assert(cands[i] == cands.drop_first()[i - 1]);
                    assert(cand_from_range(
                        cands.drop_first()[i - 1],
                        t,
                        n,
                        m,
                        rn,
                        rd,
                        w0,
                        h0,
                        lo + 1,
                        hi,
                    ));
                    let a0 = choose|a0: int|
                        lo + 1 <= a0 < hi && #[trigger] cand_matches(
                            cands.drop_first()[i - 1],
                            t,
                            n,
                            a0,
                            m,
                            rn,
                            rd,
                            w0,
                            h0,
                        );
                    assert(cand_matches(cands[i], t, n, a0, m, rn, rd, w0, h0));
                }
            }
        } else {
            lemma_decoded_members(cands, t, n, m, rn, rd, w0, h0, lo + 1, hi);
            assert forall|i: int| 0 <= i < cands.len() implies cand_from_range(
                #[trigger] cands[i],
                t,
                n,
                m,
                rn,
                rd,
                w0,
                h0,
                lo,
                hi,
            ) by {
                assert(cand_from_range(cands[i], t, n, m, rn, rd, w0, h0, lo + 1, hi));
                let a0 = choose|a0: int|
                    lo + 1 <= a0 < hi && #[trigger] cand_matches(
                        cands[i],
                        t,
                        n,
                        a0,
                        m,
                        rn,
                        rd,
                        w0,
                        h0,
                    );
                assert(cand_matches(cands[i], t, n, a0, m, rn, rd, w0, h0));
            }
        }
    }
}

/// A matched candidate's box is well-formed, and its payloads are sized
/// and bounded by the task.
pub proof fn lemma_cand_shape(
    d: Detection,
    t: RawTensor,
    n: int,
    a: int,
    m: YOLOv8,
    rn: int,
    rd: int,
    w0: int,
    h0: int,
)
    requires
        cand_matches(d, t, n, a, m, rn, rd, w0, h0),
        raw_bounded(t),
        raw_wf(t),
        0 <= n < t.batch,
        0 <= a < t.anchors,
        0 < w0 <= DIM_LIMIT,
        0 < h0 <= DIM_LIMIT,
        yolo_wf(m),
        t.rows == 4 + m.nc + extra_rows(m),
    ensures
        box_wf(d.bbox),
        d.bbox.x + d.bbox.w <= w0,
        d.bbox.y + d.bbox.h <= h0,
        d.keypoints is Some <==> m.task is Pose,
        d.coefs is Some <==> m.task is Segment,
        m.task is Segment ==> d.coefs is Some && d.coefs->0@.len() == m.nm && crate::mask::coefs_bounded(d.coefs->0@),
{
    if m.task is Segment {
        let cs = d.coefs->0;
        assert forall|k: int| 0 <= k < cs@.len() implies -COORD_LIMIT <= #[trigger] cs@[k]
            <= COORD_LIMIT by {
            assert(cs@[k] == raw_at(t, n, 4 + m.nc + k, a));
            crate::tensor::lemma_raw_index(
                t.batch as int,
                t.rows as int,
                t.anchors as int,
                n,
                4 + m.nc + k,
                a,
            );
        }
    }
}

/// The best class is a real class and its score is one of the tensor's
/// entries.
pub proof fn lemma_best_props(t: RawTensor, n: int, a: int, k: int)
    requires
        1 <= k,
    ensures
        0 <= best_of_prefix(t, n, a, k).0 < k,
        best_of_prefix(t, n, a, k).1 == raw_at(t, n, 4 + best_of_prefix(t, n, a, k).0, a),
    decreases k,
{
    if k > 1 {
        lemma_best_props(t, n, a, k - 1);
    }
}

/// Magnitude bound on products of bounded factors.
proof fn mul_abs_le(a: int, b: int, c: int, d: int)
    requires
        -c <= a <= c,
        0 <= b <= d,
        0 <= c,
    ensures
        -(c * d) <= a * b <= c * d,
{
    assert(-(c * d) <= a * b <= c * d) by (nonlinear_arith)
        requires
            -c <= a <= c,
            0 <= b <= d,
            0 <= c,
    ;
}

/// An entry of a bounded tensor is within the coordinate budget.
proof fn lemma_raw_entry_bound(t: RawTensor, n: int, j: int, a: int)
    requires
        raw_wf(t),
        raw_bounded(t),
        0 <= n < t.batch,
        0 <= j < t.rows,
        0 <= a < t.anchors,
    ensures
        -COORD_LIMIT <= raw_at(t, n, j, a) <= COORD_LIMIT,
{
    crate::tensor::lemma_raw_index(t.batch as int, t.rows as int, t.anchors as int, n, j, a);
}

/// Clamp into `[0, hi]`, executably.
fn clamp_exec(v: i64, hi: i64) -> (r: i64)
    requires
        0 <= hi,
    ensures
        r == clamp_to(v as int, hi as int),
{
    if v < 0 {
        0
    } else if v > hi {
        hi
    } else {
        v
    }
}

/// Brings a raw model-space value back to original-image space:
/// `round(v / (rn / rd))`.
fn descale_exec(v: i64, rn: i64, rd: i64) -> (r: i64)
    requires
        1 <= rn <= COORD_LIMIT,
        1 <= rd <= COORD_LIMIT,
        -COORD_LIMIT <= v <= COORD_LIMIT,
    ensures
        r == descale(v as int, rn as int, rd as int),
        -(COORD_LIMIT * COORD_LIMIT) <= r <= COORD_LIMIT * COORD_LIMIT,
{
    proof {
        mul_abs_le(v as int, rd as int, COORD_LIMIT as int, COORD_LIMIT as int);
        crate::scale::lemma_round_div_abs((v as int) * (rd as int), rn as int);
    }
    crate::scale::round_div(v * rd, rn)
}

/// Decodes the candidate of one anchor that passed the confidence
/// filter.
fn decode_one(
    m: &YOLOv8,
    preds: &RawTensor,
    n: usize,
    a: usize,
    best_id: usize,
    best_v: i64,
    rn: i64,
    rd: i64,
    w0: u32,
    h0: u32,
) -> (d: Detection)
    requires
        yolo_wf(*m),
        raw_wf(*preds),
        raw_bounded(*preds),
        n < preds.batch,
        a < preds.anchors,
        preds.rows == 4 + m.nc + extra_rows(*m),
        (best_id as int, best_v) == best_of_prefix(*preds, n as int, a as int, m.nc as int),
        0 <= best_v,
        1 <= rn <= COORD_LIMIT,
        1 <= rd <= COORD_LIMIT,
        1 <= w0 <= DIM_LIMIT,
        1 <= h0 <= DIM_LIMIT,
    ensures
        cand_matches(d, *preds, n as int, a as int, *m, rn as int, rd as int, w0 as int, h0 as int),
        box_wf(d.bbox),
{
    proof {
        lemma_best_props(*preds, n as int, a as int, m.nc as int);
        lemma_raw_entry_bound(*preds, n as int, 0, a as int);
        lemma_raw_entry_bound(*preds, n as int, 1, a as int);
        lemma_raw_entry_bound(*preds, n as int, 2, a as int);
        lemma_raw_entry_bound(*preds, n as int, 3, a as int);
        lemma_raw_entry_bound(*preds, n as int, 4 + best_id as int, a as int);
    }
    let cx = preds.at(n, 0, a);
    let cy = preds.at(n, 1, a);
    let wb = preds.at(n, 2, a);
    let hb = preds.at(n, 3, a);
    let cxs = descale_exec(cx, rn, rd);
    let cys = descale_exec(cy, rn, rd);
    let ws0 = descale_exec(wb, rn, rd);
    let hs0 = descale_exec(hb, rn, rd);
    let ws = if ws0 < 0 {
        0
    } else {
        ws0
    };
    let hs = if hs0 < 0 {
        0
    } else {
        hs0
    };
    let x1 = clamp_exec(cxs - ws / 2, w0 as i64);
    let y1 = clamp_exec(cys - hs / 2, h0 as i64);
    let x2 = clamp_exec(cxs - ws / 2 + ws, w0 as i64);
    let y2 = clamp_exec(cys - hs / 2 + hs, h0 as i64);
    let bbox = Bbox {
        x: x1,
        y: y1,
        w: x2 - x1,
        h: y2 - y1,
        id: best_id,
        confidence: best_v as u32,
    };
    let keypoints: Option<Vec<Point2>> = if matches!(m.task, YOLOTask::Pose) {
        let nc = m.nc as usize;
        let nk = m.nk as usize;
        let mut ks: Vec<Point2> = Vec::new();
        let mut k: usize = 0;
        while k < nk
            invariant
                yolo_wf(*m),
                raw_wf(*preds),
                raw_bounded(*preds),
                n < preds.batch,
                a < preds.anchors,
                preds.rows == 4 + m.nc + extra_rows(*m),
                m.task is Pose,
                nc == m.nc,
                nk == m.nk,
                1 <= rn <= COORD_LIMIT,
                1 <= rd <= COORD_LIMIT,
                1 <= w0 <= DIM_LIMIT,
                1 <= h0 <= DIM_LIMIT,
                0 <= k <= nk,
                ks.len() == k,
                forall|k2: int|
                    0 <= k2 < k ==> #[trigger] ks[k2] == decoded_kpt(
                        *preds,
                        n as int,
                        a as int,
                        m.nc as int,
                        k2,
                        rn as int,
                        rd as int,
                        w0 as int,
                        h0 as int,
                        m.kconf as int,
                    ),
            decreases nk - k,
        {
            proof {
                lemma_raw_entry_bound(*preds, n as int, 4 + m.nc + 3 * (k as int), a as int);
                lemma_raw_entry_bound(*preds, n as int, 4 + m.nc + 3 * (k as int) + 1, a as int);
                lemma_raw_entry_bound(*preds, n as int, 4 + m.nc + 3 * (k as int) + 2, a as int);
            }
            let kx = preds.at(n, 4 + nc + 3 * k, a);
            let ky = preds.at(n, 4 + nc + 3 * k + 1, a);
            let kc = preds.at(n, 4 + nc + 3 * k + 2, a);
            let p = if kc < m.kconf as i64 {
                Point2 { x: 0, y: 0, confidence: 0 }
            } else {
                Point2 {
                    x: clamp_exec(descale_exec(kx, rn, rd), w0 as i64),
                    y: clamp_exec(descale_exec(ky, rn, rd), h0 as i64),
                    confidence: kc as u32,
                }
            };
            ks.push(p);
            k += 1;
        }
        Some(ks)
    } else {
        None
    };
    let coefs: Option<Vec<i64>> = if matches!(m.task, YOLOTask::Segment) {
        let nc = m.nc as usize;
        let nm = m.nm as usize;
        let mut cs: Vec<i64> = Vec::new();
        let mut k: usize = 0;
        while k < nm
            invariant
                yolo_wf(*m),
                raw_wf(*preds),
                n < preds.batch,
                a < preds.anchors,
                preds.rows == 4 + m.nc + extra_rows(*m),
                m.task is Segment,
                nc == m.nc,
                nm == m.nm,
                0 <= k <= nm,
                cs.len() == k,
                forall|k2: int|
                    0 <= k2 < k ==> #[trigger] cs[k2] == raw_at(
                        *preds,
                        n as int,
                        4 + m.nc + k2,
                        a as int,
                    ),
            decreases nm - k,
        {
            let v = preds.at(n, 4 + nc + k, a);
            cs.push(v);
            k += 1;
        }
        Some(cs)
    } else {
        None
    };
    let d = Detection { bbox, keypoints, coefs };
    proof {
        assert(d.bbox == decoded_box(
            *preds,
            n as int,
            a as int,
            best_id as int,
            best_v,
            rn as int,
            rd as int,
            w0 as int,
            h0 as int,
        ));
    }
    d
}

/// Decodes every candidate of one batch slot: for each anchor, the class
/// of maximum score is picked and the anchor is kept exactly when that
/// score reaches the confidence threshold; kept anchors are rescaled
/// into original-image coordinates.
pub fn decode_slot(m: &YOLOv8, preds: &RawTensor, n: usize, w0: u32, h0: u32) -> (r: Vec<Detection>)
    requires
        yolo_wf(*m),
        raw_wf(*preds),
        raw_bounded(*preds),
        n < preds.batch,
        preds.rows == 4 + m.nc + extra_rows(*m),
        1 <= w0 <= DIM_LIMIT,
        1 <= h0 <= DIM_LIMIT,
    ensures
        decoded_candidates(
            r@,
            *preds,
            n as int,
            *m,
            crate::scale::ratio_num(w0 as int, h0 as int, m.width as int, m.height as int),
            crate::scale::ratio_den(w0 as int, h0 as int, m.width as int, m.height as int),
            w0 as int,
            h0 as int,
        ),
        crate::nms::dets_wf(r@),
{
    let (rn, rd, _nw, _nh) = crate::scale::scale_wh(
        w0 as i64,
        h0 as i64,
        m.width as i64,
        m.height as i64,
    );
    let anchors = preds.anchors;
    let mut r: Vec<Detection> = Vec::new();
    let mut a: usize = 0;
    while a < anchors
        invariant
            yolo_wf(*m),
            raw_wf(*preds),
            raw_bounded(*preds),
            n < preds.batch,
            preds.rows == 4 + m.nc + extra_rows(*m),
            1 <= w0 <= DIM_LIMIT,
            1 <= h0 <= DIM_LIMIT,
            anchors == preds.anchors,
            rn == crate::scale::ratio_num(w0 as int, h0 as int, m.width as int, m.height as int),
            rd == crate::scale::ratio_den(w0 as int, h0 as int, m.width as int, m.height as int),
            1 <= rn <= COORD_LIMIT,
            1 <= rd <= COORD_LIMIT,
            0 <= a <= anchors,
            decoded_prefix(
                r@,
                *preds,
                n as int,
                *m,
                rn as int,
                rd as int,
                w0 as int,
                h0 as int,
                0,
                a as int,
            ),
            crate::nms::dets_wf(r@),
        decreases anchors - a,
    {
        let nc = m.nc as usize;
        proof {
            lemma_raw_entry_bound(*preds, n as int, 4, a as int);
        }
        let mut best_id: usize = 0;
        let mut best_v: i64 = preds.at(n, 4, a);
        let mut j: usize = 1;
        while j < nc
            invariant
                yolo_wf(*m),
                raw_wf(*preds),
                raw_bounded(*preds),
                n < preds.batch,
                a < preds.anchors,
                preds.rows == 4 + m.nc + extra_rows(*m),
                nc == m.nc,
                1 <= j <= nc,
                (best_id as int, best_v) == best_of_prefix(*preds, n as int, a as int, j as int),
            decreases nc - j,
        {
            let v = preds.at(n, 4 + j, a);
            if v > best_v {
                best_id = j;
                best_v = v;
            }
            j += 1;
        }
        let ghost r_pre = r@;
        if best_v >= m.conf as i64 {
            let d = decode_one(m, preds, n, a, best_id, best_v, rn, rd, w0, h0);
            r.push(d);
            proof {
                lemma_decoded_push(
                    r_pre,
                    d,
                    *preds,
                    n as int,
                    *m,
                    rn as int,
                    rd as int,
                    w0 as int,
                    h0 as int,
                    0,
                    a as int,
                );
            }
        } else {
            proof {
                lemma_decoded_skip(
                    r_pre,
                    *preds,
                    n as int,
                    *m,
                    rn as int,
                    rd as int,
                    w0 as int,
                    h0 as int,
                    0,
                    a as int,
                );
            }
        }
        a += 1;
    }
    r
}

/// The box and payloads a survivor must carry for the split step.
pub open spec fn det_payload_ok(d: Detection, m: YOLOv8) -> bool {
    &&& box_wf(d.bbox)
    &&& (d.keypoints is Some <==> m.task is Pose)
    &&& (d.coefs is Some <==> m.task is Segment)
    &&& (m.task is Segment ==> d.coefs->0@.len() == m.nm && crate::mask::coefs_bounded(
        d.coefs->0@,
    ))
}

/// A result slot that carries nothing at all.
pub open spec fn slot_empty(res: crate::yolo_result::YOLOResult) -> bool {
    &&& res.probs is None
    &&& res.bboxes is None
    &&& res.keypoints is None
    &&& res.masks is None
}

/// The split of the suppression survivors `out` into the result's
/// parallel lists: boxes always, the keypoint lists for pose, the
/// decoded masks for segmentation; each list present exactly when it has
/// members.
pub open spec fn split_matches(
    res: crate::yolo_result::YOLOResult,
    out: Seq<Detection>,
    m: YOLOv8,
    proto: RawTensor,
    pw: int,
    ph: int,
    n: int,
    w0: int,
    h0: int,
) -> bool {
    &&& res.probs is None
    &&& (match res.bboxes {
        Some(bs) => out.len() > 0 && bs.len() == out.len() && forall|i: int|
            0 <= i < out.len() ==> #[trigger] bs[i] == out[i].bbox,
        None => out.len() == 0,
    })
    &&& (match res.keypoints {
        Some(ks) => m.task is Pose && out.len() > 0 && ks.len() == out.len() && forall|i: int|
            0 <= i < out.len() ==> out[i].keypoints is Some && #[trigger] ks[i]@
                == out[i].keypoints->0@,
        None => !(m.task is Pose) || out.len() == 0,
    })
    &&& (match res.masks {
        Some(msk) => m.task is Segment && out.len() > 0 && msk.len() == out.len() && forall|i: int|
            0 <= i < out.len() ==> out[i].coefs is Some && #[trigger] msk[i]@
                == crate::mask::mask_result(
                out[i].coefs->0@,
                proto,
                n,
                pw,
                ph,
                w0,
                h0,
                out[i].bbox,
            ),
        None => !(m.task is Segment) || out.len() == 0,
    })
}

/// The classification result of one slot: the raw embedding, nothing
/// else.
pub open spec fn embedding_ok(
    res: crate::yolo_result::YOLOResult,
    t: RawTensor,
    n: int,
) -> bool {
    &&& res.bboxes is None
    &&& res.keypoints is None
    &&& res.masks is None
    &&& match res.probs {
        Some(e) => e.data@.len() == t.rows * t.anchors && forall|i: int|
            0 <= i < t.rows * t.anchors ==> #[trigger] e.data@[i] == t.data[n * ((
            t.rows * t.anchors) as int) + i],
        None => false,
    }
}

/// One decoded detection slot: a faulted (zero-sized) source image
/// yields the empty result; otherwise some candidate list decoded
/// exactly from the tensor survives non-max suppression into the
/// result's lists.
pub open spec fn slot_ok(
    res: crate::yolo_result::YOLOResult,
    preds: RawTensor,
    proto: RawTensor,
    pw: int,
    ph: int,
    m: YOLOv8,
    w0: int,
    h0: int,
    n: int,
) -> bool {
    if w0 < 1 || h0 < 1 {
        slot_empty(res)
    } else {
        exists|cands: Seq<Detection>|
            #[trigger] decoded_candidates(
                cands,
                preds,
                n,
                m,
                crate::scale::ratio_num(w0, h0, m.width as int, m.height as int),
                crate::scale::ratio_den(w0, h0, m.width as int, m.height as int),
                w0,
                h0,
            ) && split_matches(res, crate::nms::nms_spec(cands, m.iou as int), m, proto, pw, ph, n, w0, h0)
    }
}

/// The output tensors have the shapes the run's task demands.
pub open spec fn shapes_ok(
    m: YOLOv8,
    xs: Seq<RawTensor>,
    pw: int,
    ph: int,
    xs0len: int,
) -> bool {
    &&& xs.len() >= 1
    &&& (!(m.task is Classify) ==> xs[0].batch == xs0len && xs[0].rows == 4 + m.nc + extra_rows(m))
    &&& (m.task is Segment ==> xs.len() >= 2 && xs[1].batch == xs[0].batch && xs[1].rows == m.nm
        && 1 <= pw && 1 <= ph && xs[1].anchors == pw * ph)
}

/// Why a cycle's raw output could not be decoded.
#[derive(Clone, Copy, Debug, PartialEq, Eq, Structural)]
pub enum PostprocessError {
    BadOutputShape,
}

impl YOLOv8 {
    /// Decodes the engine's raw output tensors into one result per batch
    /// slot.  Classification keeps each slot's embedding; the other
    /// tasks filter each anchor by confidence, rescale into the slot's
    /// original-image coordinates, suppress overlaps, and split the
    /// survivors into boxes, keypoint lists and masks.  Slots whose
    /// source image was the zero-sized fault placeholder come back
    /// empty.  `proto_w` and `proto_h` are the spatial extent of the
    /// segmentation proto tensor and are ignored for the other tasks.
    pub fn postprocess(
        &self,
        xs: Vec<RawTensor>,
        proto_w: u32,
        proto_h: u32,
        xs0: &Vec<crate::image_data::Image>,
    ) -> (r: Result<Vec<crate::yolo_result::YOLOResult>, PostprocessError>)
        requires
            yolo_wf(*self),
            forall|i: int|
                0 <= i < xs.len() ==> raw_wf(#[trigger] xs[i]) && raw_bounded(xs[i]),
            forall|i: int|
                0 <= i < xs0.len() ==> crate::image_data::image_wf(#[trigger] xs0[i]),
            proto_w <= crate::image_data::DIM_LIMIT,
            proto_h <= crate::image_data::DIM_LIMIT,
        ensures
            r is Ok <==> shapes_ok(*self, xs@, proto_w as int, proto_h as int, xs0.len() as int),
            match r {
                Ok(ys) => {
                    &&& ys.len() == xs[0].batch
                    &&& (self.task is Classify ==> forall|n: int|
                        0 <= n < ys.len() ==> embedding_ok(#[trigger] ys[n], xs[0], n))
                    &&& (!(self.task is Classify) ==> forall|n: int|
                        0 <= n < ys.len() ==> slot_ok(
                            #[trigger] ys[n],
                            xs[0],
                            xs[1],
                            proto_w as int,
                            proto_h as int,
                            *self,
                            xs0[n].width as int,
                            xs0[n].height as int,
                            n,
                        ))
                },
                Err(e) => e is BadOutputShape,
            },
    {
        if xs.len() == 0 {
            return Err(PostprocessError::BadOutputShape);
        }
        if matches!(self.task, YOLOTask::Classify) {
            let batch = xs[0].batch;
            let mut ys: Vec<crate::yolo_result::YOLOResult> = Vec::new();
            let mut n: usize = 0;
            while n < batch
                invariant
                    yolo_wf(*self),
                    xs.len() >= 1,
                    forall|i: int|
                        0 <= i < xs.len() ==> raw_wf(#[trigger] xs[i]) && raw_bounded(xs[i]),
                    batch == xs[0].batch,
                    0 <= n <= batch,
                    ys.len() == n,
                    forall|k: int| 0 <= k < n ==> embedding_ok(#[trigger] ys[k], xs[0], k),
                decreases batch - n,
            {
                proof {
                    assert(xs[0].data.len() == (xs[0].batch as int) * ((xs[0].rows as int) * (
                    xs[0].anchors as int)));
                    assert((xs[0].rows as int) * (xs[0].anchors as int) <= xs[0].data.len() && (
                    n as int) * ((xs[0].rows as int) * (xs[0].anchors as int)) + (xs[0].rows as int)
                        * (xs[0].anchors as int) <= xs[0].data.len()) by (nonlinear_arith)
                        requires
                            xs[0].data.len() == (xs[0].batch as int) * ((xs[0].rows as int) * (
                            xs[0].anchors as int)),
                            0 <= n < xs[0].batch,
                            0 <= xs[0].rows,
                            0 <= xs[0].anchors,
                    ;
                }
                let ra = xs[0].rows * xs[0].anchors;
                let base = n * ra;
                let mut data: Vec<i64> = Vec::new();
                let mut e: usize = 0;
                while e < ra
                    invariant
                        xs.len() >= 1,
                        forall|i: int|
                            0 <= i < xs.len() ==> raw_wf(#[trigger] xs[i]) && raw_bounded(xs[i]),
                        ra == xs[0].rows * xs[0].anchors,
                        base == n * ra,
                        n < xs[0].batch,
                        base + ra <= xs[0].data.len(),
                        0 <= e <= ra,
                        data.len() == e,
                        forall|k: int|
                            0 <= k < e ==> #[trigger] data[k] == xs[0].data[base + k],
                    decreases ra - e,
                {
                    let v = xs[0].data[base + e];
                    data.push(v);
                    e += 1;
                }
                let res = crate::yolo_result::YOLOResult {
                    probs: Some(crate::yolo_result::Embedding { data }),
                    bboxes: None,
                    keypoints: None,
                    masks: None,
                };
                ys.push(res);
                n += 1;
            }
            return Ok(ys);
        }
        let nc_us = self.nc as usize;
        let extra: usize = if matches!(self.task, YOLOTask::Pose) {
            3 * (self.nk as usize)
        } else if matches!(self.task, YOLOTask::Segment) {
            self.nm as usize
        } else {
            0
        };
        {
            let preds = &xs[0];
            if preds.batch != xs0.len() || preds.rows != 4 + nc_us + extra {
                return Err(PostprocessError::BadOutputShape);
            }
            if matches!(self.task, YOLOTask::Segment) {
                if xs.len() < 2 {
                    return Err(PostprocessError::BadOutputShape);
                }
                proof {
                    assert((proto_w as int) * (proto_h as int) <= crate::image_data::DIM_LIMIT
                        * crate::image_data::DIM_LIMIT) by (nonlinear_arith)
                        requires
                            0 <= proto_w <= crate::image_data::DIM_LIMIT,
                            0 <= proto_h <= crate::image_data::DIM_LIMIT,
                    ;
                }
                let proto = &xs[1];
                if proto.batch != preds.batch || proto.rows != self.nm as usize || proto_w < 1
                    || proto_h < 1 || proto.anchors != (proto_w as usize) * (proto_h as usize) {
                    return Err(PostprocessError::BadOutputShape);
                }
            }
        }
        let batch = xs[0].batch;
        let mut ys: Vec<crate::yolo_result::YOLOResult> = Vec::new();
        let mut n: usize = 0;
        while n < batch
            invariant
                yolo_wf(*self),
                !(self.task is Classify),
                xs.len() >= 1,
                forall|i: int|
                    0 <= i < xs.len() ==> raw_wf(#[trigger] xs[i]) && raw_bounded(xs[i]),
                forall|i: int|
                    0 <= i < xs0.len() ==> crate::image_data::image_wf(#[trigger] xs0[i]),
                batch == xs[0].batch,
                xs[0].batch == xs0.len(),
                xs[0].rows == 4 + self.nc + extra_rows(*self),
                self.task is Segment ==> xs.len() >= 2 && xs[1].batch == xs[0].batch
                    && xs[1].rows == self.nm && 1 <= proto_w && 1 <= proto_h && xs[1].anchors
                    == proto_w * proto_h,
                proto_w <= crate::image_data::DIM_LIMIT,
                proto_h <= crate::image_data::DIM_LIMIT,
                0 <= n <= batch,
                ys.len() == n,
                forall|k: int|
                    0 <= k < n ==> slot_ok(
                        #[trigger] ys[k],
                        xs[0],
                        xs[1],
                        proto_w as int,
                        proto_h as int,
                        *self,
                        xs0[k].width as int,
                        xs0[k].height as int,
                        k,
                    ),
            decreases batch - n,
        {
            let w0 = xs0[n].width;
            let h0 = xs0[n].height;
            let res: crate::yolo_result::YOLOResult = if w0 < 1 || h0 < 1 {
                crate::yolo_result::YOLOResult {
                    probs: None,
                    bboxes: None,
                    keypoints: None,
                    masks: None,
                }
            } else {
                self.decode_and_split(&xs, proto_w, proto_h, n, w0, h0)
            };
            ys.push(res);
            n += 1;
        }
        Ok(ys)
    }

    /// Decodes, suppresses and splits one non-classification slot with a
    /// live source image.
    fn decode_and_split(
        &self,
        xs: &Vec<RawTensor>,
        proto_w: u32,
        proto_h: u32,
        n: usize,
        w0: u32,
        h0: u32,
    ) -> (res: crate::yolo_result::YOLOResult)
        requires
            yolo_wf(*self),
            !(self.task is Classify),
            xs.len() >= 1,
            forall|i: int|
                0 <= i < xs.len() ==> raw_wf(#[trigger] xs[i]) && raw_bounded(xs[i]),
            n < xs[0].batch,
            xs[0].rows == 4 + self.nc + extra_rows(*self),
            self.task is Segment ==> xs.len() >= 2 && xs[1].batch == xs[0].batch && xs[1].rows
                == self.nm && 1 <= proto_w && 1 <= proto_h && xs[1].anchors == proto_w * proto_h,
            proto_w <= crate::image_data::DIM_LIMIT,
            proto_h <= crate::image_data::DIM_LIMIT,
            1 <= w0 <= crate::image_data::DIM_LIMIT,
            1 <= h0 <= crate::image_data::DIM_LIMIT,
        ensures
            slot_ok(
                res,
                xs[0],
                xs[1],
                proto_w as int,
                proto_h as int,
                *self,
                w0 as int,
                h0 as int,
                n as int,
            ),
    {
        let ghost rn = crate::scale::ratio_num(w0 as int, h0 as int, self.width as int,
            self.height as int);
        let ghost rd = crate::scale::ratio_den(w0 as int, h0 as int, self.width as int,
            self.height as int);
        let preds = &xs[0];
        let mut cands = decode_slot(self, preds, n, w0, h0);
        let ghost cands0 = cands@;
        crate::nms::non_max_suppression(&mut cands, self.iou);
        let ghost outseq = cands@;
        proof {
            crate::nms::lemma_nms_members(cands0, self.iou as int);
            lemma_decoded_members(
                cands0,
                xs[0],
                n as int,
                *self,
                rn,
                rd,
                w0 as int,
                h0 as int,
                0,
                xs[0].anchors as int,
            );
            assert forall|ii: int| 0 <= ii < outseq.len() implies det_payload_ok(
                #[trigger] outseq[ii],
                *self,
            ) by {
                let j = choose|j: int| 0 <= j < cands0.len() && #[trigger] outseq[ii] == cands0[j];
                assert(cand_from_range(
                    cands0[j],
                    xs[0],
                    n as int,
                    *self,
                    rn,
                    rd,
                    w0 as int,
                    h0 as int,
                    0,
                    xs[0].anchors as int,
                ));
                let a0 = choose|a0: int|
                    0 <= a0 < xs[0].anchors as int && #[trigger] cand_matches(
                        cands0[j],
                        xs[0],
                        n as int,
                        a0,
                        *self,
                        rn,
                        rd,
                        w0 as int,
                        h0 as int,
                    );
                lemma_cand_shape(
                    outseq[ii],
                    xs[0],
                    n as int,
                    a0,
                    *self,
                    rn,
                    rd,
                    w0 as int,
                    h0 as int,
                );
            }
        }
        let mut bs: Vec<Bbox> = Vec::new();
        let mut ks: Vec<Vec<Point2>> = Vec::new();
        let mut ms: Vec<Vec<u8>> = Vec::new();
        let ghost total = outseq.len();
        let ghost mut i: int = 0;
        while cands.len() > 0
            invariant
                yolo_wf(*self),
                !(self.task is Classify),
                xs.len() >= 1,
                forall|q: int|
                    0 <= q < xs.len() ==> raw_wf(#[trigger] xs[q]) && raw_bounded(xs[q]),
                n < xs[0].batch,
                self.task is Segment ==> xs.len() >= 2 && xs[1].batch == xs[0].batch
                    && xs[1].rows == self.nm && 1 <= proto_w && 1 <= proto_h && xs[1].anchors
                    == proto_w * proto_h,
                proto_w <= crate::image_data::DIM_LIMIT,
                proto_h <= crate::image_data::DIM_LIMIT,
                1 <= w0 <= crate::image_data::DIM_LIMIT,
                1 <= h0 <= crate::image_data::DIM_LIMIT,
                0 <= i <= outseq.len(),
                i + cands@.len() == outseq.len(),
                cands@ == outseq.skip(i),
                forall|ii: int|
                    0 <= ii < outseq.len() ==> det_payload_ok(#[trigger] outseq[ii], *self),
                bs.len() == i,
                forall|k2: int| 0 <= k2 < i ==> #[trigger] bs[k2] == outseq[k2].bbox,
                self.task is Pose ==> ks.len() == i && forall|k2: int|
                    0 <= k2 < i ==> outseq[k2].keypoints is Some && #[trigger] ks[k2]@
                        == outseq[k2].keypoints->0@,
                !(self.task is Pose) ==> ks.len() == 0,
                self.task is Segment ==> ms.len() == i && forall|k2: int|
                    0 <= k2 < i ==> outseq[k2].coefs is Some && #[trigger] ms[k2]@
                        == crate::mask::mask_result(
                        outseq[k2].coefs->0@,
                        xs[1],
                        n as int,
                        proto_w as int,
                        proto_h as int,
                        w0 as int,
                        h0 as int,
                        outseq[k2].bbox,
                    ),
                !(self.task is Segment) ==> ms.len() == 0,
            decreases cands@.len(),
        {
            let d = cands.remove(0);
            assert(d == outseq[i]);
            assert(det_payload_ok(d, *self));
            let Detection { bbox, keypoints, coefs } = d;
            if let Some(kp) = keypoints {
                ks.push(kp);
            }
            if let Some(cf) = coefs {
                let proto = &xs[1];
                let mask = crate::mask::decode_mask(
                    &cf,
                    proto,
                    n,
                    proto_w,
                    proto_h,
                    w0,
                    h0,
                    &bbox,
                );
                ms.push(mask);
            }
            bs.push(bbox);
            proof {
                i = i + 1;
                assert(cands@ =~= outseq.skip(i));
            }
        }
        let have_boxes = bs.len() > 0;
        let have_kpts = ks.len() > 0;
        let have_masks = ms.len() > 0;
        let res = crate::yolo_result::YOLOResult {
            probs: None,
            bboxes: if have_boxes {
                Some(bs)
            } else {
                None
            },
            keypoints: if have_kpts {
                Some(ks)
            } else {
                None
            },
            masks: if have_masks {
                Some(ms)
            } else {
                None
            },
        };
        proof {
            assert(split_matches(
                res,
                outseq,
                *self,
                xs[1],
                proto_w as int,
                proto_h as int,
                n as int,
                w0 as int,
                h0 as int,
            ));
            assert(decoded_candidates(
                cands0,
                xs[0],
                n as int,
                *self,
                rn,
                rd,
                w0 as int,
                h0 as int,
            ) && split_matches(
                res,
                crate::nms::nms_spec(cands0, self.iou as int),
                *self,
                xs[1],
                proto_w as int,
                proto_h as int,
                n as int,
                w0 as int,
                h0 as int,
            ));
        }
        res
    }
}

} // verus!
