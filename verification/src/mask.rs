//! Segmentation mask decoding: the coefficient-proto matrix product,
//! quantization to bytes, the crop to the valid letterbox region, the
//! resize to original-image size, and the zeroing outside the detection's
//! own bounding box.

use vstd::prelude::*;
use crate::geometry::{box_wf, Bbox};
use crate::image_data::DIM_LIMIT;
use crate::scale::{scaled_h, scaled_w, spec_round_div};
use crate::tensor::{raw_at, raw_wf, RawTensor};
use crate::COORD_LIMIT;

verus! {

/// Sum of the first `k` coefficient-times-plane products for proto
/// column `p` of batch element `n`.
pub open spec fn mask_dot(coefs: Seq<i64>, proto: RawTensor, n: int, p: int, k: int) -> int
    decreases k,
{
    if k <= 0 {
        0
    } else {
        mask_dot(coefs, proto, n, p, k - 1) + coefs[k - 1] * raw_at(proto, n, k - 1, p)
    }
}

/// Clamp an integer into the byte range.
pub open spec fn clamp_byte(v: int) -> u8 {
    if v < 0 {
        0
    } else if v > 255 {
        255
    } else {
        v as u8
    }
}

/// The quantized mask byte for proto column `p`: the full dot product,
/// brought from the fixed-point scale `scale` to `[0, 255]` by rounding,
/// then clamped.
pub open spec fn mask_byte(coefs: Seq<i64>, proto: RawTensor, n: int, p: int, scale: int) -> u8 {
    clamp_byte(spec_round_div(mask_dot(coefs, proto, n, p, coefs.len() as int) * 255, scale))
}

/// All entries of a raw tensor are within the coordinate budget.
pub open spec fn raw_bounded(t: RawTensor) -> bool {
    forall|i: int| 0 <= i < t.data.len() ==> -COORD_LIMIT <= #[trigger] t.data[i] <= COORD_LIMIT
}

/// All coefficients are within the coordinate budget.
pub open spec fn coefs_bounded(s: Seq<i64>) -> bool {
    forall|i: int| 0 <= i < s.len() ==> -COORD_LIMIT <= #[trigger] s[i] <= COORD_LIMIT
}

/// The quantized mask bytes of one batch element, one byte per proto
/// column.
pub fn mask_plane_bytes(coefs: &Vec<i64>, proto: &RawTensor, n: usize, scale: i64) -> (r: Vec<u8>)
    requires
        raw_wf(*proto),
        raw_bounded(*proto),
        coefs_bounded(coefs@),
        coefs.len() == proto.rows,
        proto.rows <= 4096,
        n < proto.batch,
        1 <= scale <= COORD_LIMIT * COORD_LIMIT,
    ensures
        r.len() == proto.anchors,
        forall|p: int|
            0 <= p < proto.anchors ==> #[trigger] r[p] == mask_byte(
                coefs@,
                *proto,
                n as int,
                p,
                scale as int,
            ),
{
    let cols = proto.anchors;
    let mut r: Vec<u8> = Vec::new();
    let mut p: usize = 0;
    while p < cols
        invariant
            raw_wf(*proto),
            raw_bounded(*proto),
            coefs_bounded(coefs@),
            coefs.len() == proto.rows,
            proto.rows <= 4096,
            n < proto.batch,
            1 <= scale <= COORD_LIMIT * COORD_LIMIT,
            cols == proto.anchors,
            0 <= p <= cols,
            r.len() == p,
            forall|q: int|
                0 <= q < p ==> #[trigger] r[q] == mask_byte(coefs@, *proto, n as int, q, scale as int),
        decreases cols - p,
    {
        let k_total = coefs.len();
        let mut sum: i64 = 0;
        let mut k: usize = 0;
        while k < k_total
            invariant
                raw_wf(*proto),
                raw_bounded(*proto),
                coefs_bounded(coefs@),
                coefs.len() == proto.rows,
                k_total == coefs.len(),
                proto.rows <= 4096,
                n < proto.batch,
                0 <= p < proto.anchors,
                0 <= k <= k_total,
                sum == mask_dot(coefs@, *proto, n as int, p as int, k as int),
                -((k as int) * (COORD_LIMIT * COORD_LIMIT)) <= sum <= (k as int) * (COORD_LIMIT
                    * COORD_LIMIT),
            decreases k_total - k,
        {
            proof {
                crate::tensor::lemma_raw_index(
                    proto.batch as int,
                    proto.rows as int,
                    proto.anchors as int,
                    n as int,
                    k as int,
                    p as int,
                );
                assert((n as int) * (proto.rows as int) + k < (proto.batch as int) * (
                proto.rows as int) && (proto.batch as int) * (proto.rows as int) <= (
                proto.batch as int) * ((proto.rows as int) * (proto.anchors as int)))
                    by (nonlinear_arith)
                    requires
                        0 <= n < proto.batch,
                        0 <= k < proto.rows,
                        1 <= proto.anchors,
                ;
            }
            let plane_v = proto.data[(n * proto.rows + k) * proto.anchors + p];
            let coef_v = coefs[k];
            proof {
                assert(-(COORD_LIMIT * COORD_LIMIT) <= (coef_v as int) * (plane_v as int)
                    <= COORD_LIMIT * COORD_LIMIT) by (nonlinear_arith)
                    requires
                        -COORD_LIMIT <= coef_v <= COORD_LIMIT,
                        -COORD_LIMIT <= plane_v <= COORD_LIMIT,
                ;
                assert(((k + 1) as int) * (COORD_LIMIT * COORD_LIMIT) == (k as int) * (COORD_LIMIT
                    * COORD_LIMIT) + COORD_LIMIT * COORD_LIMIT) by (nonlinear_arith);
                assert((k as int) * (COORD_LIMIT * COORD_LIMIT) <= 4096 * (COORD_LIMIT
                    * COORD_LIMIT)) by (nonlinear_arith)
                    requires
                        0 <= k <= 4096,
                ;
            }
            sum = sum + coef_v * plane_v;
            k += 1;
        }
        proof {
            assert((k_total as int) * (COORD_LIMIT * COORD_LIMIT) <= 4096 * (COORD_LIMIT
                * COORD_LIMIT)) by (nonlinear_arith)
                requires
                    0 <= k_total <= 4096,
            ;
        }
        let scaled = crate::scale::round_div(sum * 255, scale);
        let b: u8 = if scaled < 0 {
            0
        } else if scaled > 255 {
            255
        } else {
            scaled as u8
        };
        r.push(b);
        p += 1;
    }
    r
}

/// What `image::imageops::resize` returns on a single-channel (gray)
/// buffer of size `w0` by `h0` resampled to `w1` by `h1` with the
/// Catmull-Rom filter when `sharp` holds and Triangle otherwise; a
/// function of these arguments alone.
pub uninterp spec fn resized_luma_of(
    src: Seq<u8>,
    w0: int,
    h0: int,
    w1: int,
    h1: int,
    sharp: bool,
) -> Seq<u8>;

/// Relies on `image::imageops::resize` over a `GrayImage`: it returns a
/// `w1` by `h1` buffer whose contents depend only on the source bytes,
/// the sizes and the filter.
#[verifier::external_body]
fn resize_luma(src: &Vec<u8>, w0: u32, h0: u32, w1: u32, h1: u32, sharp: bool) -> (r: Vec<u8>)
    requires
        src.len() == w0 * h0,
        1 <= w0 <= DIM_LIMIT,
        1 <= h0 <= DIM_LIMIT,
        1 <= w1 <= DIM_LIMIT,
        1 <= h1 <= DIM_LIMIT,
    ensures
        r.len() == w1 * h1,
        r@ == resized_luma_of(src@, w0 as int, h0 as int, w1 as int, h1 as int, sharp),
{
    let buf = image::GrayImage::from_raw(w0, h0, src.clone())
        .expect("buffer length matches dimensions");
    let filter = if sharp {
        image::imageops::FilterType::CatmullRom
    } else {
        image::imageops::FilterType::Triangle
    };
    image::imageops::resize(&buf, w1, h1, filter).into_raw()
}

/// The cropped quantized mask: row `y` of the crop is the first `cw`
/// bytes of row `y` of the `mw`-wide mask plane.
pub open spec fn cropped_mask_at(
    coefs: Seq<i64>,
    proto: RawTensor,
    n: int,
    mw: int,
    scale: int,
    cw: int,
    i: int,
) -> u8 {
    mask_byte(coefs, proto, n, (i / cw) * mw + i % cw, scale)
}

/// Crops the top-left `cw` by `ch` region out of a `mw`-wide plane.
pub fn crop_plane(plane: &Vec<u8>, mw: u32, mh: u32, cw: u32, ch: u32) -> (r: Vec<u8>)
    requires
        plane.len() == mw * mh,
        1 <= cw <= mw <= DIM_LIMIT,
        1 <= ch <= mh <= DIM_LIMIT,
    ensures
        r.len() == cw * ch,
        forall|i: int|
            0 <= i < r.len() ==> #[trigger] r[i] == plane[(i / (cw as int)) * mw + i % (cw as int)],
        forall|y: int, x: int|
            0 <= y < ch && 0 <= x < cw ==> #[trigger] r[y * cw + x] == plane[y * mw + x],
{
    let mut r: Vec<u8> = Vec::new();
    let mut y: usize = 0;
    let cwu = cw as usize;
    let chu = ch as usize;
    let mwu = mw as usize;
    while y < chu
        invariant
            plane.len() == mw * mh,
            1 <= cw <= mw <= DIM_LIMIT,
            1 <= ch <= mh <= DIM_LIMIT,
            cwu == cw,
            chu == ch,
            mwu == mw,
            0 <= y <= chu,
            r.len() == y * cwu,
            forall|i: int|
                0 <= i < r.len() ==> #[trigger] r[i] == plane[(i / (cw as int)) * mw + i % (
                cw as int)],
        decreases chu - y,
    {
        let mut x: usize = 0;
        while x < cwu
            invariant
                plane.len() == mw * mh,
                1 <= cw <= mw <= DIM_LIMIT,
                1 <= ch <= mh <= DIM_LIMIT,
                cwu == cw,
                chu == ch,
                mwu == mw,
                0 <= y < chu,
                0 <= x <= cwu,
                r.len() == y * cwu + x,
                forall|i: int|
                    0 <= i < r.len() ==> #[trigger] r[i] == plane[(i / (cw as int)) * mw + i % (
                    cw as int)],
            decreases cwu - x,
        {
            proof {
                crate::image_data::lemma_rm_index(mwu as int, mh as int, x as int, y as int);
                lemma_2d_decomp(cwu as int, x as int, y as int);
                assert((y as int) * mwu + x < plane.len());
            }
            let b = plane[y * mwu + x];
            r.push(b);
            x += 1;
        }
        proof {
            assert(((y + 1) as int) * (cwu as int) == (y as int) * (cwu as int) + cwu)
                by (nonlinear_arith);
        }
        y += 1;
    }
    proof {
        assert((chu as int) * (cwu as int) == (cw as int) * (ch as int)) by (nonlinear_arith)
            requires
                chu == ch,
                cwu == cw,
        ;
        assert forall|yy: int, xx: int| 0 <= yy < ch && 0 <= xx < cw implies #[trigger] r[yy * cw
            + xx] == plane[yy * mw + xx] by {
            lemma_2d_decomp(cw as int, xx, yy);
            crate::image_data::lemma_rm_index(cw as int, ch as int, xx, yy);
        }
    }
    r
}

/// Decomposing the flat index `y * w + x` recovers `x` and `y`.
proof fn lemma_2d_decomp(w: int, x: int, y: int)
    requires
        1 <= w,
        0 <= x < w,
        0 <= y,
    ensures
        (y * w + x) / w == y,
        (y * w + x) % w == x,
{
    assert(0 <= y * w + x) by (nonlinear_arith)
        requires
            0 <= y,
            0 <= x,
            1 <= w,
    ;
    vstd::arithmetic::div_mod::lemma_fundamental_div_mod_converse(y * w + x, w, y, x);
}

/// The final mask byte at `(x, y)`: the resized mask value inside the
/// detection's own bounding box, zero outside it.
pub open spec fn masked_at(resized: Seq<u8>, w0: int, b: Bbox, x: int, y: int) -> u8 {
    if b.x <= x <= b.x + b.w && b.y <= y <= b.y + b.h {
        resized[y * w0 + x]
    } else {
        0
    }
}

/// Zeroes every pixel outside the detection's bounding box; the mask is
/// box-local, not global.
pub fn zero_outside_box(resized: &Vec<u8>, w0: u32, h0: u32, b: &Bbox) -> (r: Vec<u8>)
    requires
        resized.len() == w0 * h0,
        1 <= w0 <= DIM_LIMIT,
        h0 <= DIM_LIMIT,
        box_wf(*b),
    ensures
        r.len() == w0 * h0,
        forall|y: int, x: int|
            0 <= y < h0 && 0 <= x < w0 ==> #[trigger] r[y * w0 + x] == masked_at(
                resized@,
                w0 as int,
                *b,
                x,
                y,
            ),
{
    let w = w0 as usize;
    let h = h0 as usize;
    let mut r: Vec<u8> = Vec::new();
    let mut y: usize = 0;
    while y < h
        invariant
            resized.len() == w0 * h0,
            w == w0,
            h == h0,
            1 <= w0 <= DIM_LIMIT,
            h0 <= DIM_LIMIT,
            box_wf(*b),
            0 <= y <= h,
            r.len() == y * w,
            forall|i: int|
                0 <= i < r.len() ==> #[trigger] r[i] == masked_at(
                    resized@,
                    w0 as int,
                    *b,
                    i % (w0 as int),
                    i / (w0 as int),
                ),
        decreases h - y,
    {
        let mut x: usize = 0;
        while x < w
            invariant
                resized.len() == w0 * h0,
                w == w0,
                h == h0,
                1 <= w0 <= DIM_LIMIT,
                h0 <= DIM_LIMIT,
                box_wf(*b),
                0 <= y < h,
                0 <= x <= w,
                r.len() == y * w + x,
                forall|i: int|
                    0 <= i < r.len() ==> #[trigger] r[i] == masked_at(
                        resized@,
                        w0 as int,
                        *b,
                        i % (w0 as int),
                        i / (w0 as int),
                    ),
            decreases w - x,
        {
            proof {
                crate::image_data::lemma_rm_index(w as int, h as int, x as int, y as int);
                lemma_2d_decomp(w as int, x as int, y as int);
            }
            let inside = b.x <= x as i64 && x as i64 <= b.x + b.w && b.y <= y as i64 && (y as i64)
                <= b.y + b.h;
            let v = if inside {
                resized[y * w + x]
            } else {
                0
            };
            r.push(v);
            x += 1;
        }
        proof {
            assert(((y + 1) as int) * (w as int) == (y as int) * (w as int) + w)
                by (nonlinear_arith);
        }
        y += 1;
    }
    proof {
        assert((h as int) * (w as int) == (w0 as int) * (h0 as int)) by (nonlinear_arith)
            requires
                w == w0,
                h == h0,
        ;
        assert forall|yy: int, xx: int| 0 <= yy < h0 && 0 <= xx < w0 implies #[trigger] r[yy * w0
            + xx] == masked_at(resized@, w0 as int, *b, xx, yy) by {
            lemma_2d_decomp(w0 as int, xx, yy);
            crate::image_data::lemma_rm_index(w0 as int, h0 as int, xx, yy);
        }
    }
    r
}

/// Fixed-point scale of a coefficient-times-proto product: coefficients
/// and proto values carry the confidence scale, so their products carry
/// its square.
pub const MASK_SCALE: i64 = 100000000;

/// A flat index under `w`-wide rows decomposes into a valid row and
/// column.
pub proof fn lemma_flat_bounds(w: int, h: int, i: int)
    requires
        1 <= w,
        0 <= i < w * h,
    ensures
        0 <= i / w < h,
        0 <= i % w < w,
        (i / w) * w + i % w == i,
    decreases 0int,
{
    vstd::arithmetic::div_mod::lemma_fundamental_div_mod(i, w);
    vstd::arithmetic::div_mod::lemma_mod_bound(i, w);
    assert(0 <= i / w < h) by (nonlinear_arith)
        requires
            i == w * (i / w) + i % w,
            0 <= i % w < w,
            0 <= i < w * h,
            1 <= w,
    ;
    assert((i / w) * w + i % w == i) by (nonlinear_arith)
        requires
            i == w * (i / w) + i % w,
    ;
}

/// The fully decoded mask of one detection, flattened row-major over the
/// original image: the quantized coefficient-proto product, cropped to
/// the valid letterbox region, resampled to the original size, and
/// zeroed outside the detection's own box.  An empty crop region leaves
/// an all-zero mask.
pub open spec fn mask_result(
    coefs: Seq<i64>,
    proto: RawTensor,
    n: int,
    pw: int,
    ph: int,
    w0: int,
    h0: int,
    b: Bbox,
) -> Seq<u8> {
    let cw = scaled_w(w0, h0, pw, ph);
    let ch = scaled_h(w0, h0, pw, ph);
    if cw < 1 || ch < 1 {
        Seq::new((w0 * h0) as nat, |i: int| 0u8)
    } else {
        let cropped = Seq::new(
            (cw * ch) as nat,
            |i: int| cropped_mask_at(coefs, proto, n, pw, MASK_SCALE as int, cw, i),
        );
        let resized = resized_luma_of(cropped, cw, ch, w0, h0, true);
        Seq::new((w0 * h0) as nat, |i: int| masked_at(resized, w0, b, i % w0, i / w0))
    }
}

/// An all-zero byte plane.
fn zero_plane(w0: u32, h0: u32) -> (r: Vec<u8>)
    requires
        w0 <= DIM_LIMIT,
        h0 <= DIM_LIMIT,
    ensures
        r.len() == w0 * h0,
        forall|i: int| 0 <= i < r.len() ==> r[i] == 0u8,
{
    proof {
        assert((w0 as int) * (h0 as int) <= DIM_LIMIT * DIM_LIMIT) by (nonlinear_arith)
            requires
                0 <= w0 <= DIM_LIMIT,
                0 <= h0 <= DIM_LIMIT,
        ;
    }
    let total: usize = (w0 as usize) * (h0 as usize);
    let mut r: Vec<u8> = Vec::new();
    let mut i: usize = 0;
    while i < total
        invariant
            0 <= i <= total,
            r.len() == i,
            forall|j: int| 0 <= j < i ==> r[j] == 0u8,
        decreases total - i,
    {
        r.push(0);
        i += 1;
    }
    r
}

/// Decodes the mask of one kept detection: multiply its coefficient
/// vector into the proto planes, quantize, crop to the valid (unpadded)
/// region given by the letterbox ratio, resize to the original image
/// size with the sharp filter, and zero everything outside the
/// detection's bounding box.
pub fn decode_mask(
    coefs: &Vec<i64>,
    proto: &RawTensor,
    n: usize,
    pw: u32,
    ph: u32,
    w0: u32,
    h0: u32,
    b: &Bbox,
) -> (r: Vec<u8>)
    requires
        raw_wf(*proto),
        raw_bounded(*proto),
        coefs_bounded(coefs@),
        coefs.len() == proto.rows,
        proto.rows <= 4096,
        n < proto.batch,
        proto.anchors == pw * ph,
        1 <= pw <= DIM_LIMIT,
        1 <= ph <= DIM_LIMIT,
        1 <= w0 <= DIM_LIMIT,
        1 <= h0 <= DIM_LIMIT,
        box_wf(*b),
    ensures
        r.len() == w0 * h0,
        r@ == mask_result(coefs@, *proto, n as int, pw as int, ph as int, w0 as int, h0 as int, *b),
{
    let (_rn, _rd, cw64, ch64) = crate::scale::scale_wh(w0 as i64, h0 as i64, pw as i64, ph as i64);
    if cw64 < 1 || ch64 < 1 {
        let r = zero_plane(w0, h0);
        proof {
            assert(r@ =~= mask_result(
                coefs@,
                *proto,
                n as int,
                pw as int,
                ph as int,
                w0 as int,
                h0 as int,
                *b,
            ));
        }
        return r;
    }
    let cw = cw64 as u32;
    let ch = ch64 as u32;
    let plane = mask_plane_bytes(coefs, proto, n, MASK_SCALE);
    let cropped = crop_plane(&plane, pw, ph, cw, ch);
    let ghost cropped_spec = Seq::new(
        ((cw64 as int) * (ch64 as int)) as nat,
        |i: int| cropped_mask_at(coefs@, *proto, n as int, pw as int, MASK_SCALE as int,
            cw64 as int, i),
    );
    proof {
        assert forall|i: int| 0 <= i < cropped.len() implies #[trigger] cropped[i]
            == cropped_spec[i] by {
            lemma_flat_bounds(cw as int, ch as int, i);
            assert(0 <= (i / (cw as int)) * (pw as int) + i % (cw as int) < (pw as int) * (
            ph as int)) by (nonlinear_arith)
                requires
                    0 <= i / (cw as int) < ch,
                    0 <= i % (cw as int) < cw,
                    cw <= pw,
                    ch <= ph,
                    1 <= pw,
                    1 <= ph,
            ;
        }
        assert(cropped@ =~= cropped_spec);
    }
    let resized = resize_luma(&cropped, cw, ch, w0, h0, true);
    let r = zero_outside_box(&resized, w0, h0, b);
    proof {
        let fin = mask_result(
            coefs@,
            *proto,
            n as int,
            pw as int,
            ph as int,
            w0 as int,
            h0 as int,
            *b,
        );
        assert forall|i: int| 0 <= i < r.len() implies #[trigger] r@[i] == fin[i] by {
            lemma_flat_bounds(w0 as int, h0 as int, i);
            assert(r@[(i / (w0 as int)) * (w0 as int) + i % (w0 as int)] == masked_at(
                resized@,
                w0 as int,
                *b,
                i % (w0 as int),
                i / (w0 as int),
            ));
        }
        assert(r@ =~= fin);
    }
    r
}

} // verus!
