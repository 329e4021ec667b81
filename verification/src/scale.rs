//! Letterbox scale ratios as exact rationals, rounded division, and the
//! coordinate round-trip between original-image space and model space.

use vstd::prelude::*;
use crate::COORD_LIMIT;

verus! {

/// `a / b` rounded to the nearest integer, halves away from zero
/// (the rounding of `f32::round`), for `b > 0`.
pub open spec fn spec_round_div(a: int, b: int) -> int {
    if a >= 0 {
        (2 * a + b) / (2 * b)
    } else {
        -((2 * (-a) + b) / (2 * b))
    }
}

/// The width bounds the letterbox scale: `w1 / w0 <= h1 / h0`.
pub open spec fn width_limited(w0: int, h0: int, w1: int, h1: int) -> bool {
    w1 * h0 <= h1 * w0
}

/// Numerator of the scale ratio `r = min(w1 / w0, h1 / h0)`.
pub open spec fn ratio_num(w0: int, h0: int, w1: int, h1: int) -> int {
    if width_limited(w0, h0, w1, h1) {
        w1
    } else {
        h1
    }
}

/// Denominator of the scale ratio `r = min(w1 / w0, h1 / h0)`.
pub open spec fn ratio_den(w0: int, h0: int, w1: int, h1: int) -> int {
    if width_limited(w0, h0, w1, h1) {
        w0
    } else {
        h0
    }
}

/// A dimension `d` taken from original space to model space: `round(d * r)`.
pub open spec fn upscale(d: int, rn: int, rd: int) -> int {
    spec_round_div(d * rn, rd)
}

/// A value `v` taken from model space back to original space: `round(v / r)`.
pub open spec fn descale(v: int, rn: int, rd: int) -> int {
    spec_round_div(v * rd, rn)
}

/// Width of the resized (unpadded) image region.
pub open spec fn scaled_w(w0: int, h0: int, w1: int, h1: int) -> int {
    upscale(w0, ratio_num(w0, h0, w1, h1), ratio_den(w0, h0, w1, h1))
}

/// Height of the resized (unpadded) image region.
pub open spec fn scaled_h(w0: int, h0: int, w1: int, h1: int) -> int {
    upscale(h0, ratio_num(w0, h0, w1, h1), ratio_den(w0, h0, w1, h1))
}

/// Division bounds: for `b > 0` and `0 <= a <= b * c`, the rounded
/// quotient stays in `[0, c]`.
proof fn lemma_round_div_range(a: int, b: int, c: int)
    requires
        1 <= b,
        0 <= a,
        0 <= c,
        a <= b * c,
    ensures
        0 <= spec_round_div(a, b) <= c,
{
    let q = (2 * a + b) / (2 * b);
    vstd::arithmetic::div_mod::lemma_fundamental_div_mod(2 * a + b, 2 * b);
    let r = (2 * a + b) % (2 * b);
    vstd::arithmetic::div_mod::lemma_mod_bound(2 * a + b, 2 * b);
    assert(2 * a + b == 2 * b * q + r);
    assert(0 <= q && q <= c) by (nonlinear_arith)
        requires
            1 <= b,
            0 <= a,
            0 <= c,
            a <= b * c,
            2 * a + b == 2 * b * q + r,
            0 <= r < 2 * b,
    ;
}

/// Exactness: when `b` divides `a`, rounding changes nothing.
proof fn lemma_round_div_exact(k: int, b: int)
    requires
        1 <= b,
        0 <= k,
    ensures
        spec_round_div(k * b, b) == k,
{
    let a = k * b;
    assert(0 <= a) by (nonlinear_arith)
        requires
            a == k * b,
            1 <= b,
            0 <= k,
    ;
    assert(2 * a + b == k * (2 * b) + b) by (nonlinear_arith)
        requires
            a == k * b,
    ;
    vstd::arithmetic::div_mod::lemma_fundamental_div_mod_converse(2 * a + b, 2 * b, k, b);
}

/// The rounded quotient misses the exact rational by at most half the
/// divisor: `|2 * b * spec_round_div(a, b) - 2 * a| <= b`.
proof fn lemma_round_div_close(a: int, b: int)
    requires
        1 <= b,
        0 <= a,
    ensures
        -b <= 2 * b * spec_round_div(a, b) - 2 * a <= b,
{
    let q = (2 * a + b) / (2 * b);
    vstd::arithmetic::div_mod::lemma_fundamental_div_mod(2 * a + b, 2 * b);
    vstd::arithmetic::div_mod::lemma_mod_bound(2 * a + b, 2 * b);
    let r = (2 * a + b) % (2 * b);
    assert(2 * a + b == 2 * b * q + r);
    assert(-b <= 2 * b * q - 2 * a <= b) by (nonlinear_arith)
        requires
            2 * a + b == 2 * b * q + r,
            0 <= r < 2 * b,
    ;
}

/// Rounding a quotient never grows its magnitude past the numerator's.
pub proof fn lemma_round_div_abs(a: int, b: int)
    requires
        1 <= b,
    ensures
        0 <= a ==> 0 <= spec_round_div(a, b) <= a,
        a < 0 ==> a <= spec_round_div(a, b) <= 0,
{
    if a >= 0 {
        let q = (2 * a + b) / (2 * b);
        vstd::arithmetic::div_mod::lemma_fundamental_div_mod(2 * a + b, 2 * b);
        vstd::arithmetic::div_mod::lemma_mod_bound(2 * a + b, 2 * b);
        let r = (2 * a + b) % (2 * b);
        assert(0 <= q <= a) by (nonlinear_arith)
            requires
                2 * a + b == 2 * b * q + r,
                0 <= r < 2 * b,
                1 <= b,
                0 <= a,
        ;
    } else {
        let a2 = -a;
        let q = (2 * a2 + b) / (2 * b);
        vstd::arithmetic::div_mod::lemma_fundamental_div_mod(2 * a2 + b, 2 * b);
        vstd::arithmetic::div_mod::lemma_mod_bound(2 * a2 + b, 2 * b);
        let r = (2 * a2 + b) % (2 * b);
        assert(0 <= q <= a2) by (nonlinear_arith)
            requires
                2 * a2 + b == 2 * b * q + r,
                0 <= r < 2 * b,
                1 <= b,
                0 <= a2,
        ;
    }
}

/// `a / b` rounded to nearest, halves away from zero, in executable code.
pub fn round_div(a: i64, b: i64) -> (r: i64)
    requires
        1 <= b <= 0x1000000000000000,
        -0x1000000000000000 <= a <= 0x1000000000000000,
    ensures
        r == spec_round_div(a as int, b as int),
{
    if a >= 0 {
        (2 * a + b) / (2 * b)
    } else {
        let neg = -a;
        -((2 * neg + b) / (2 * b))
    }
}

/// The letterbox scale of an image of size `(w0, h0)` into a canvas of
/// size `(w1, h1)`: the ratio `r = min(w1 / w0, h1 / h0)` as an exact
/// rational, and the size `(round(w0 * r), round(h0 * r))` of the resized
/// image region.  Returns `(rn, rd, new_w, new_h)` with `r = rn / rd`.
pub fn scale_wh(w0: i64, h0: i64, w1: i64, h1: i64) -> (r: (i64, i64, i64, i64))
    requires
        1 <= w0 <= COORD_LIMIT,
        1 <= h0 <= COORD_LIMIT,
        1 <= w1 <= COORD_LIMIT,
        1 <= h1 <= COORD_LIMIT,
    ensures
        r.0 == ratio_num(w0 as int, h0 as int, w1 as int, h1 as int),
        r.1 == ratio_den(w0 as int, h0 as int, w1 as int, h1 as int),
        r.2 == scaled_w(w0 as int, h0 as int, w1 as int, h1 as int),
        r.3 == scaled_h(w0 as int, h0 as int, w1 as int, h1 as int),
        0 <= r.2 <= w1,
        0 <= r.3 <= h1,
{
    proof {
        mul_commute_bound(w1 as int, h0 as int);
        mul_commute_bound(h1 as int, w0 as int);
    }
    let (rn, rd) = if w1 * h0 <= h1 * w0 {
        (w1, w0)
    } else {
        (h1, h0)
    };
    proof {
        mul_commute_bound(w0 as int, rn as int);
        mul_commute_bound(h0 as int, rn as int);
        if width_limited(w0 as int, h0 as int, w1 as int, h1 as int) {
            assert(w0 * rn == rd * w1) by (nonlinear_arith)
                requires
                    rn == w1,
                    rd == w0,
            ;
            lemma_round_div_range(w0 * rn, rd as int, w1 as int);
            assert(h0 * rn <= rd * h1) by (nonlinear_arith)
                requires
                    rn == w1,
                    rd == w0,
                    w1 * h0 <= h1 * w0,
            ;
            lemma_round_div_range(h0 * rn, rd as int, h1 as int);
        } else {
            assert(h0 * rn == rd * h1) by (nonlinear_arith)
                requires
                    rn == h1,
                    rd == h0,
            ;
            lemma_round_div_range(h0 * rn, rd as int, h1 as int);
            assert(w0 * rn <= rd * w1) by (nonlinear_arith)
                requires
                    rn == h1,
                    rd == h0,
                    !(w1 * h0 <= h1 * w0),
            ;
            lemma_round_div_range(w0 * rn, rd as int, w1 as int);
        }
    }
    let new_w = round_div(w0 * rn, rd);
    let new_h = round_div(h0 * rn, rd);
    (rn, rd, new_w, new_h)
}

/// Product bound for two factors in `[0, COORD_LIMIT]`.
proof fn mul_commute_bound(a: int, b: int)
    requires
        0 <= a <= COORD_LIMIT,
        0 <= b <= COORD_LIMIT,
    ensures
        0 <= a * b <= COORD_LIMIT * COORD_LIMIT,
{
    assert(0 <= a * b <= COORD_LIMIT * COORD_LIMIT) by (nonlinear_arith)
        requires
            0 <= a <= COORD_LIMIT,
            0 <= b <= COORD_LIMIT,
    ;
}

/// The dimension that limits the scale survives the round trip exactly:
/// it is taken to the full canvas extent in model space, and taken back it
/// reproduces the original dimension with no error at all.
pub proof fn lemma_limiting_dim_exact(w0: int, h0: int, w1: int, h1: int)
    requires
        1 <= w0 <= COORD_LIMIT,
        1 <= h0 <= COORD_LIMIT,
        1 <= w1 <= COORD_LIMIT,
        1 <= h1 <= COORD_LIMIT,
    ensures
        width_limited(w0, h0, w1, h1) ==> scaled_w(w0, h0, w1, h1) == w1 && descale(
            w1,
            ratio_num(w0, h0, w1, h1),
            ratio_den(w0, h0, w1, h1),
        ) == w0,
        !width_limited(w0, h0, w1, h1) ==> scaled_h(w0, h0, w1, h1) == h1 && descale(
            h1,
            ratio_num(w0, h0, w1, h1),
            ratio_den(w0, h0, w1, h1),
        ) == h0,
{
    let rn = ratio_num(w0, h0, w1, h1);
    let rd = ratio_den(w0, h0, w1, h1);
    if width_limited(w0, h0, w1, h1) {
        assert(w0 * rn == w1 * rd) by (nonlinear_arith)
            requires
                rn == w1,
                rd == w0,
        ;
        lemma_round_div_exact(w1, rd);
        assert(w1 * rd == w0 * rn) by (nonlinear_arith)
            requires
                rn == w1,
                rd == w0,
        ;
        lemma_round_div_exact(w0, rn);
    } else {
        assert(h0 * rn == h1 * rd) by (nonlinear_arith)
            requires
                rn == h1,
                rd == h0,
        ;
        lemma_round_div_exact(h1, rd);
        assert(h1 * rd == h0 * rn) by (nonlinear_arith)
            requires
                rn == h1,
                rd == h0,
        ;
        lemma_round_div_exact(h0, rn);
    }
}

/// Coordinate round trip under an enlarging letterbox scale (`r >= 1`,
/// that is, the canvas is at least as large as the image in both
/// dimensions): a dimension taken to model space and back lands within one
/// pixel of where it started.  A shrinking scale can round a non-limiting
/// dimension further afield, so it is excluded here.
pub proof fn lemma_coordinate_roundtrip(w0: int, h0: int, w1: int, h1: int)
    requires
        1 <= w0 <= COORD_LIMIT,
        1 <= h0 <= COORD_LIMIT,
        1 <= w1 <= COORD_LIMIT,
        1 <= h1 <= COORD_LIMIT,
        w0 <= w1,
        h0 <= h1,
    ensures
        ({
            let rn = ratio_num(w0, h0, w1, h1);
            let rd = ratio_den(w0, h0, w1, h1);
            let back_w = descale(scaled_w(w0, h0, w1, h1), rn, rd);
            let back_h = descale(scaled_h(w0, h0, w1, h1), rn, rd);
            &&& w0 - 1 <= back_w <= w0 + 1
            &&& h0 - 1 <= back_h <= h0 + 1
        }),
{
    let rn = ratio_num(w0, h0, w1, h1);
    let rd = ratio_den(w0, h0, w1, h1);
    assert(1 <= rd <= rn) by (nonlinear_arith)
        requires
            1 <= w0 <= w1,
            1 <= h0 <= h1,
            rn == ratio_num(w0, h0, w1, h1),
            rd == ratio_den(w0, h0, w1, h1),
            rn == if width_limited(w0, h0, w1, h1) { w1 } else { h1 },
            rd == if width_limited(w0, h0, w1, h1) { w0 } else { h0 },
    ;
    lemma_dim_roundtrip(w0, rn, rd);
    lemma_dim_roundtrip(h0, rn, rd);
}

/// One dimension's round trip under a ratio `rn / rd >= 1`.
proof fn lemma_dim_roundtrip(d: int, rn: int, rd: int)
    requires
        1 <= d,
        1 <= rd <= rn,
    ensures
        d - 1 <= descale(upscale(d, rn, rd), rn, rd) <= d + 1,
{
    let n = spec_round_div(d * rn, rd);
    assert(0 <= d * rn) by (nonlinear_arith)
        requires
            1 <= d,
            1 <= rn,
    ;
    lemma_round_div_close(d * rn, rd);
    assert(0 <= n) by (nonlinear_arith)
        requires
            -rd <= 2 * rd * n - 2 * (d * rn) <= rd,
            1 <= d,
            1 <= rd <= rn,
    ;
    let m = spec_round_div(n * rd, rn);
    assert(0 <= n * rd) by (nonlinear_arith)
        requires
            0 <= n,
            1 <= rd,
    ;
    lemma_round_div_close(n * rd, rn);
    assert(d - 1 <= m <= d + 1) by (nonlinear_arith)
        requires
            -rd <= 2 * rd * n - 2 * (d * rn) <= rd,
            -rn <= 2 * rn * m - 2 * (n * rd) <= rn,
            1 <= rd <= rn,
            1 <= d,
    ;
}

} // verus!
