//! Dense numeric arrays: the model input tensor (bytes, channel-first)
//! and the raw model output tensors (fixed-point integers).

use vstd::prelude::*;

verus! {

/// The model input: a batch of RGB images in channel-first layout.
/// `data[((n * 3 + c) * height + y) * width + x]` is channel `c` of pixel
/// `(x, y)` of batch element `n`.  Values are byte numerators over the
/// denominator 255: the engine boundary divides by 255 to reach `[0, 1]`.
#[derive(Debug)]
pub struct Tensor {
    pub batch: usize,
    pub height: u32,
    pub width: u32,
    pub data: Vec<u8>,
}

/// The buffer length matches the dimensions.
pub open spec fn tensor_wf(t: Tensor) -> bool {
    t.data.len() == t.batch * (3 * (t.height * t.width))
}

/// Flat index of `(n, c, y, x)` in channel-first layout.
pub open spec fn tensor_index(t: Tensor, n: int, c: int, y: int, x: int) -> int {
    ((n * 3 + c) * t.height + y) * t.width + x
}

/// Channel `c` of pixel `(x, y)` of batch element `n`.
pub open spec fn tensor_at(t: Tensor, n: int, c: int, y: int, x: int) -> u8 {
    t.data[tensor_index(t, n, c, y, x)]
}

/// A raw model output tensor of shape `(batch, rows, anchors)`, stored
/// row-major: `data[(n * rows + j) * anchors + a]`.  Values are the
/// engine's numbers brought to the crate's fixed-point scales.
#[derive(Debug)]
pub struct RawTensor {
    pub batch: usize,
    pub rows: usize,
    pub anchors: usize,
    pub data: Vec<i64>,
}

/// The buffer length matches the dimensions.
pub open spec fn raw_wf(t: RawTensor) -> bool {
    t.data.len() == t.batch * (t.rows * t.anchors)
}

/// Entry `(n, j, a)` of a raw output tensor.
pub open spec fn raw_at(t: RawTensor, n: int, j: int, a: int) -> i64 {
    t.data[(n * t.rows + j) * t.anchors + a]
}

/// Flat row-major indices of a `(batch, rows, anchors)` tensor stay in
/// bounds and decompose uniquely.
pub proof fn lemma_raw_index(b: int, r: int, an: int, n: int, j: int, a: int)
    requires
        0 <= n < b,
        0 <= j < r,
        0 <= a < an,
    ensures
        0 <= (n * r + j) * an + a < b * (r * an),
{
    assert(0 <= (n * r + j) * an + a < b * (r * an)) by (nonlinear_arith)
        requires
            0 <= n < b,
            0 <= j < r,
            0 <= a < an,
    ;
}

impl RawTensor {
    /// Builds a raw tensor from its flat contents, checking the length.
    pub fn new(batch: usize, rows: usize, anchors: usize, data: Vec<i64>) -> (r: Option<RawTensor>)
        ensures
            match r {
                Some(t) => raw_wf(t) && t.batch == batch && t.rows == rows && t.anchors == anchors
                    && t.data == data,
                None => data.len() != batch * (rows * anchors),
            },
    {
        if rows == 0 || anchors == 0 {
            proof {
                assert(batch * ((rows as int) * (anchors as int)) == 0) by (nonlinear_arith)
                    requires
                        rows == 0 || anchors == 0,
                ;
            }
            if data.len() == 0 {
                return Some(RawTensor { batch, rows, anchors, data });
            }
            return None;
        }
        if batch > usize::MAX / rows {
            proof {
                overflow_means_too_long(batch as int, rows as int, anchors as int,
                    data.len() as int);
            }
            return None;
        }
        proof {
            lemma_div_mul_le(batch as int, rows as int);
        }
        let br = batch * rows;
        if br > usize::MAX / anchors {
            proof {
                overflow_means_too_long(batch as int, rows as int, anchors as int,
                    data.len() as int);
            }
            return None;
        }
        proof {
            lemma_div_mul_le(br as int, anchors as int);
            assert((br as int) * (anchors as int) == batch * ((rows as int) * (anchors as int)))
                by (nonlinear_arith)
                requires
                    br == batch * rows,
            ;
        }
        let total = br * anchors;
        if data.len() == total {
            Some(RawTensor { batch, rows, anchors, data })
        } else {
            None
        }
    }

    /// Entry `(n, j, a)`.
    pub fn at(&self, n: usize, j: usize, a: usize) -> (r: i64)
        requires
            raw_wf(*self),
            n < self.batch,
            j < self.rows,
            a < self.anchors,
        ensures
            r == raw_at(*self, n as int, j as int, a as int),
    {
        proof {
            lemma_raw_index(
                self.batch as int,
                self.rows as int,
                self.anchors as int,
                n as int,
                j as int,
                a as int,
            );
            assert((n as int) * (self.rows as int) + j < (self.batch as int) * (self.rows as int)
                && (self.batch as int) * (self.rows as int) <= (self.batch as int) * ((
            self.rows as int) * (self.anchors as int))) by (nonlinear_arith)
                requires
                    0 <= n < self.batch,
                    0 <= j < self.rows,
                    1 <= self.anchors,
            ;
        }
        self.data[(n * self.rows + j) * self.anchors + a]
    }
}

/// Dividing then multiplying back never grows past the dividend:
/// `a <= m / b` gives `a * b <= m` for the `usize` range.
proof fn lemma_div_mul_le(a: int, b: int)
    requires
        1 <= b,
        0 <= a <= (usize::MAX as int) / b,
    ensures
        a * b <= usize::MAX,
{
    let m = usize::MAX as int;
    vstd::arithmetic::div_mod::lemma_fundamental_div_mod(m, b);
    assert(a * b <= m) by (nonlinear_arith)
        requires
            1 <= b,
            0 <= a <= m / b,
            m == b * (m / b) + m % b,
            0 <= m % b < b,
    ;
}

/// When the dimension product overflows `usize`, no `usize`-length buffer
/// can match it.
proof fn overflow_means_too_long(b: int, r: int, an: int, len: int)
    requires
        1 <= r,
        1 <= an,
        0 <= b,
        0 <= len <= usize::MAX,
        b > (usize::MAX as int) / r || b * r > (usize::MAX as int) / an,
    ensures
        len != b * (r * an),
{
    let m = usize::MAX as int;
    vstd::arithmetic::div_mod::lemma_fundamental_div_mod(m, r);
    vstd::arithmetic::div_mod::lemma_fundamental_div_mod(m, an);
    assert(len != b * (r * an)) by (nonlinear_arith)
        requires
            1 <= r,
            1 <= an,
            0 <= b,
            0 <= len <= m,
            b > m / r || b * r > m / an,
            m == r * (m / r) + m % r,
            0 <= m % r < r,
            m == an * (m / an) + m % an,
            0 <= m % an < an,
    ;
}

} // verus!
