//! The batch preprocessor: aspect-preserving resize, letterbox padding
//! anchored at the origin, and assembly of the channel-first input tensor.

use vstd::prelude::*;
use crate::image_data::{image_wf, padded_pixel, pixel, Image, DIM_LIMIT};
use crate::scale::{scale_wh, scaled_h, scaled_w};
use crate::tensor::{tensor_at, tensor_index, tensor_wf, Tensor};
use crate::YOLOTask;

verus! {

/// Fill byte of the letterbox padding (the mid-gray 144 of 255).
pub const PAD_FILL: u8 = 144;

/// What `image::imageops::resize` returns: the raw RGB bytes of `src`
/// (of size `w0` by `h0`) resampled to `w1` by `h1`, with the sharper
/// Catmull-Rom filter when `sharp` holds and the Triangle filter
/// otherwise.  The result is a function of these arguments alone.
pub uninterp spec fn resized_rgb_of(
    src: Seq<u8>,
    w0: int,
    h0: int,
    w1: int,
    h1: int,
    sharp: bool,
) -> Seq<u8>;

/// Relies on `image::imageops::resize` (through
/// `DynamicImage::resize_exact`): it returns a `w1` by `h1` buffer whose
/// contents depend only on the source pixels, the sizes and the filter.
#[verifier::external_body]
fn resize_rgb(img: &Image, w1: u32, h1: u32, sharp: bool) -> (r: Image)
    requires
        image_wf(*img),
        1 <= img.width,
        1 <= img.height,
        1 <= w1 <= DIM_LIMIT,
        1 <= h1 <= DIM_LIMIT,
    ensures
        r.width == w1,
        r.height == h1,
        image_wf(r),
        r.data@ == resized_rgb_of(
            img.data@,
            img.width as int,
            img.height as int,
            w1 as int,
            h1 as int,
            sharp,
        ),
{
    let buf = image::RgbImage::from_raw(img.width, img.height, img.data.clone())
        .expect("buffer length matches dimensions");
    let filter = if sharp {
        image::imageops::FilterType::CatmullRom
    } else {
        image::imageops::FilterType::Triangle
    };
    let out = image::imageops::resize(&buf, w1, h1, filter);
    Image { width: w1, height: h1, data: out.into_raw() }
}

/// Width of the resized (unpadded) region that slot image `x` occupies in
/// the model canvas.
pub open spec fn region_w(x: Image, w1: int, h1: int, task: YOLOTask) -> int {
    if x.width == 0 || x.height == 0 {
        0
    } else if task is Classify {
        w1
    } else {
        let nw = scaled_w(x.width as int, x.height as int, w1, h1);
        let nh = scaled_h(x.width as int, x.height as int, w1, h1);
        if nw == 0 || nh == 0 {
            0
        } else {
            nw
        }
    }
}

/// Height of the resized (unpadded) region that slot image `x` occupies
/// in the model canvas.
pub open spec fn region_h(x: Image, w1: int, h1: int, task: YOLOTask) -> int {
    if x.width == 0 || x.height == 0 {
        0
    } else if task is Classify {
        h1
    } else {
        let nw = scaled_w(x.width as int, x.height as int, w1, h1);
        let nh = scaled_h(x.width as int, x.height as int, w1, h1);
        if nw == 0 || nh == 0 {
            0
        } else {
            nh
        }
    }
}

/// The bytes of the resized region: the classification task resizes to
/// the full canvas without preserving aspect; the others resize by the
/// letterbox ratio, skipping the resampler when the size is unchanged.
pub open spec fn region_data(x: Image, w1: int, h1: int, task: YOLOTask) -> Seq<u8> {
    if task is Classify {
        resized_rgb_of(x.data@, x.width as int, x.height as int, w1, h1, false)
    } else {
        let nw = scaled_w(x.width as int, x.height as int, w1, h1);
        let nh = scaled_h(x.width as int, x.height as int, w1, h1);
        if nw == x.width && nh == x.height {
            x.data@
        } else {
            resized_rgb_of(x.data@, x.width as int, x.height as int, nw, nh, task is Segment)
        }
    }
}

/// The letterboxed canvas byte for slot image `x` at canvas pixel
/// `(xx, yy)`, channel `c`: the resized region anchored at the origin,
/// the constant fill everywhere else.
pub open spec fn letterboxed_at(
    x: Image,
    w1: int,
    h1: int,
    task: YOLOTask,
    xx: int,
    yy: int,
    c: int,
) -> u8 {
    let rw = region_w(x, w1, h1, task);
    let rh = region_h(x, w1, h1, task);
    if xx < rw && yy < rh {
        region_data(x, w1, h1, task)[3 * (yy * rw + xx) + c]
    } else {
        PAD_FILL
    }
}

/// The resized (not yet padded) image for one slot, matching the
/// `region_*` functions.
fn scale_slot(x: &Image, width: u32, height: u32, task: YOLOTask) -> (r: Image)
    requires
        image_wf(*x),
        1 <= width <= DIM_LIMIT,
        1 <= height <= DIM_LIMIT,
    ensures
        image_wf(r),
        r.width == region_w(*x, width as int, height as int, task),
        r.height == region_h(*x, width as int, height as int, task),
        r.width > 0 && r.height > 0 ==> r.data@ == region_data(*x, width as int, height as int, task),
        r.width <= width,
        r.height <= height,
    {
    if x.width == 0 || x.height == 0 {
        Image::placeholder()
    } else if matches!(task, YOLOTask::Classify) {
        resize_rgb(x, width, height, false)
    } else {
        let (_rn, _rd, nw, nh) = scale_wh(x.width as i64, x.height as i64, width as i64,
            height as i64);
        if nw == 0 || nh == 0 {
            Image::placeholder()
        } else if nw as u32 == x.width && nh as u32 == x.height {
            crate::image_data::copy_image(x)
        } else {
            resize_rgb(x, nw as u32, nh as u32, matches!(task, YOLOTask::Segment))
        }
    }
}

/// Flat index of `(n, c, y, x)` in a channel-first `(batch, 3, h1, w1)`
/// layout, decomposed back by division and remainder.
pub open spec fn tensor_flat_expected(
    imgs: Seq<Image>,
    w1: int,
    h1: int,
    task: YOLOTask,
    i: int,
) -> u8 {
    let chw = 3 * (h1 * w1);
    let n = i / chw;
    let rem = i % chw;
    let c = rem / (h1 * w1);
    let rem2 = rem % (h1 * w1);
    let y = rem2 / w1;
    let x = rem2 % w1;
    letterboxed_at(imgs[n], w1, h1, task, x, y, c)
}

/// Decomposing the flat channel-first index recovers `(n, c, y, x)`.
proof fn lemma_tensor_flat_decomp(w1: int, h1: int, n: int, c: int, y: int, x: int)
    requires
        1 <= w1,
        1 <= h1,
        0 <= n,
        0 <= c < 3,
        0 <= y < h1,
        0 <= x < w1,
    ensures
        ({
            let flat = ((n * 3 + c) * h1 + y) * w1 + x;
            let chw = 3 * (h1 * w1);
            &&& flat / chw == n
            &&& flat % chw == c * (h1 * w1) + y * w1 + x
            &&& (c * (h1 * w1) + y * w1 + x) / (h1 * w1) == c
            &&& (c * (h1 * w1) + y * w1 + x) % (h1 * w1) == y * w1 + x
            &&& (y * w1 + x) / w1 == y
            &&& (y * w1 + x) % w1 == x
        }),
{
    let flat = ((n * 3 + c) * h1 + y) * w1 + x;
    let chw = 3 * (h1 * w1);
    let hw = h1 * w1;
    let rem = c * hw + y * w1 + x;
    assert(flat == n * chw + rem && 0 <= rem < chw && 0 <= y * w1 + x < hw) by (nonlinear_arith)
        requires
            flat == ((n * 3 + c) * h1 + y) * w1 + x,
            chw == 3 * (h1 * w1),
            hw == h1 * w1,
            rem == c * hw + y * w1 + x,
            1 <= w1,
            1 <= h1,
            0 <= n,
            0 <= c < 3,
            0 <= y < h1,
            0 <= x < w1,
    ;
    vstd::arithmetic::div_mod::lemma_fundamental_div_mod_converse(flat, chw, n, rem);
    vstd::arithmetic::div_mod::lemma_fundamental_div_mod_converse(rem, hw, c, y * w1 + x);
    vstd::arithmetic::div_mod::lemma_fundamental_div_mod_converse(y * w1 + x, w1, y, x);
}

/// The batch preprocessor: each slot image is resized by the letterbox
/// rule for the task, padded into a `(width, height)` canvas with the
/// constant fill anchored at the origin, and written in channel-first
/// order at its own batch index.
pub fn preprocess(imgs: &Vec<Image>, width: u32, height: u32, task: YOLOTask) -> (r: Tensor)
    requires
        forall|i: int| 0 <= i < imgs.len() ==> image_wf(#[trigger] imgs[i]),
        1 <= width <= DIM_LIMIT,
        1 <= height <= DIM_LIMIT,
        imgs.len() * (3 * ((height as int) * (width as int))) <= usize::MAX,
    ensures
        tensor_wf(r),
        r.batch == imgs.len(),
        r.width == width,
        r.height == height,
        forall|n: int, c: int, y: int, x: int|
            0 <= n < imgs.len() && 0 <= c < 3 && 0 <= y < height && 0 <= x < width
                ==> #[trigger] tensor_at(r, n, c, y, x) == letterboxed_at(
                imgs[n],
                width as int,
                height as int,
                task,
                x,
                y,
                c,
            ),
{
    let w1 = width as usize;
    let h1 = height as usize;
    proof {
        assert((h1 as int) * (w1 as int) <= DIM_LIMIT * DIM_LIMIT) by (nonlinear_arith)
            requires
                0 <= h1 <= DIM_LIMIT,
                0 <= w1 <= DIM_LIMIT,
        ;
    }
    let chw: usize = 3 * (h1 * w1);
    let count = imgs.len();
    let mut data: Vec<u8> = Vec::new();
    let mut n: usize = 0;
    while n < count
        invariant
            forall|i: int| 0 <= i < imgs.len() ==> image_wf(#[trigger] imgs[i]),
            1 <= width <= DIM_LIMIT,
            1 <= height <= DIM_LIMIT,
            w1 == width,
            h1 == height,
            chw == 3 * ((h1 as int) * (w1 as int)),
            count == imgs.len(),
            imgs.len() * (3 * ((height as int) * (width as int))) <= usize::MAX,
            0 <= n <= count,
            data.len() == n * chw,
            forall|i: int|
                0 <= i < data.len() ==> #[trigger] data[i] == tensor_flat_expected(
                    imgs@,
                    width as int,
                    height as int,
                    task,
                    i,
                ),
        decreases count - n,
    {
        proof {
            assert((n + 1) * chw <= count * chw && n * chw + chw == (n + 1) * chw)
                by (nonlinear_arith)
                requires
                    0 <= n < count,
                    0 <= chw,
            ;
        }
        let scaled = scale_slot(&imgs[n], width, height, task);
        let ghost scaled_snap = scaled;
        let padded = crate::image_data::pad_to_size(scaled, height, width, PAD_FILL);
        proof {
            assert forall|xx: int, yy: int, cc: int|
                0 <= xx < width && 0 <= yy < height && 0 <= cc < 3 implies #[trigger] pixel(
                padded,
                xx,
                yy,
                cc,
            ) == letterboxed_at(imgs[n as int], width as int, height as int, task, xx, yy, cc) by {
                assert(pixel(padded, xx, yy, cc) == padded_pixel(scaled_snap, PAD_FILL, xx, yy, cc));
            }
        }
        let mut c: usize = 0;
        while c < 3
            invariant
                forall|i: int| 0 <= i < imgs.len() ==> image_wf(#[trigger] imgs[i]),
                1 <= width <= DIM_LIMIT,
                1 <= height <= DIM_LIMIT,
                w1 == width,
                h1 == height,
                chw == 3 * ((h1 as int) * (w1 as int)),
                count == imgs.len(),
                0 <= n < count,
                0 <= c <= 3,
                n * chw + chw <= count * chw,
                count * chw <= usize::MAX,
                data.len() == n * chw + c * (h1 * w1),
                image_wf(padded),
                padded.width == width,
                padded.height == height,
                forall|xx: int, yy: int, cc: int|
                    0 <= xx < width && 0 <= yy < height && 0 <= cc < 3 ==> #[trigger] pixel(
                        padded,
                        xx,
                        yy,
                        cc,
                    ) == letterboxed_at(
                        imgs[n as int],
                        width as int,
                        height as int,
                        task,
                        xx,
                        yy,
                        cc,
                    ),
                forall|i: int|
                    0 <= i < data.len() ==> #[trigger] data[i] == tensor_flat_expected(
                        imgs@,
                        width as int,
                        height as int,
                        task,
                        i,
                    ),
            decreases 3 - c,
        {
            let mut y: usize = 0;
            while y < h1
                invariant
                    forall|i: int| 0 <= i < imgs.len() ==> image_wf(#[trigger] imgs[i]),
                    1 <= width <= DIM_LIMIT,
                    1 <= height <= DIM_LIMIT,
                    w1 == width,
                    h1 == height,
                    chw == 3 * ((h1 as int) * (w1 as int)),
                    count == imgs.len(),
                    0 <= n < count,
                    0 <= c < 3,
                    0 <= y <= h1,
                    n * chw + chw <= count * chw,
                    count * chw <= usize::MAX,
                    data.len() == n * chw + c * (h1 * w1) + y * w1,
                    image_wf(padded),
                    padded.width == width,
                    padded.height == height,
                    forall|xx: int, yy: int, cc: int|
                        0 <= xx < width && 0 <= yy < height && 0 <= cc < 3 ==> #[trigger] pixel(
                            padded,
                            xx,
                            yy,
                            cc,
                        ) == letterboxed_at(
                            imgs[n as int],
                            width as int,
                            height as int,
                            task,
                            xx,
                            yy,
                            cc,
                        ),
                    forall|i: int|
                        0 <= i < data.len() ==> #[trigger] data[i] == tensor_flat_expected(
                            imgs@,
                            width as int,
                            height as int,
                            task,
                            i,
                        ),
                decreases h1 - y,
            {
                let mut x: usize = 0;
                while x < w1
                    invariant
                        forall|i: int| 0 <= i < imgs.len() ==> image_wf(#[trigger] imgs[i]),
                        1 <= width <= DIM_LIMIT,
                        1 <= height <= DIM_LIMIT,
                        w1 == width,
                        h1 == height,
                        chw == 3 * ((h1 as int) * (w1 as int)),
                        count == imgs.len(),
                        0 <= n < count,
                        0 <= c < 3,
                        0 <= y < h1,
                        0 <= x <= w1,
                        n * chw + chw <= count * chw,
                        count * chw <= usize::MAX,
                        data.len() == n * chw + c * (h1 * w1) + y * w1 + x,
                        image_wf(padded),
                        padded.width == width,
                        padded.height == height,
                        forall|xx: int, yy: int, cc: int|
                            0 <= xx < width && 0 <= yy < height && 0 <= cc < 3 ==> #[trigger] pixel(
                                padded,
                                xx,
                                yy,
                                cc,
                            ) == letterboxed_at(
                                imgs[n as int],
                                width as int,
                                height as int,
                                task,
                                xx,
                                yy,
                                cc,
                            ),
                        forall|i: int|
                            0 <= i < data.len() ==> #[trigger] data[i] == tensor_flat_expected(
                                imgs@,
                                width as int,
                                height as int,
                                task,
                                i,
                            ),
                    decreases w1 - x,
                {
                    proof {
                        lemma_tensor_flat_decomp(
                            w1 as int,
                            h1 as int,
                            n as int,
                            c as int,
                            y as int,
                            x as int,
                        );
                        assert(data.len() as int == ((n * 3 + c) * (h1 as int) + y) * (w1 as int)
                            + x) by (nonlinear_arith)
                            requires
                                data.len() == n * chw + c * ((h1 as int) * (w1 as int)) + y * w1
                                    + x,
                                chw == 3 * ((h1 as int) * (w1 as int)),
                        ;
                        assert(data.len() + 1 <= count * chw) by (nonlinear_arith)
                            requires
                                data.len() == n * chw + c * ((h1 as int) * (w1 as int)) + y * w1
                                    + x,
                                chw == 3 * ((h1 as int) * (w1 as int)),
                                n * chw + chw <= count * chw,
                                0 <= c < 3,
                                0 <= y < h1,
                                0 <= x < w1,
                                1 <= w1,
                                1 <= h1,
                        ;
                        crate::image_data::lemma_rm_index(w1 as int, h1 as int, x as int, y as int);
                        assert(3 * ((y as int) * (w1 as int) + x) + c < 3 * ((padded.width as int)
                            * (padded.height as int))) by (nonlinear_arith)
                            requires
                                0 <= (y as int) * (w1 as int) + x < (w1 as int) * (h1 as int),
                                0 <= c < 3,
                                padded.width == w1,
                                padded.height == h1,
                        ;
                    }
                    let b = padded.data[3 * (y * w1 + x) + c];
                    data.push(b);
                    proof {
                        assert(pixel(padded, x as int, y as int, c as int) == b);
                        assert(data[data.len() - 1] == tensor_flat_expected(
                            imgs@,
                            width as int,
                            height as int,
                            task,
                            data.len() - 1,
                        ));
                    }
                    x += 1;
                }
                proof {
                    assert(((y + 1) as int) * (w1 as int) == (y as int) * (w1 as int) + w1)
                        by (nonlinear_arith);
                }
                y += 1;
            }
            proof {
                assert(((c + 1) as int) * ((h1 as int) * (w1 as int)) == (c as int) * ((h1 as int)
                    * (w1 as int)) + (h1 as int) * (w1 as int)) by (nonlinear_arith);
            }
            c += 1;
        }
        n += 1;
    }
    let r = Tensor { batch: count, height, width, data };
    proof {
        assert(r.data.len() == r.batch * (3 * ((r.height as int) * (r.width as int))));
        assert forall|nn: int, cc: int, yy: int, xx: int|
            0 <= nn < imgs.len() && 0 <= cc < 3 && 0 <= yy < height && 0 <= xx < width
            implies #[trigger] tensor_at(r, nn, cc, yy, xx) == letterboxed_at(
            imgs[nn],
            width as int,
            height as int,
            task,
            xx,
            yy,
            cc,
        ) by {
            lemma_tensor_flat_decomp(w1 as int, h1 as int, nn, cc, yy, xx);
            assert(0 <= tensor_index(r, nn, cc, yy, xx) < r.data.len()) by (nonlinear_arith)
                requires
                    tensor_index(r, nn, cc, yy, xx) == ((nn * 3 + cc) * (h1 as int) + yy) * (
                    w1 as int) + xx,
                    r.data.len() == count * (3 * ((h1 as int) * (w1 as int))),
                    0 <= nn < count,
                    0 <= cc < 3,
                    0 <= yy < h1,
                    0 <= xx < w1,
                    1 <= w1,
                    1 <= h1,
            ;
        }
    }
    r
}

} // verus!
