//! Plain RGB images as byte buffers, and the letterbox padding step.

use vstd::prelude::*;

verus! {

/// Upper bound on image dimensions the pipeline handles; keeps every
/// buffer index inside a 32-bit `usize`.
pub const DIM_LIMIT: u32 = 4096;

/// An RGB image: `data` holds three bytes per pixel in row-major order,
/// `data[3 * (y * width + x) + c]` being channel `c` of pixel `(x, y)`.
#[derive(Debug)]
pub struct Image {
    pub width: u32,
    pub height: u32,
    pub data: Vec<u8>,
}

/// The buffer length matches the dimensions and the dimensions are inside
/// the pipeline's budget.
pub open spec fn image_wf(img: Image) -> bool {
    &&& img.width <= DIM_LIMIT
    &&& img.height <= DIM_LIMIT
    &&& img.data.len() == 3 * (img.width * img.height)
}

/// Channel `c` of pixel `(x, y)`.
pub open spec fn pixel(img: Image, x: int, y: int, c: int) -> u8 {
    img.data[3 * (y * img.width + x) + c]
}

/// What letterbox padding leaves at `(x, y)`: the source pixel inside the
/// source extent, the constant fill everywhere else.
pub open spec fn padded_pixel(src: Image, fill: u8, x: int, y: int, c: int) -> u8 {
    if x < src.width && y < src.height {
        pixel(src, x, y, c)
    } else {
        fill
    }
}

/// The padded byte at flat row-major index `i` of a canvas `tw` pixels
/// wide.
pub open spec fn padded_at(src: Image, fill: u8, tw: int, i: int) -> u8 {
    let p = i / 3;
    let c = i % 3;
    let y = p / tw;
    let x = p % tw;
    padded_pixel(src, fill, x, y, c)
}

/// Decomposing the flat row-major index `3 * (y * tw + x) + c` recovers
/// `x`, `y` and `c`.
proof fn lemma_flat_decomp(tw: int, x: int, y: int, c: int)
    requires
        1 <= tw,
        0 <= x < tw,
        0 <= y,
        0 <= c < 3,
    ensures
        (3 * (y * tw + x) + c) / 3 == y * tw + x,
        (3 * (y * tw + x) + c) % 3 == c,
        (y * tw + x) / tw == y,
        (y * tw + x) % tw == x,
{
    let p = y * tw + x;
    assert(0 <= p) by (nonlinear_arith)
        requires
            p == y * tw + x,
            0 <= y,
            0 <= x,
            1 <= tw,
    ;
    vstd::arithmetic::div_mod::lemma_fundamental_div_mod_converse(3 * p + c, 3, p, c);
    vstd::arithmetic::div_mod::lemma_fundamental_div_mod_converse(p, tw, y, x);
}

/// Row-major indices stay inside the buffer.
pub proof fn lemma_rm_index(w: int, h: int, x: int, y: int)
    requires
        0 <= x < w,
        0 <= y < h,
    ensures
        0 <= y * w + x < w * h,
{
    assert(0 <= y * w + x < w * h) by (nonlinear_arith)
        requires
            0 <= x < w,
            0 <= y < h,
    ;
}

impl Image {
    /// A black image of the given size, like a freshly allocated RGB
    /// buffer.
    pub fn new_rgb8(width: u32, height: u32) -> (r: Image)
        requires
            width <= DIM_LIMIT,
            height <= DIM_LIMIT,
        ensures
            image_wf(r),
            r.width == width,
            r.height == height,
            forall|i: int| 0 <= i < r.data.len() ==> r.data[i] == 0u8,
    {
        Image::new_filled(width, height, 0)
    }

    /// An image of the given size with every channel of every pixel set to
    /// `fill`.
    pub fn new_filled(width: u32, height: u32, fill: u8) -> (r: Image)
        requires
            width <= DIM_LIMIT,
            height <= DIM_LIMIT,
        ensures
            image_wf(r),
            r.width == width,
            r.height == height,
            forall|i: int| 0 <= i < r.data.len() ==> r.data[i] == fill,
    {
        proof {
            assert((width as int) * (height as int) <= DIM_LIMIT * DIM_LIMIT) by (nonlinear_arith)
                requires
                    0 <= width <= DIM_LIMIT,
                    0 <= height <= DIM_LIMIT,
            ;
        }
        let n: usize = 3 * ((width as usize) * (height as usize));
        let mut data: Vec<u8> = Vec::new();
        let mut i: usize = 0;
        while i < n
            invariant
                0 <= i <= n,
                data.len() == i,
                forall|j: int| 0 <= j < i ==> data[j] == fill,
            decreases n - i,
        {
            data.push(fill);
            i += 1;
        }
        Image { width, height, data }
    }

    /// The placeholder carried by a faulted batch slot: a zero-sized
    /// image.
    pub fn placeholder() -> (r: Image)
        ensures
            image_wf(r),
            r.width == 0,
            r.height == 0,
    {
        Image { width: 0, height: 0, data: Vec::new() }
    }
}

/// A byte-for-byte copy of an image.
pub fn copy_image(img: &Image) -> (r: Image)
    ensures
        r.width == img.width,
        r.height == img.height,
        r.data@ == img.data@,
{
    let mut data: Vec<u8> = Vec::new();
    let n = img.data.len();
    let mut i: usize = 0;
    while i < n
        invariant
            0 <= i <= n,
            n == img.data.len(),
            data.len() == i,
            forall|j: int| 0 <= j < i ==> data[j] == img.data[j],
        decreases n - i,
    {
        data.push(img.data[i]);
        i += 1;
    }
    proof {
        assert(data@ =~= img.data@);
    }
    Image { width: img.width, height: img.height, data }
}

/// Letterbox padding: lay the image into a `target_w` by `target_h`
/// canvas anchored at the origin and fill the remaining rows and columns
/// with the constant `fill_value` in all three channels.  An image already
/// at the target size is returned as it is.
pub fn pad_to_size(img: Image, target_h: u32, target_w: u32, fill_value: u8) -> (r: Image)
    requires
        image_wf(img),
        1 <= target_w,
        1 <= target_h,
        img.width <= target_w <= DIM_LIMIT,
        img.height <= target_h <= DIM_LIMIT,
    ensures
        image_wf(r),
        r.width == target_w,
        r.height == target_h,
        forall|x: int, y: int, c: int|
            0 <= x < target_w && 0 <= y < target_h && 0 <= c < 3 ==> #[trigger] pixel(r, x, y, c)
                == padded_pixel(img, fill_value, x, y, c),
{
    if img.width == target_w && img.height == target_h {
        return img;
    }
    let mut data: Vec<u8> = Vec::new();
    let w = img.width as usize;
    let h = img.height as usize;
    let tw = target_w as usize;
    let th = target_h as usize;
    let mut y: usize = 0;
    while y < th
        invariant
            image_wf(img),
            w == img.width,
            h == img.height,
            tw == target_w,
            th == target_h,
            target_w <= DIM_LIMIT,
            target_h <= DIM_LIMIT,
            img.width <= target_w,
            img.height <= target_h,
            1 <= tw,
            0 <= y <= th,
            data.len() == 3 * (y * tw),
            forall|i: int|
                0 <= i < data.len() ==> #[trigger] data[i] == padded_at(
                    img,
                    fill_value,
                    tw as int,
                    i,
                ),
        decreases th - y,
    {
        let mut x: usize = 0;
        while x < tw
            invariant
                image_wf(img),
                w == img.width,
                h == img.height,
                tw == target_w,
                th == target_h,
                target_w <= DIM_LIMIT,
                target_h <= DIM_LIMIT,
                img.width <= target_w,
                img.height <= target_h,
                1 <= tw,
                0 <= y < th,
                0 <= x <= tw,
                data.len() == 3 * (y * tw) + 3 * x,
                forall|i: int|
                    0 <= i < data.len() ==> #[trigger] data[i] == padded_at(
                        img,
                        fill_value,
                        tw as int,
                        i,
                    ),
            decreases tw - x,
        {
            proof {
                lemma_rm_index(tw as int, th as int, x as int, y as int);
                lemma_flat_decomp(tw as int, x as int, y as int, 0);
                lemma_flat_decomp(tw as int, x as int, y as int, 1);
                lemma_flat_decomp(tw as int, x as int, y as int, 2);
            }
            let mut c: usize = 0;
            while c < 3
                invariant
                    image_wf(img),
                    w == img.width,
                    h == img.height,
                    tw == target_w,
                    th == target_h,
                    img.width <= target_w,
                    img.height <= target_h,
                    1 <= tw,
                    0 <= y < th,
                    0 <= x < tw,
                    0 <= c <= 3,
                    y * tw + x < tw * th,
                    data.len() == 3 * (y * tw + x) + c,
                    (3 * ((y as int) * (tw as int) + (x as int)) + 0) / 3 == (y as int) * (
                    tw as int) + (x as int),
                    (3 * ((y as int) * (tw as int) + (x as int)) + 1) / 3 == (y as int) * (
                    tw as int) + (x as int),
                    (3 * ((y as int) * (tw as int) + (x as int)) + 2) / 3 == (y as int) * (
                    tw as int) + (x as int),
                    (3 * ((y as int) * (tw as int) + (x as int)) + 0) % 3 == 0,
                    (3 * ((y as int) * (tw as int) + (x as int)) + 1) % 3 == 1,
                    (3 * ((y as int) * (tw as int) + (x as int)) + 2) % 3 == 2,
                    ((y as int) * (tw as int) + (x as int)) / (tw as int) == y as int,
                    ((y as int) * (tw as int) + (x as int)) % (tw as int) == x as int,
                    forall|i: int|
                        0 <= i < data.len() ==> #[trigger] data[i] == padded_at(
                            img,
                            fill_value,
                            tw as int,
                            i,
                        ),
                decreases 3 - c,
            {
                let b: u8 = if x < w && y < h {
                    proof {
                        lemma_rm_index(w as int, h as int, x as int, y as int);
                        assert(3 * (y * w + x) + c < 3 * (img.width * img.height))
                            by (nonlinear_arith)
                            requires
                                0 <= y * w + x < w * h,
                                w == img.width,
                                h == img.height,
                                0 <= c < 3,
                        ;
                    }
                    img.data[3 * (y * w + x) + c]
                } else {
                    fill_value
                };
                data.push(b);
                proof {
                    assert(data[data.len() - 1] == padded_at(
                        img,
                        fill_value,
                        tw as int,
                        data.len() - 1,
                    ));
                }
                c += 1;
            }
            x += 1;
            proof {
                assert(3 * (y * tw) + 3 * x == 3 * (y * tw + x));
            }
        }
        y += 1;
        proof {
            assert(3 * ((y - 1) * tw) + 3 * tw == 3 * (y * tw)) by (nonlinear_arith)
                requires
                    1 <= y,
            ;
        }
    }
    let r = Image { width: target_w, height: target_h, data };
    proof {
        assert(r.data.len() == 3 * (r.width * r.height)) by (nonlinear_arith)
            requires
                r.data.len() == 3 * ((th as int) * (tw as int)),
                r.width == tw,
                r.height == th,
        ;
        assert forall|x: int, y: int, c: int|
            0 <= x < target_w && 0 <= y < target_h && 0 <= c < 3 implies #[trigger] pixel(
            r,
            x,
            y,
            c,
        ) == padded_pixel(img, fill_value, x, y, c) by {
            lemma_flat_decomp(tw as int, x, y, c);
            lemma_rm_index(tw as int, th as int, x, y);
            assert(3 * (y * tw + x) + c < 3 * (tw * th)) by (nonlinear_arith)
                requires
                    0 <= y * (tw as int) + x < (tw as int) * (th as int),
                    0 <= c < 3,
            ;
            assert(data[3 * (y * tw + x) + c] == padded_at(img, fill_value, tw as int, 3 * (y * tw
                + x) + c));
        }
    }
    r
}

} // verus!
