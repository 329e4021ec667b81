//! The annotator: hollow rectangles drawn per detection in the class's
//! color, and the label text and position computed for the renderer.

use vstd::prelude::*;
use crate::config::{yolo_wf, YOLOv8};
use crate::geometry::Bbox;
use crate::image_data::{image_wf, pixel, Image, DIM_LIMIT};
use crate::textutil::{chars_of_bytes, format_legend_suffix, legend_suffix_bytes, string_push_str};
use crate::yolo_result::YOLOResult;
use crate::COORD_LIMIT;

verus! {

/// One text label to render over the annotated image: its anchor, its
/// text, and the class color.
#[derive(Debug)]
pub struct LabelOp {
    pub x: i64,
    pub y: i64,
    pub text: String,
    pub color: (u8, u8, u8),
}

/// Channel `c` of an RGB color triple.
pub open spec fn color_channel(color: (u8, u8, u8), c: int) -> u8 {
    if c == 0 {
        color.0
    } else if c == 1 {
        color.1
    } else {
        color.2
    }
}

/// Whether `(xx, yy)` lies on the one-pixel border of the rectangle
/// anchored at `(b.x, b.y)` with extent `(b.w, b.h)`.
pub open spec fn on_border(b: Bbox, xx: int, yy: int) -> bool {
    ||| (yy == b.y || yy == b.y + b.h - 1) && b.x <= xx <= b.x + b.w - 1
    ||| (xx == b.x || xx == b.x + b.w - 1) && b.y <= yy <= b.y + b.h - 1
}

/// The pixel after the first `k` detections' rectangles have been
/// drawn, in order; later rectangles paint over earlier ones, and a
/// rectangle without extent is skipped.
pub open spec fn drawn_at(
    orig: Image,
    boxes: Seq<Bbox>,
    palette: Seq<(u8, u8, u8)>,
    k: int,
    xx: int,
    yy: int,
    c: int,
) -> u8
    decreases k,
{
    if k <= 0 {
        pixel(orig, xx, yy, c)
    } else if boxes[k - 1].w >= 1 && boxes[k - 1].h >= 1 && on_border(boxes[k - 1], xx, yy) {
        color_channel(palette[boxes[k - 1].id as int], c)
    } else {
        drawn_at(orig, boxes, palette, k - 1, xx, yy, c)
    }
}

/// Relies on `imageproc::drawing::draw_hollow_rect_mut` (over
/// `Rect::at(x, y).of_size(w, h)`): it paints exactly the border pixels
/// of the rectangle that lie inside the image, by four axis-aligned
/// line segments, and touches nothing else.
#[verifier::external_body]
fn draw_hollow_rect(img: &mut Image, b: &Bbox, color: (u8, u8, u8))
    requires
        image_wf(*old(img)),
        0 <= b.x,
        0 <= b.y,
        1 <= b.w,
        1 <= b.h,
        b.x + b.w <= COORD_LIMIT,
        b.y + b.h <= COORD_LIMIT,
    ensures
        image_wf(*final(img)),
        final(img).width == old(img).width,
        final(img).height == old(img).height,
        forall|xx: int, yy: int, c: int|
            0 <= xx < old(img).width && 0 <= yy < old(img).height && 0 <= c < 3
                ==> #[trigger] pixel(*final(img), xx, yy, c) == (if on_border(*b, xx, yy) {
                color_channel(color, c)
            } else {
                pixel(*old(img), xx, yy, c)
            }),
{
    let mut buf = image::RgbImage::from_raw(img.width, img.height, std::mem::take(&mut img.data))
        .expect("buffer length matches dimensions");
    imageproc::drawing::draw_hollow_rect_mut(
        &mut buf,
        imageproc::rect::Rect::at(b.x as i32, b.y as i32).of_size(b.w as u32, b.h as u32),
        image::Rgb([color.0, color.1, color.2]),
    );
    img.data = buf.into_raw();
}

/// The label anchor above the box, or at the box's own top edge when
/// the box touches the top of the image and the usual spot would fall
/// outside.
pub open spec fn label_y_spec(ymin: int, legend_size: int) -> int {
    if ymin >= legend_size {
        ymin - legend_size
    } else {
        ymin
    }
}

/// The label height: a fortieth of the image's larger dimension.
pub open spec fn legend_size_spec(w: int, h: int) -> int {
    vstd::math::max(w, h) / 40
}

/// The label text of one detection: its class name and its confidence.
pub open spec fn legend_chars(name: Seq<char>, conf: int) -> Seq<char> {
    name + chars_of_bytes(legend_suffix_bytes(conf))
}

/// Every box the annotator is given: well-formed, with a palette (and
/// name) entry for its class.
pub open spec fn boxes_drawable(bs: Seq<Bbox>, m: YOLOv8) -> bool {
    forall|i: int|
        0 <= i < bs.len() ==> crate::geometry::box_wf(#[trigger] bs[i]) && bs[i].id
            < m.color_palette.len()
}

/// The whole of what annotating one slot yields: the source image with
/// every detection's border rectangle painted in order in its class's
/// color, and one label per detection (anchor, text and color), with
/// the fallback anchor when the box touches the top edge.  A result
/// without boxes leaves the image untouched and the label list empty.
pub open spec fn plotted(m: YOLOv8, y: YOLOResult, img0: Image, out: (Image, Vec<LabelOp>)) -> bool {
    &&& image_wf(out.0)
    &&& out.0.width == img0.width
    &&& out.0.height == img0.height
    &&& match y.bboxes {
        Some(bs) => {
            &&& forall|xx: int, yy: int, c: int|
                0 <= xx < img0.width && 0 <= yy < img0.height && 0 <= c < 3
                    ==> #[trigger] pixel(out.0, xx, yy, c) == drawn_at(
                    img0,
                    bs@,
                    m.color_palette@,
                    bs@.len() as int,
                    xx,
                    yy,
                    c,
                )
            &&& out.1.len() == bs.len()
            &&& forall|i: int|
                0 <= i < bs.len() ==> {
                    &&& (#[trigger] out.1[i]).x == bs[i].x
                    &&& out.1[i].y == label_y_spec(
                        bs[i].y as int,
                        legend_size_spec(img0.width as int, img0.height as int),
                    )
                    &&& out.1[i].color == m.color_palette[bs[i].id as int]
                    &&& out.1[i].text@ == legend_chars(
                        m.names[bs[i].id as int]@,
                        bs[i].confidence as int,
                    )
                }
        },
        None => {
            &&& forall|xx: int, yy: int, c: int|
                0 <= xx < img0.width && 0 <= yy < img0.height && 0 <= c < 3
                    ==> #[trigger] pixel(out.0, xx, yy, c) == pixel(img0, xx, yy, c)
            &&& out.1.len() == 0
        },
    }
}

impl YOLOv8 {
    /// Draws one slot's detections onto a copy of its source image: a
    /// hollow rectangle per detection in the class's fixed color,
    /// painted in order, and one label per detection for the text
    /// renderer, with the fallback anchor when the box touches the top
    /// edge.
    pub fn plot(&self, y: &YOLOResult, img0: &Image) -> (r: (Image, Vec<LabelOp>))
        requires
            yolo_wf(*self),
            image_wf(*img0),
            match y.bboxes {
                Some(bs) => boxes_drawable(bs@, *self),
                None => true,
            },
        ensures
            plotted(*self, *y, *img0, r),
    {
        let img = crate::image_data::copy_image(img0);
        let labels: Vec<LabelOp> = Vec::new();
        let legend_size: u32 = if img0.width > img0.height {
            img0.width / 40
        } else {
            img0.height / 40
        };
        match &y.bboxes {
            None => (img, labels),
            Some(bs) => {
                let mut img = img;
                let mut labels = labels;
                let total = bs.len();
                let mut i: usize = 0;
                while i < total
                    invariant
                        yolo_wf(*self),
                        image_wf(*img0),
                        boxes_drawable(bs@, *self),
                        total == bs.len(),
                        legend_size == legend_size_spec(img0.width as int, img0.height as int),
                        0 <= i <= total,
                        image_wf(img),
                        img.width == img0.width,
                        img.height == img0.height,
                        forall|xx: int, yy: int, c: int|
                            0 <= xx < img0.width && 0 <= yy < img0.height && 0 <= c < 3
                                ==> #[trigger] pixel(img, xx, yy, c) == drawn_at(
                                *img0,
                                bs@,
                                self.color_palette@,
                                i as int,
                                xx,
                                yy,
                                c,
                            ),
                        labels.len() == i,
                        forall|k: int|
                            0 <= k < i ==> {
                                &&& (#[trigger] labels[k]).x == bs@[k].x
                                &&& labels[k].y == label_y_spec(
                                    bs@[k].y as int,
                                    legend_size_spec(img0.width as int, img0.height as int),
                                )
                                &&& labels[k].color == self.color_palette[bs@[k].id as int]
                                &&& labels[k].text@ == legend_chars(
                                    self.names[bs@[k].id as int]@,
                                    bs@[k].confidence as int,
                                )
                            },
                    decreases total - i,
                {
                    let b = &bs[i];
                    let color = self.color_palette[b.id];
                    if b.w >= 1 && b.h >= 1 {
                        draw_hollow_rect(&mut img, b, color);
                    }
                    let mut text = crate::textutil::string_new();
                    string_push_str(&mut text, self.names[b.id].as_str());
                    let suffix = format_legend_suffix(b.confidence);
                    string_push_str(&mut text, suffix.as_str());
                    let label_y: i64 = if b.y >= legend_size as i64 {
                        b.y - legend_size as i64
                    } else {
                        b.y
                    };
                    labels.push(LabelOp { x: b.x, y: label_y, text, color });
                    i += 1;
                }
                (img, labels)
            },
        }
    }

    /// Annotates a whole batch, slot by slot: each output pair is
    /// exactly the plot of its own (result, source image) pair, zipped
    /// by index; a longer list's tail contributes nothing.
    pub fn plot_batch(&self, ys: &Vec<YOLOResult>, xs0: &Vec<Image>) -> (r: Vec<
        (Image, Vec<LabelOp>),
    >)
        requires
            yolo_wf(*self),
            forall|i: int| 0 <= i < xs0.len() ==> image_wf(#[trigger] xs0[i]),
            forall|i: int|
                0 <= i < ys.len() ==> match (#[trigger] ys[i]).bboxes {
                    Some(bs) => boxes_drawable(bs@, *self),
                    None => true,
                },
        ensures
            r.len() == vstd::math::min(ys.len() as int, xs0.len() as int),
            forall|i: int| 0 <= i < r.len() ==> plotted(*self, ys[i], xs0[i], #[trigger] r[i]),
    {
        let total = if ys.len() < xs0.len() {
            ys.len()
        } else {
            xs0.len()
        };
        let mut r: Vec<(Image, Vec<LabelOp>)> = Vec::new();
        let mut i: usize = 0;
        while i < total
            invariant
                yolo_wf(*self),
                total == vstd::math::min(ys.len() as int, xs0.len() as int),
                forall|k: int| 0 <= k < xs0.len() ==> image_wf(#[trigger] xs0[k]),
                forall|k: int|
                    0 <= k < ys.len() ==> match (#[trigger] ys[k]).bboxes {
                        Some(bs) => boxes_drawable(bs@, *self),
                        None => true,
                    },
                0 <= i <= total,
                r.len() == i,
                forall|k: int| 0 <= k < i ==> plotted(*self, ys[k], xs0[k], #[trigger] r[k]),
            decreases total - i,
        {
            let pair = self.plot(&ys[i], &xs0[i]);
            r.push(pair);
            i += 1;
        }
        r
    }
}

/// Whether every result's boxes can be drawn with this run's palette
/// and names: the check a caller makes before annotating a batch.
pub fn boxes_ok_for(m: &YOLOv8, ys: &Vec<YOLOResult>) -> (r: bool)
    ensures
        r == (forall|i: int|
            0 <= i < ys.len() ==> match (#[trigger] ys[i]).bboxes {
                Some(bs) => boxes_drawable(bs@, *m),
                None => true,
            }),
{
    let total = ys.len();
    let mut ok = true;
    let mut i: usize = 0;
    while i < total
        invariant
            total == ys.len(),
            0 <= i <= total,
            ok == (forall|k: int|
                0 <= k < i ==> match (#[trigger] ys[k]).bboxes {
                    Some(bs) => boxes_drawable(bs@, *m),
                    None => true,
                }),
        decreases total - i,
    {
        let slot_ok = match &ys[i].bboxes {
            None => true,
            Some(bs) => {
                let nb = bs.len();
                let mut all = true;
                let mut k: usize = 0;
                while k < nb
                    invariant
                        nb == bs.len(),
                        0 <= k <= nb,
                        all == (forall|q: int|
                            0 <= q < k ==> crate::geometry::box_wf(#[trigger] bs[q]) && bs[q].id
                                < m.color_palette.len()),
                    decreases nb - k,
                {
                    let b = &bs[k];
                    let wf = b.x >= 0 && b.y >= 0 && b.w >= 0 && b.h >= 0 && b.x <= COORD_LIMIT
                        - b.w && b.y <= COORD_LIMIT - b.h;
                    if !(wf && b.id < m.color_palette.len()) {
                        all = false;
                    }
                    k += 1;
                }
                all
            },
        };
        if !slot_ok {
            ok = false;
        }
        i += 1;
    }
    ok
}

} // verus!
