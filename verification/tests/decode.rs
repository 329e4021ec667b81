use yolo_pipeline::config::{Args, ConfigError, EngineInfo, YOLOv8};
use yolo_pipeline::encode::{bytes_to_data_url, convert_to_bytes, image_to_base64, EncodeFormat};
use yolo_pipeline::geometry::Bbox;
use yolo_pipeline::image_data::Image;
use yolo_pipeline::mask::decode_mask;
use yolo_pipeline::postprocess::decode_slot;
use yolo_pipeline::tensor::RawTensor;
use yolo_pipeline::textutil::{format_legend_suffix, format_time_parts, gen_time_string};
use yolo_pipeline::yolo_result::YOLOResult;
use yolo_pipeline::YOLOTask;

fn base_args() -> Args {
    let mut a = Args::default();
    a.conf = 5000;
    a.iou = 5000;
    a.kconf = 5000;
    a
}

fn detect_model(nc: u32) -> YOLOv8 {
    let engine = EngineInfo {
        batch: 1,
        height: 20,
        width: 20,
        task: Some(YOLOTask::Detect),
        nc: Some(nc),
        nk: None,
        nm: None,
        names: None,
    };
    YOLOv8::new(base_args(), engine).expect("valid configuration")
}

/// A primary tensor of one batch element laid out row-major
/// `(1, rows, anchors)` from per-row value lists.
fn raw_from_rows(rows: Vec<Vec<i64>>) -> RawTensor {
    let anchors = rows[0].len();
    let mut data = Vec::new();
    for r in &rows {
        assert_eq!(r.len(), anchors);
        data.extend_from_slice(r);
    }
    RawTensor { batch: 1, rows: rows.len(), anchors, data }
}

#[test]
fn confidence_filter_boundary_is_inclusive() {
    let m = detect_model(2);
    // three anchors: scores 9000 (kept), 4999 (dropped), 5000 (kept:
    // exactly the threshold)
    let preds = raw_from_rows(vec![
        vec![10, 5, 5],
        vec![10, 5, 5],
        vec![4, 2, 2],
        vec![4, 2, 2],
        vec![9000, 4999, 5000],
        vec![1000, 300, 200],
    ]);
    let cands = decode_slot(&m, &preds, 0, 20, 20);
    assert_eq!(cands.len(), 2);
    assert_eq!(cands[0].bbox, Bbox { x: 8, y: 8, w: 4, h: 4, id: 0, confidence: 9000 });
    assert_eq!(cands[1].bbox, Bbox { x: 4, y: 4, w: 2, h: 2, id: 0, confidence: 5000 });
    assert!(cands[0].keypoints.is_none());
    assert!(cands[0].coefs.is_none());
}

#[test]
fn single_anchor_at_the_threshold_survives_alone() {
    let m = detect_model(2);
    // anchor 1's best class score sits exactly at the threshold; the
    // other anchors are strictly below it
    let preds = raw_from_rows(vec![
        vec![10, 5, 15],
        vec![10, 5, 15],
        vec![4, 2, 2],
        vec![4, 2, 2],
        vec![4999, 5000, 4000],
        vec![1000, 300, 200],
    ]);
    let xs0 = vec![Image::new_rgb8(20, 20)];
    let ys = m.postprocess(vec![preds], 0, 0, &xs0).expect("good shapes");
    let bs = ys[0].bboxes.as_ref().expect("the threshold anchor is kept");
    assert_eq!(bs.len(), 1);
    assert_eq!(bs[0].confidence, 5000);
    assert_eq!(*bs.first().unwrap(), Bbox { x: 4, y: 4, w: 2, h: 2, id: 0, confidence: 5000 });
}

#[test]
fn default_args_hold_the_stock_configuration() {
    let a = Args::default();
    assert_eq!(a.model, "./models/yolov8n.onnx");
    assert_eq!(a.source, "");
    assert_eq!(a.device_id, 0);
    assert!(a.cuda && !a.trt && !a.fp16);
    assert_eq!((a.batch, a.batch_min, a.batch_max), (3, 1, 3));
    assert_eq!(a.nc, Some(5));
    assert!(a.nk.is_none() && a.nm.is_none());
    assert_eq!((a.width, a.height), (Some(512), Some(512)));
    assert_eq!((a.conf, a.iou, a.kconf), (5000, 5000, 5000));
    assert_eq!(a.task, Some(YOLOTask::Detect));
    assert!(!a.plot && !a.profile);
}

#[test]
fn plot_batch_plots_each_slot_from_its_own_pair() {
    let m = detect_model(1);
    let imgs = vec![Image::new_rgb8(8, 8), Image::new_rgb8(6, 6)];
    let ys = vec![
        YOLOResult {
            probs: None,
            bboxes: Some(vec![Bbox { x: 1, y: 1, w: 4, h: 4, id: 0, confidence: 9000 }]),
            keypoints: None,
            masks: None,
        },
        YOLOResult { probs: None, bboxes: None, keypoints: None, masks: None },
    ];
    let plotted = m.plot_batch(&ys, &imgs);
    assert_eq!(plotted.len(), 2);
    // slot 0 carries its own box's border and label
    let (img, labels) = &plotted[0];
    let color = m.color_palette[0];
    let i = (3 * (1 * img.width + 1)) as usize;
    assert_eq!((img.data[i], img.data[i + 1], img.data[i + 2]), color);
    assert_eq!(labels.len(), 1);
    // slot 1 has no boxes: its image is untouched and its labels empty
    let (img1, labels1) = &plotted[1];
    assert_eq!((img1.width, img1.height), (6, 6));
    assert!(img1.data.iter().all(|&b| b == 0));
    assert!(labels1.is_empty());
}

#[test]
fn decoded_boxes_are_clamped_to_the_image() {
    let m = detect_model(1);
    // an anchor whose box sticks out of the image on both sides
    let preds = raw_from_rows(vec![
        vec![1],
        vec![19],
        vec![10],
        vec![10],
        vec![8000],
    ]);
    let cands = decode_slot(&m, &preds, 0, 20, 20);
    assert_eq!(cands.len(), 1);
    let b = cands[0].bbox;
    assert!(b.x >= 0 && b.y >= 0);
    assert!(b.x + b.w <= 20 && b.y + b.h <= 20);
    assert_eq!(b, Bbox { x: 0, y: 14, w: 6, h: 6, id: 0, confidence: 8000 });
}

#[test]
fn postprocess_runs_detection_end_to_end() {
    let m = detect_model(2);
    let preds = raw_from_rows(vec![
        vec![10, 5],
        vec![10, 5],
        vec![4, 2],
        vec![4, 2],
        vec![9000, 6000],
        vec![1000, 300],
    ]);
    let xs0 = vec![Image::new_rgb8(20, 20)];
    let ys = m.postprocess(vec![preds], 0, 0, &xs0).expect("good shapes");
    assert_eq!(ys.len(), 1);
    let bs = ys[0].bboxes.as_ref().expect("two detections survive");
    // the boxes do not overlap, so suppression keeps both, by
    // descending confidence
    assert_eq!(bs.len(), 2);
    assert_eq!(bs[0].confidence, 9000);
    assert_eq!(bs[1].confidence, 6000);
    assert!(ys[0].probs.is_none());
    assert!(ys[0].masks.is_none());
}

#[test]
fn postprocess_leaves_faulted_slots_empty() {
    let m = detect_model(1);
    let preds = RawTensor { batch: 2, rows: 5, anchors: 1, data: vec![0; 10] };
    // slot 1 carries the zero-sized fault placeholder
    let xs0 = vec![Image::new_rgb8(20, 20), Image::placeholder()];
    let ys = m.postprocess(vec![preds], 0, 0, &xs0).expect("good shapes");
    assert_eq!(ys.len(), 2);
    assert!(ys[1].bboxes.is_none());
    assert!(ys[1].probs.is_none());
    assert!(ys[1].keypoints.is_none());
    assert!(ys[1].masks.is_none());
}

#[test]
fn postprocess_rejects_bad_shapes() {
    let m = detect_model(2);
    // rows must be 4 + nc for a detection run
    let preds = raw_from_rows(vec![vec![0], vec![0], vec![0], vec![0], vec![0]]);
    let xs0 = vec![Image::new_rgb8(20, 20)];
    assert!(m.postprocess(vec![preds], 0, 0, &xs0).is_err());
    let m1 = detect_model(1);
    let preds = raw_from_rows(vec![vec![0], vec![0], vec![0], vec![0], vec![0]]);
    // batch and source count must agree
    let none: Vec<Image> = Vec::new();
    assert!(m1.postprocess(vec![preds], 0, 0, &none).is_err());
    // and the primary tensor must be there at all
    assert!(m1.postprocess(Vec::new(), 0, 0, &none).is_err());
}

#[test]
fn classification_keeps_raw_embeddings() {
    let engine = EngineInfo {
        batch: 1,
        height: 20,
        width: 20,
        task: Some(YOLOTask::Classify),
        nc: Some(3),
        nk: None,
        nm: None,
        names: None,
    };
    let m = YOLOv8::new(base_args(), engine).expect("valid configuration");
    let preds = RawTensor { batch: 2, rows: 3, anchors: 1, data: vec![7, 8, 9, 10, 11, 12] };
    let xs0 = vec![Image::new_rgb8(4, 4), Image::new_rgb8(4, 4)];
    let ys = m.postprocess(vec![preds], 0, 0, &xs0).expect("good shapes");
    assert_eq!(ys.len(), 2);
    assert_eq!(ys[0].probs.as_ref().unwrap().data, vec![7, 8, 9]);
    assert_eq!(ys[1].probs.as_ref().unwrap().data, vec![10, 11, 12]);
    assert!(ys[0].bboxes.is_none());
}

fn engine_with(
    task: YOLOTask,
    nc: Option<u32>,
    nk: Option<u32>,
    nm: Option<u32>,
) -> EngineInfo {
    EngineInfo {
        batch: 1,
        height: 20,
        width: 20,
        task: Some(task),
        nc,
        nk,
        nm,
        names: None,
    }
}

#[test]
fn config_reports_each_missing_count() {
    let mut args = base_args();
    args.nc = None;
    args.nk = None;
    args.nm = None;
    assert!(matches!(
        YOLOv8::new(args, engine_with(YOLOTask::Detect, None, None, None)),
        Err(ConfigError::MissingClassCount)
    ));
    let mut args = base_args();
    args.nk = None;
    assert!(matches!(
        YOLOv8::new(args, engine_with(YOLOTask::Pose, Some(5), None, None)),
        Err(ConfigError::MissingKeypointCount)
    ));
    let mut args = base_args();
    args.nm = None;
    assert!(matches!(
        YOLOv8::new(args, engine_with(YOLOTask::Segment, Some(5), None, None)),
        Err(ConfigError::MissingMaskCount)
    ));
    let m = YOLOv8::new(base_args(), engine_with(YOLOTask::Segment, Some(5), None, Some(4)))
        .expect("segment config is complete");
    assert_eq!(m.nm(), 4);
    assert_eq!(m.nk(), 0);
    assert_eq!(m.nc(), 5);
    assert_eq!(m.width(), 20);
    assert_eq!(m.height(), 20);
    assert_eq!(m.batch(), 1);
    assert_eq!(m.conf(), 5000);
    assert_eq!(m.iou(), 5000);
    assert_eq!(m.kconf(), 5000);
    assert_eq!(m.names().len(), 1);
}

#[test]
fn set_conf_replaces_the_threshold() {
    let mut m = detect_model(1);
    assert_eq!(m.conf(), 5000);
    m.set_conf(2500);
    assert_eq!(m.conf(), 2500);
}

#[test]
fn pose_keypoints_below_threshold_become_zero() {
    let engine = EngineInfo {
        batch: 1,
        height: 20,
        width: 20,
        task: Some(YOLOTask::Pose),
        nc: Some(1),
        nk: Some(2),
        nm: None,
        names: None,
    };
    let m = YOLOv8::new(base_args(), engine).expect("valid configuration");
    // one anchor: a box, one class score, then two keypoint triples;
    // the second keypoint's own confidence is below the threshold
    let preds = raw_from_rows(vec![
        vec![10],
        vec![10],
        vec![4],
        vec![4],
        vec![9000],
        vec![6],
        vec![8],
        vec![6000],
        vec![2],
        vec![2],
        vec![4000],
    ]);
    let cands = decode_slot(&m, &preds, 0, 20, 20);
    assert_eq!(cands.len(), 1);
    let ks = cands[0].keypoints.as_ref().expect("pose carries keypoints");
    // the list keeps its length: the low-confidence keypoint is zeroed,
    // not dropped
    assert_eq!(ks.len(), 2);
    assert_eq!((ks[0].x, ks[0].y, ks[0].confidence), (6, 8, 6000));
    assert_eq!((ks[1].x, ks[1].y, ks[1].confidence), (0, 0, 0));
}

#[test]
fn segmentation_masks_are_box_local() {
    let engine = EngineInfo {
        batch: 1,
        height: 20,
        width: 20,
        task: Some(YOLOTask::Segment),
        nc: Some(1),
        nk: None,
        nm: Some(1),
        names: None,
    };
    let m = YOLOv8::new(base_args(), engine).expect("valid configuration");
    let preds = raw_from_rows(vec![
        vec![10],
        vec![10],
        vec![4],
        vec![4],
        vec![9000],
        vec![1000],
    ]);
    let proto = RawTensor { batch: 1, rows: 1, anchors: 4, data: vec![1000, 1000, 1000, 1000] };
    let xs0 = vec![Image::new_rgb8(20, 20)];
    let ys = m.postprocess(vec![preds, proto], 2, 2, &xs0).expect("good shapes");
    let masks = ys[0].masks.as_ref().expect("one mask per kept detection");
    assert_eq!(masks.len(), 1);
    assert_eq!(masks[0].len(), 400);
    // pixels outside the detection's own box (which spans 8..=12 in
    // both axes) are zeroed
    assert_eq!(masks[0][0], 0);
    assert_eq!(masks[0][19], 0);
    assert_eq!(masks[0][399], 0);
}

#[test]
fn mask_is_zeroed_outside_its_box() {
    // one proto plane of 2 by 2, one coefficient at full scale: the
    // mask keeps only the pixel covered by the (degenerate) box at the
    // origin
    let proto = RawTensor { batch: 1, rows: 1, anchors: 4, data: vec![1000, 1000, 1000, 1000] };
    let coefs = vec![1000i64];
    let b = Bbox { x: 0, y: 0, w: 0, h: 0, id: 0, confidence: 9000 };
    let mask = decode_mask(&coefs, &proto, 0, 2, 2, 2, 2, &b);
    assert_eq!(mask.len(), 4);
    assert_eq!(mask[1], 0);
    assert_eq!(mask[2], 0);
    assert_eq!(mask[3], 0);
}

#[test]
fn data_url_uses_standard_base64() {
    let url = bytes_to_data_url(&b"Hello!".to_vec());
    assert_eq!(url, "data:image/png;base64,SGVsbG8h");
    let url = bytes_to_data_url(&Vec::new());
    assert_eq!(url, "data:image/png;base64,");
}

#[test]
fn encoded_bytes_decode_to_the_same_image() {
    let img = yolo_pipeline::image_data::pad_to_size(Image::new_rgb8(1, 1), 4, 2, 144);
    let bytes = convert_to_bytes(&img, EncodeFormat::Bmp).expect("bmp always encodes");
    let back = image::load_from_memory(&bytes).expect("valid bmp").into_rgb8();
    assert_eq!(back.width(), 2);
    assert_eq!(back.height(), 4);
    assert_eq!(back.get_pixel(0, 0).0, [0, 0, 0]);
    assert_eq!(back.get_pixel(1, 2).0, [144, 144, 144]);
}

#[test]
fn webp_data_url_has_the_fixed_prefix() {
    let img = Image::new_rgb8(2, 2);
    let url = image_to_base64(&img).expect("webp encodes losslessly");
    assert!(url.starts_with("data:image/png;base64,"));
    assert!(url.len() > "data:image/png;base64,".len());
}

#[test]
fn time_parts_format_zero_padded() {
    assert_eq!(
        format_time_parts(2024, 3, 7, 5, 9, 59, 123, "-"),
        "2024-03-07-05-09-59-000000123"
    );
    assert_eq!(
        format_time_parts(987, 12, 31, 23, 0, 1, 999999999, "_"),
        "0987_12_31_23_00_01_999999999"
    );
}

#[test]
fn gen_time_string_has_the_timestamp_shape() {
    let s = gen_time_string("-");
    assert_eq!(s.len(), 29);
    assert_eq!(s.matches('-').count(), 6);
}

#[test]
fn legend_suffix_rounds_half_up_to_hundredths() {
    assert_eq!(format_legend_suffix(9000), " 0.90%");
    assert_eq!(format_legend_suffix(9950), " 1.00%");
    assert_eq!(format_legend_suffix(10000), " 1.00%");
    assert_eq!(format_legend_suffix(55), " 0.01%");
    assert_eq!(format_legend_suffix(0), " 0.00%");
}

#[test]
fn plot_draws_the_border_in_the_class_color() {
    let m = detect_model(1);
    let img0 = Image::new_rgb8(8, 8);
    let result = YOLOResult {
        probs: None,
        bboxes: Some(vec![Bbox { x: 1, y: 1, w: 4, h: 4, id: 0, confidence: 9000 }]),
        keypoints: None,
        masks: None,
    };
    let (img, labels) = m.plot(&result, &img0);
    let color = m.color_palette[0];
    let p = |x: u32, y: u32| {
        let i = (3 * (y * img.width + x)) as usize;
        (img.data[i], img.data[i + 1], img.data[i + 2])
    };
    // the four corners of the border carry the class color
    assert_eq!(p(1, 1), color);
    assert_eq!(p(4, 1), color);
    assert_eq!(p(1, 4), color);
    assert_eq!(p(4, 4), color);
    // inside and outside stay untouched
    assert_eq!(p(2, 2), (0, 0, 0));
    assert_eq!(p(6, 6), (0, 0, 0));
    // one label per detection, anchored at the box (the 8 by 8 image
    // makes the legend height zero)
    assert_eq!(labels.len(), 1);
    assert_eq!((labels[0].x, labels[0].y), (1, 1));
    assert_eq!(labels[0].text, "Unknown 0.90%");
    assert_eq!(labels[0].color, color);
}
