use yolo_pipeline::capture::{
    assemble_batch, parse_reconfig_payload, slot_is_valid, worker_step, CamState, CaptureFault,
    FaultKind, Frame, ReadOutcome, ReconfigPoll, WorkerAction, WorkerState,
};
use yolo_pipeline::geometry::Bbox;
use yolo_pipeline::image_data::{pad_to_size, Image};
use yolo_pipeline::nms::{non_max_suppression, Detection};
use yolo_pipeline::preprocess::preprocess;
use yolo_pipeline::scale::{round_div, scale_wh};
use yolo_pipeline::YOLOTask;

fn px(img: &Image, x: u32, y: u32, c: u32) -> u8 {
    img.data[(3 * (y * img.width + x) + c) as usize]
}

#[test]
fn test_preprocess() {
    let w = 20;
    let h = 20;
    let fill_val = 144;
    let mut imgs = Vec::new();
    for _ in 0..3 {
        imgs.push(pad_to_size(Image::new_rgb8(2, 4), w, h, fill_val));
    }
    let mut ys_truth = vec![fill_val as f32 / 255.0; 3 * 3 * (h as usize) * (w as usize)];
    for (idx, img) in imgs.iter().enumerate() {
        for y in 0..h as usize {
            for x in 0..w as usize {
                for c in 0..3usize {
                    let v = px(img, x as u32, y as u32, c as u32) as f32 / 255.0;
                    ys_truth[((idx * 3 + c) * (h as usize) + y) * (w as usize) + x] = v;
                }
            }
        }
    }
    let tensor = preprocess(&imgs, w, h, YOLOTask::Detect);
    let ys_test: Vec<f32> = tensor.data.iter().map(|&b| (b as f32) / 255.0).collect();
    assert_eq!(ys_truth, ys_test);
}

#[test]
fn letterbox_pads_with_constant_fill() {
    // a 2 by 4 image into a 20 by 20 canvas, anchored at the origin:
    // every row and column beyond the image is exactly 144 in all three
    // channels
    let img = Image::new_rgb8(2, 4);
    let padded = pad_to_size(img, 20, 20, 144);
    assert_eq!(padded.width, 20);
    assert_eq!(padded.height, 20);
    for y in 0..20 {
        for x in 0..20 {
            for c in 0..3 {
                if x < 2 && y < 4 {
                    assert_eq!(px(&padded, x, y, c), 0);
                } else {
                    assert_eq!(px(&padded, x, y, c), 144);
                }
            }
        }
    }
}

fn det(x: i64, y: i64, w: i64, h: i64, conf: u32) -> Detection {
    Detection {
        bbox: Bbox { x, y, w, h, id: 0, confidence: conf },
        keypoints: None,
        coefs: None,
    }
}

#[test]
fn nms_keeps_only_higher_confidence_overlap() {
    // two boxes with IoU about 0.68 against a threshold of 0.5: only
    // the higher-confidence one survives
    let a = det(10, 10, 20, 20, 9000);
    let b = det(12, 12, 20, 20, 8000);
    let mut xs = vec![a, b];
    non_max_suppression(&mut xs, 5000);
    assert_eq!(xs.len(), 1);
    assert_eq!(xs[0].bbox, Bbox { x: 10, y: 10, w: 20, h: 20, id: 0, confidence: 9000 });
}

#[test]
fn nms_keeps_both_when_under_threshold() {
    // the same overlap (about 0.68) is allowed by a 0.69 threshold, in
    // either confidence order
    let mut xs = vec![det(12, 12, 20, 20, 8000), det(10, 10, 20, 20, 9000)];
    non_max_suppression(&mut xs, 6900);
    assert_eq!(xs.len(), 2);
    assert_eq!(xs[0].bbox.confidence, 9000);
    assert_eq!(xs[1].bbox.confidence, 8000);
}

#[test]
fn nms_twice_yields_same_set() {
    let mut xs = vec![
        det(10, 10, 20, 20, 9000),
        det(12, 12, 20, 20, 8000),
        det(100, 100, 10, 10, 7000),
        det(104, 104, 10, 10, 6500),
    ];
    non_max_suppression(&mut xs, 5000);
    let first: Vec<Bbox> = xs.iter().map(|d| d.bbox).collect();
    non_max_suppression(&mut xs, 5000);
    let second: Vec<Bbox> = xs.iter().map(|d| d.bbox).collect();
    assert_eq!(first, second);
}

#[test]
fn iou_comparison_is_exact() {
    let a = Bbox { x: 10, y: 10, w: 20, h: 20, id: 0, confidence: 9000 };
    let b = Bbox { x: 12, y: 12, w: 20, h: 20, id: 0, confidence: 8000 };
    // intersection 18 * 18 = 324, union 476: IoU is about 0.6807
    assert!(a.iou_exceeds(&b, 5000));
    assert!(a.iou_exceeds(&b, 6800));
    assert!(!a.iou_exceeds(&b, 6807));
    assert!(!a.iou_exceeds(&b, 6900));
    // disjoint boxes never exceed any threshold
    let c = Bbox { x: 100, y: 100, w: 5, h: 5, id: 0, confidence: 1 };
    assert!(!a.iou_exceeds(&c, 0));
}

#[test]
fn scale_ratio_and_letterbox_size() {
    // a 2 by 4 image into a 20 by 20 canvas: the height limits, the
    // ratio is exactly 5, the resized region is 10 by 20
    let (rn, rd, nw, nh) = scale_wh(2, 4, 20, 20);
    assert_eq!((rn, rd), (20, 4));
    assert_eq!((nw, nh), (10, 20));
    // and the region always fits the canvas
    let (_, _, nw2, nh2) = scale_wh(640, 480, 512, 512);
    assert!(nw2 <= 512 && nh2 <= 512);
    assert_eq!((nw2, nh2), (512, 384));
}

#[test]
fn coordinate_round_trip_within_one_pixel() {
    // the region of an upscaled image decodes back to the original
    // dimensions within one pixel
    let (rn, rd, nw, nh) = scale_wh(2, 4, 20, 20);
    let back_w = round_div(nw * rd, rn);
    let back_h = round_div(nh * rd, rn);
    assert!((back_w - 2).abs() <= 1);
    assert!((back_h - 4).abs() <= 1);
    // the limiting dimension is exact
    assert_eq!(back_h, 4);
}

#[test]
fn backpressure_drops_exactly_ten_frames() {
    // a worker whose channel is full for 10 consecutive produce
    // attempts drops exactly 10 frames and never blocks
    let mut st = WorkerState {
        slot: 0,
        cam: CamState::Active { device_index: 1 },
        dropped_frames: 0,
        faults_sent: 0,
    };
    for _ in 0..10 {
        let (next, action) = worker_step(&st, ReadOutcome::Frame, true, ReconfigPoll::NoMessage);
        assert!(matches!(action, WorkerAction::DropFrameWaitShort));
        st = next;
    }
    assert_eq!(st.dropped_frames, 10);
    assert_eq!(st.faults_sent, 0);
    // with room in the channel the frame goes out and nothing is dropped
    let (next, action) = worker_step(&st, ReadOutcome::Frame, false, ReconfigPoll::NoMessage);
    assert!(matches!(action, WorkerAction::SendFrame));
    assert_eq!(next.dropped_frames, 10);
}

#[test]
fn worker_reports_faults_and_reconfigures() {
    let st = WorkerState {
        slot: 2,
        cam: CamState::Active { device_index: 0 },
        dropped_frames: 0,
        faults_sent: 0,
    };
    let (st, action) = worker_step(&st, ReadOutcome::ReadError, false, ReconfigPoll::NoMessage);
    assert!(matches!(action, WorkerAction::SendFaultWaitLong { kind: FaultKind::ReadFailed }));
    assert_eq!(st.faults_sent, 1);
    // a failed open clears the handle; the next attempts report a
    // missing device until a successful reconfiguration
    let (st, _) = worker_step(&st, ReadOutcome::Frame, false, ReconfigPoll::Failed);
    assert!(matches!(st.cam, CamState::Missing));
    let (st, action) = worker_step(&st, ReadOutcome::Frame, false, ReconfigPoll::NoMessage);
    assert!(matches!(
        action,
        WorkerAction::SendFaultWaitLong { kind: FaultKind::DeviceMissing }
    ));
    let (st, _) = worker_step(&st, ReadOutcome::Frame, false, ReconfigPoll::Opened {
        device_index: 4,
    });
    assert!(matches!(st.cam, CamState::Active { device_index: 4 }));
    assert_eq!(st.slot, 2);
}

#[test]
fn batch_slots_stay_independent_across_cycles() {
    // three cameras, camera 1 failing every cycle: slots 0 and 2 carry
    // their frames every cycle, slot 1 always carries a fresh fault
    // marker and the placeholder image
    for _cycle in 0..3 {
        let inputs = vec![
            Frame::Image(Image::new_rgb8(4, 4)),
            Frame::Error(FaultKind::ReadFailed),
            Frame::Image(Image::new_rgb8(2, 2)),
        ];
        let batch = assemble_batch(inputs);
        assert_eq!(batch.len(), 3);
        assert_eq!(batch[0].image.width, 4);
        assert!(batch[0].error.is_none());
        assert_eq!(batch[1].image.width, 0);
        assert_eq!(batch[1].image.height, 0);
        assert_eq!(batch[1].error, Some(FaultKind::ReadFailed));
        assert_eq!(batch[2].image.width, 2);
        assert!(batch[2].error.is_none());
    }
}

#[test]
fn fault_messages_name_the_cause() {
    let f = CaptureFault { kind: FaultKind::DeviceMissing, slot: 1 };
    assert_eq!(f.message(), "Error: Camera does not exist.");
    let f = CaptureFault { kind: FaultKind::ReadFailed, slot: 0 };
    assert_eq!(f.message(), "Error: Could not read frame from camera.");
    let f = CaptureFault { kind: FaultKind::ConversionFailed, slot: 2 };
    assert_eq!(f.message(), "Error: Could not convert frame to image.");
}

#[test]
fn reconfig_payload_parsing() {
    assert_eq!(parse_reconfig_payload("3 7"), 3);
    assert_eq!(parse_reconfig_payload("  12"), 12);
    assert_eq!(parse_reconfig_payload("-2"), -2);
    assert_eq!(parse_reconfig_payload(""), -1);
    assert_eq!(parse_reconfig_payload("   "), -1);
    assert_eq!(parse_reconfig_payload("x 1"), -1);
    assert_eq!(parse_reconfig_payload("12x"), -1);
    assert_eq!(parse_reconfig_payload("-"), -1);
    assert_eq!(parse_reconfig_payload("99999999999999999999"), -1);
    assert_eq!(parse_reconfig_payload("0"), 0);
    assert!(slot_is_valid(0, 3));
    assert!(slot_is_valid(2, 3));
    assert!(!slot_is_valid(3, 3));
    assert!(!slot_is_valid(-1, 3));
}
