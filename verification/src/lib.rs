//! Verified core of a multi-camera capture-to-inference pipeline.
//!
//! The crate models the numeric heart of the pipeline — letterbox scaling,
//! confidence filtering, greedy non-max suppression, bounding-box and keypoint
//! decoding, batch assembly under per-camera faults, and the capture workers'
//! backpressure decisions — over exact integer arithmetic.  Scores and
//! thresholds are fixed-point fractions of [`CONF_SCALE`] and [`IOU_SCALE`];
//! pixel coordinates are plain integers bounded by [`COORD_LIMIT`].  Work that
//! only outside crates can do (image resampling, base64, random colors, the
//! wall clock) is reached through small trusted wrappers whose results the
//! contracts name.

use vstd::prelude::*;

pub mod geometry;
pub mod nms;
pub mod scale;
pub mod image_data;
pub mod tensor;
pub mod preprocess;
pub mod mask;
pub mod config;
pub mod postprocess;
pub mod yolo_result;
pub mod capture;
pub mod textutil;
pub mod encode;
pub mod annotate;

pub use crate::config::{Args, EngineInfo, YOLOv8};
pub use crate::geometry::{Bbox, Point2};
pub use crate::yolo_result::{Embedding, YOLOResult};
pub use crate::nms::non_max_suppression;
pub use crate::textutil::gen_time_string;
pub use crate::encode::image_to_base64;

verus! {

/// The model task the pipeline was built for, fixed at construction.
#[derive(Clone, Copy, Debug, PartialEq, Eq, Structural)]
pub enum YOLOTask {
    Classify,
    Detect,
    Pose,
    Segment,
}

/// Denominator of the fixed-point scale used for IoU thresholds:
/// a threshold `t` stands for the fraction `t / IOU_SCALE`.
pub const IOU_SCALE: i64 = 10000;

/// Denominator of the fixed-point scale used for confidence scores and
/// thresholds: a score `s` stands for the fraction `s / CONF_SCALE`.
pub const CONF_SCALE: u32 = 10000;

/// Upper bound on every pixel coordinate and image dimension the crate
/// handles; keeps all intersection/union products inside `i64`.
pub const COORD_LIMIT: i64 = 1048576;

} // verus!
