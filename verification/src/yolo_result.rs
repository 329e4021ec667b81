//! The decoded per-slot results handed to the annotator and the output
//! boundary.

use vstd::prelude::*;
use crate::geometry::{Bbox, Point2};

verus! {

/// The raw embedding vector a classification run returns for one slot.
#[derive(Debug)]
pub struct Embedding {
    pub data: Vec<i64>,
}

impl Embedding {
    pub fn new(data: Vec<i64>) -> (r: Embedding)
        ensures
            r.data == data,
    {
        Embedding { data }
    }
}

/// Everything decoded for one batch slot in one cycle.  Exactly one of
/// `probs` (classification) and `bboxes` (the other tasks) applies;
/// `keypoints` rides along for pose and `masks` for segmentation.
#[derive(Debug)]
pub struct YOLOResult {
    pub probs: Option<Embedding>,
    pub bboxes: Option<Vec<Bbox>>,
    pub keypoints: Option<Vec<Vec<Point2>>>,
    pub masks: Option<Vec<Vec<u8>>>,
}

impl YOLOResult {
    pub fn new(
        probs: Option<Embedding>,
        bboxes: Option<Vec<Bbox>>,
        keypoints: Option<Vec<Vec<Point2>>>,
        masks: Option<Vec<Vec<u8>>>,
    ) -> (r: YOLOResult)
        ensures
            r.probs == probs,
            r.bboxes == bboxes,
            r.keypoints == keypoints,
            r.masks == masks,
    {
        YOLOResult { probs, bboxes, keypoints, masks }
    }

    pub fn bboxes(&self) -> (r: &Option<Vec<Bbox>>)
        ensures
            r == self.bboxes,
    {
        &self.bboxes
    }

    pub fn keypoints(&self) -> (r: &Option<Vec<Vec<Point2>>>)
        ensures
            r == self.keypoints,
    {
        &self.keypoints
    }

    pub fn masks(&self) -> (r: &Option<Vec<Vec<u8>>>)
        ensures
            r == self.masks,
    {
        &self.masks
    }

    pub fn probs(&self) -> (r: &Option<Embedding>)
        ensures
            r == self.probs,
    {
        &self.probs
    }
}

} // verus!
