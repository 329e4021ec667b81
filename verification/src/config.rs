//! Run configuration: user arguments, engine-reported metadata, and the
//! immutable per-run model state merged from the two.

use vstd::prelude::*;
use crate::image_data::DIM_LIMIT;
use crate::{CONF_SCALE, IOU_SCALE, YOLOTask};

verus! {

/// User-supplied arguments.  Thresholds are fixed-point fractions:
/// `conf` and `kconf` of [`CONF_SCALE`], `iou` of [`IOU_SCALE`].
#[derive(Debug)]
pub struct Args {
    pub model: String,
    pub source: String,
    pub device_id: u32,
    pub trt: bool,
    pub cuda: bool,
    pub batch: u32,
    pub batch_min: u32,
    pub batch_max: u32,
    pub fp16: bool,
    pub task: Option<YOLOTask>,
    pub nc: Option<u32>,
    pub nk: Option<u32>,
    pub nm: Option<u32>,
    pub width: Option<u32>,
    pub height: Option<u32>,
    pub conf: u32,
    pub iou: i64,
    pub kconf: u32,
    pub plot: bool,
    pub profile: bool,
}

/// The thresholds stay inside their scales.
pub open spec fn args_wf(a: Args) -> bool {
    &&& a.conf <= CONF_SCALE
    &&& a.kconf <= CONF_SCALE
    &&& 0 <= a.iou <= IOU_SCALE
}

impl Default for Args {
    /// The stock configuration: a three-camera detection run at half
    /// thresholds, on the bundled detection model, with CUDA on.
    fn default() -> (r: Args)
        ensures
            args_wf(r),
            r.model@ == "./models/yolov8n.onnx"@,
            r.source@ == Seq::<char>::empty(),
            r.device_id == 0,
            !r.trt,
            r.cuda,
            r.batch == 3,
            r.batch_min == 1,
            r.batch_max == 3,
            !r.fp16,
            r.task == Some(YOLOTask::Detect),
            r.nc == Some(5u32),
            r.nk is None,
            r.nm is None,
            r.width == Some(512u32),
            r.height == Some(512u32),
            r.conf == CONF_SCALE / 2,
            r.iou == IOU_SCALE / 2,
            r.kconf == CONF_SCALE / 2,
            !r.plot,
            !r.profile,
    {
        let mut model = crate::textutil::string_new();
        crate::textutil::string_push_str(&mut model, "./models/yolov8n.onnx");
        proof {
            assert(model@ =~= "./models/yolov8n.onnx"@);
        }
        Args {
            model,
            source: crate::textutil::string_new(),
            device_id: 0,
            trt: false,
            cuda: true,
            batch: 3,
            batch_min: 1,
            batch_max: 3,
            fp16: false,
            task: Some(YOLOTask::Detect),
            nc: Some(5),
            nk: None,
            nm: None,
            width: Some(512),
            height: Some(512),
            conf: CONF_SCALE / 2,
            iou: IOU_SCALE / 2,
            kconf: CONF_SCALE / 2,
            plot: false,
            profile: false,
        }
    }
}

/// What the engine's model metadata reports after it is built: resolved
/// input geometry, and counts and names where the model file carries
/// them.
#[derive(Debug)]
pub struct EngineInfo {
    pub batch: u32,
    pub height: u32,
    pub width: u32,
    pub task: Option<YOLOTask>,
    pub nc: Option<u32>,
    pub nk: Option<u32>,
    pub nm: Option<u32>,
    pub names: Option<Vec<String>>,
}

/// Why the pipeline could not be configured: a per-task count that
/// neither the model metadata nor the arguments supplied.
#[derive(Clone, Copy, Debug, PartialEq, Eq, Structural)]
pub enum ConfigError {
    MissingClassCount,
    MissingKeypointCount,
    MissingMaskCount,
}

impl ConfigError {
    /// A human-readable description of the error.
    pub fn message(&self) -> (r: &'static str)
        ensures
            *self is MissingClassCount ==> r@ == "missing class count: set nc explicitly"@,
            *self is MissingKeypointCount ==> r@ == "missing keypoint count: set nk explicitly"@,
            *self is MissingMaskCount ==> r@ == "missing mask count: set nm explicitly"@,
    {
        match self {
            ConfigError::MissingClassCount => "missing class count: set nc explicitly",
            ConfigError::MissingKeypointCount => "missing keypoint count: set nk explicitly",
            ConfigError::MissingMaskCount => "missing mask count: set nm explicitly",
        }
    }
}

/// Relies on `rand::random`: nothing is promised of the value drawn.
pub assume_specification<T>[ rand::random::<T> ]() -> (r: T)
    where
        rand::distributions::Standard: rand::distributions::Distribution<T>,
;

/// The immutable per-run model state.  Set once when the pipeline is
/// built and never mutated during a run.
#[derive(Debug)]
pub struct YOLOv8 {
    pub nc: u32,
    pub nk: u32,
    pub nm: u32,
    pub height: u32,
    pub width: u32,
    pub batch: u32,
    pub task: YOLOTask,
    pub conf: u32,
    pub kconf: u32,
    pub iou: i64,
    pub names: Vec<String>,
    pub color_palette: Vec<(u8, u8, u8)>,
    pub profile: bool,
    pub plot: bool,
}

/// The per-run state is internally consistent: geometry inside the
/// budget, thresholds inside their scales, the per-task counts present,
/// and one color per class name.
pub open spec fn yolo_wf(m: YOLOv8) -> bool {
    &&& 1 <= m.width <= DIM_LIMIT
    &&& 1 <= m.height <= DIM_LIMIT
    &&& m.conf <= CONF_SCALE
    &&& m.kconf <= CONF_SCALE
    &&& 0 <= m.iou <= IOU_SCALE
    &&& 1 <= m.nc
    &&& m.nc <= 4096
    &&& m.nk <= 4096
    &&& m.nm <= 4096
    &&& (m.task is Pose ==> 1 <= m.nk)
    &&& (m.task is Segment ==> 1 <= m.nm)
    &&& m.color_palette.len() == m.names.len()
}

impl YOLOv8 {
    /// Merges the arguments with the engine's metadata into the per-run
    /// state: the engine's geometry wins, counts fall back from metadata
    /// to arguments, and a task that needs a count it cannot get is
    /// refused.  The per-class colors are drawn once here.
    pub fn new(config: Args, engine: EngineInfo) -> (r: Result<YOLOv8, ConfigError>)
        requires
            args_wf(config),
            1 <= engine.width <= DIM_LIMIT,
            1 <= engine.height <= DIM_LIMIT,
        ensures
            r is Ok <==> !count_bad(engine.nc, config.nc) && (resolved_task(config, engine) is Pose
                ==> !count_bad(engine.nk, config.nk)) && (resolved_task(config, engine) is Segment
                ==> !count_bad(engine.nm, config.nm)),
            match r {
                Ok(m) => {
                    &&& yolo_wf(m)
                    &&& m.width == engine.width
                    &&& m.height == engine.height
                    &&& m.batch == engine.batch
                    &&& m.conf == config.conf
                    &&& m.kconf == config.kconf
                    &&& m.iou == config.iou
                    &&& m.plot == config.plot
                    &&& m.profile == config.profile
                    &&& m.task == resolved_task(config, engine)
                    &&& m.nc as int == resolved_count(engine.nc, config.nc)
                    &&& (m.task is Pose ==> m.nk as int == resolved_count(engine.nk, config.nk))
                    &&& (!(m.task is Pose) ==> m.nk == 0)
                    &&& (m.task is Segment ==> m.nm as int == resolved_count(engine.nm, config.nm))
                    &&& (!(m.task is Segment) ==> m.nm == 0)
                },
                Err(e) => {
                    &&& (e is MissingClassCount <==> count_bad(engine.nc, config.nc))
                    &&& (e is MissingKeypointCount <==> !count_bad(engine.nc, config.nc)
                        && resolved_task(config, engine) is Pose && count_bad(
                        engine.nk,
                        config.nk,
                    ))
                    &&& (e is MissingMaskCount <==> !count_bad(engine.nc, config.nc)
                        && resolved_task(config, engine) is Segment && count_bad(
                        engine.nm,
                        config.nm,
                    ))
                },
            },
    {
        let task: YOLOTask = match engine.task {
            Some(t) => t,
            None => match config.task {
                Some(t) => t,
                None => YOLOTask::Detect,
            },
        };
        let nc: u32 = match engine.nc {
            Some(v) => v,
            None => match config.nc {
                Some(v) => v,
                None => {
                    return Err(ConfigError::MissingClassCount);
                },
            },
        };
        if nc < 1 || nc > 4096 {
            return Err(ConfigError::MissingClassCount);
        }
        let (nk, nm): (u32, u32) = match task {
            YOLOTask::Pose => {
                let nk = match engine.nk {
                    Some(v) => v,
                    None => match config.nk {
                        Some(v) => v,
                        None => {
                            return Err(ConfigError::MissingKeypointCount);
                        },
                    },
                };
                if nk < 1 || nk > 4096 {
                    return Err(ConfigError::MissingKeypointCount);
                }
                (nk, 0)
            },
            YOLOTask::Segment => {
                let nm = match engine.nm {
                    Some(v) => v,
                    None => match config.nm {
                        Some(v) => v,
                        None => {
                            return Err(ConfigError::MissingMaskCount);
                        },
                    },
                };
                if nm < 1 || nm > 4096 {
                    return Err(ConfigError::MissingMaskCount);
                }
                (0, nm)
            },
            _ => (0, 0),
        };
        let names: Vec<String> = match engine.names {
            Some(v) => v,
            None => {
                let mut v: Vec<String> = Vec::new();
                v.push("Unknown".to_owned());
                v
            },
        };
        let mut color_palette: Vec<(u8, u8, u8)> = Vec::new();
        let total = names.len();
        let mut i: usize = 0;
        while i < total
            invariant
                0 <= i <= total,
                color_palette.len() == i,
            decreases total - i,
        {
            let color: (u8, u8, u8) = rand::random();
            color_palette.push(color);
            i += 1;
        }
        Ok(
            YOLOv8 {
                nc,
                nk,
                nm,
                height: engine.height,
                width: engine.width,
                batch: engine.batch,
                task,
                conf: config.conf,
                kconf: config.kconf,
                iou: config.iou,
                names,
                color_palette,
                profile: config.profile,
                plot: config.plot,
            },
        )
    }

    /// The letterbox scale of a `(w0, h0)` image into a `(w1, h1)`
    /// canvas: the exact rational ratio and the resized region size.
    pub fn scale_wh(&self, w0: i64, h0: i64, w1: i64, h1: i64) -> (r: (i64, i64, i64, i64))
        requires
            1 <= w0 <= crate::COORD_LIMIT,
            1 <= h0 <= crate::COORD_LIMIT,
            1 <= w1 <= crate::COORD_LIMIT,
            1 <= h1 <= crate::COORD_LIMIT,
        ensures
            r.0 == crate::scale::ratio_num(w0 as int, h0 as int, w1 as int, h1 as int),
            r.1 == crate::scale::ratio_den(w0 as int, h0 as int, w1 as int, h1 as int),
            r.2 == crate::scale::scaled_w(w0 as int, h0 as int, w1 as int, h1 as int),
            r.3 == crate::scale::scaled_h(w0 as int, h0 as int, w1 as int, h1 as int),
    {
        crate::scale::scale_wh(w0, h0, w1, h1)
    }

    /// The model input as one stacked channel-first tensor.
    pub fn preprocess(&self, xs: &Vec<crate::image_data::Image>) -> (r: crate::tensor::Tensor)
        requires
            yolo_wf(*self),
            forall|i: int|
                0 <= i < xs.len() ==> crate::image_data::image_wf(#[trigger] xs[i]),
            xs.len() * (3 * ((self.height as int) * (self.width as int))) <= usize::MAX,
        ensures
            crate::tensor::tensor_wf(r),
            r.batch == xs.len(),
            r.width == self.width,
            r.height == self.height,
            forall|n: int, c: int, y: int, x: int|
                0 <= n < xs.len() && 0 <= c < 3 && 0 <= y < self.height && 0 <= x < self.width
                    ==> #[trigger] crate::tensor::tensor_at(r, n, c, y, x)
                    == crate::preprocess::letterboxed_at(
                    xs[n],
                    self.width as int,
                    self.height as int,
                    self.task,
                    x,
                    y,
                    c,
                ),
    {
        crate::preprocess::preprocess(xs, self.width, self.height, self.task)
    }

    pub fn conf(&self) -> (r: u32)
        ensures
            r == self.conf,
    {
        self.conf
    }

    /// Replaces the confidence threshold.
    pub fn set_conf(&mut self, val: u32)
        requires
            val <= CONF_SCALE,
        ensures
            final(self).conf == val,
            *final(self) == (YOLOv8 { conf: val, ..*old(self) }),
    {
        self.conf = val;
    }

    pub fn kconf(&self) -> (r: u32)
        ensures
            r == self.kconf,
    {
        self.kconf
    }

    pub fn iou(&self) -> (r: i64)
        ensures
            r == self.iou,
    {
        self.iou
    }

    pub fn task(&self) -> (r: &YOLOTask)
        ensures
            r == self.task,
    {
        &self.task
    }

    pub fn batch(&self) -> (r: u32)
        ensures
            r == self.batch,
    {
        self.batch
    }

    pub fn width(&self) -> (r: u32)
        ensures
            r == self.width,
    {
        self.width
    }

    pub fn height(&self) -> (r: u32)
        ensures
            r == self.height,
    {
        self.height
    }

    pub fn nc(&self) -> (r: u32)
        ensures
            r == self.nc,
    {
        self.nc
    }

    pub fn nk(&self) -> (r: u32)
        ensures
            r == self.nk,
    {
        self.nk
    }

    pub fn nm(&self) -> (r: u32)
        ensures
            r == self.nm,
    {
        self.nm
    }

    pub fn names(&self) -> (r: &Vec<String>)
        ensures
            r == self.names,
    {
        &self.names
    }
}

/// The task the run settles on: the engine's report, else the
/// arguments', else plain detection.
pub open spec fn resolved_task(config: Args, engine: EngineInfo) -> YOLOTask {
    match engine.task {
        Some(t) => t,
        None => match config.task {
            Some(t) => t,
            None => YOLOTask::Detect,
        },
    }
}

/// A count resolved from the engine's metadata with the arguments as the
/// fallback.
pub open spec fn resolved_count(from_engine: Option<u32>, from_config: Option<u32>) -> int {
    match from_engine {
        Some(v) => v as int,
        None => match from_config {
            Some(v) => v as int,
            None => -1,
        },
    }
}

/// Neither source supplies the count.
pub open spec fn count_missing(from_engine: Option<u32>, from_config: Option<u32>) -> bool {
    from_engine is None && from_config is None
}

/// The count is unusable: missing from both sources or outside `[1, 4096]`.
pub open spec fn count_bad(from_engine: Option<u32>, from_config: Option<u32>) -> bool {
    count_missing(from_engine, from_config) || resolved_count(from_engine, from_config) < 1
        || resolved_count(from_engine, from_config) > 4096
}

} // verus!
