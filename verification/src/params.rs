//! Model parameters, task kinds, pipeline errors and the shared fixed-point
//! constants.

use vstd::prelude::*;

verus! {

/// Fixed-point representation of 1.0: confidences and the confidence, IoU and
/// keypoint thresholds are integers in `[0, UNIT]`.
pub const UNIT: i64 = 1_000_000;

/// Bound on the magnitude of every tensor value the pipeline accepts.
/// Keeps all decoding arithmetic inside `i64`.
pub const VAL_LIMIT: i64 = 16_777_216;

/// Largest accepted image or model-input side length, in pixels.
pub const MAX_DIM: u32 = 8192;

/// Largest accepted class count.
pub const MAX_CLASSES: u32 = 4096;

/// Largest accepted keypoint count.
pub const MAX_KEYPOINTS: u32 = 256;

/// Largest accepted mask-channel count. Keeps the coefficient-prototype dot
/// product inside `i64` for `VAL_LIMIT`-bounded values.
pub const MAX_MASK_CHANNELS: u32 = 1024;

/// The task a model was trained for; decides the layout of the trailing
/// per-anchor channel block and which pipeline stages run.
#[derive(Clone, Copy, PartialEq, Eq, Structural, Debug)]
pub enum Task {
    Classify,
    Detect,
    Pose,
    Segment,
}

/// Why a frame could not be decoded. Absence of detections is never an
/// error: an empty result is a valid outcome.
#[derive(Clone, Copy, PartialEq, Eq, Structural, Debug)]
pub enum PipelineError {
    /// A tensor's rank or dimensions do not match the active task and counts.
    ShapeError,
    /// The class/keypoint/mask counts are unset or inconsistent with the task.
    ConfigMismatch,
    /// A mask coefficient vector does not match the prototype channel count.
    NumericError,
}

/// Read-only per-model configuration shared by every frame.
#[derive(Clone, Copy, PartialEq, Eq, Structural, Debug)]
pub struct ModelParams {
    /// Number of classes.
    pub class_count: u32,
    /// Number of keypoints per detection (pose task).
    pub keypoint_count: u32,
    /// Number of mask prototype channels (segmentation task).
    pub mask_channels: u32,
    /// Fixed model input width, pixels.
    pub input_width: u32,
    /// Fixed model input height, pixels.
    pub input_height: u32,
    /// Candidates with confidence below this are dropped; `UNIT`-scaled.
    pub conf_threshold: i64,
    /// Suppression removes overlaps with IoU strictly above this; `UNIT`-scaled.
    pub iou_threshold: i64,
    /// Keypoints with confidence below this become the absent point; `UNIT`-scaled.
    pub keypoint_threshold: i64,
    /// The active task.
    pub task: Task,
}

impl ModelParams {
    /// Construction-time validity: all counts within bounds, the counts the
    /// task needs present, thresholds inside `[0, UNIT]`.
    pub open spec fn wf(self) -> bool {
        &&& 1 <= self.class_count <= MAX_CLASSES
        &&& self.keypoint_count <= MAX_KEYPOINTS
        &&& self.mask_channels <= MAX_MASK_CHANNELS
        &&& 1 <= self.input_width <= MAX_DIM
        &&& 1 <= self.input_height <= MAX_DIM
        &&& 0 <= self.conf_threshold <= UNIT
        &&& 0 <= self.iou_threshold <= UNIT
        &&& 0 <= self.keypoint_threshold <= UNIT
        &&& (self.task == Task::Pose ==> self.keypoint_count >= 1)
        &&& (self.task == Task::Segment ==> self.mask_channels >= 1)
    }

    /// Validates a parameter set, the typed replacement for aborting on a
    /// missing or inconsistent count at decode time.
    pub fn validate(&self) -> (r: Result<(), PipelineError>)
        ensures
            r is Ok <==> self.wf(),
            r is Err ==> r == Result::<(), PipelineError>::Err(PipelineError::ConfigMismatch),
    {
        if 1 <= self.class_count && self.class_count <= MAX_CLASSES
            && self.keypoint_count <= MAX_KEYPOINTS
            && self.mask_channels <= MAX_MASK_CHANNELS
            && 1 <= self.input_width && self.input_width <= MAX_DIM
            && 1 <= self.input_height && self.input_height <= MAX_DIM
            && 0 <= self.conf_threshold && self.conf_threshold <= UNIT
            && 0 <= self.iou_threshold && self.iou_threshold <= UNIT
            && 0 <= self.keypoint_threshold && self.keypoint_threshold <= UNIT
            && (!(self.task == Task::Pose) || self.keypoint_count >= 1)
            && (!(self.task == Task::Segment) || self.mask_channels >= 1)
        {
            Ok(())
        } else {
            Err(PipelineError::ConfigMismatch)
        }
    }
}

impl Default for ModelParams {
    /// The conventional defaults: 640 by 640 input, confidence cutoff 0.3,
    /// IoU cutoff 0.45, keypoint cutoff 0.55, plain detection with one class.
    fn default() -> (r: Self)
        ensures
            r.wf(),
            r.input_width == 640 && r.input_height == 640,
            r.conf_threshold == 300_000,
            r.iou_threshold == 450_000,
            r.keypoint_threshold == 550_000,
            r.task == Task::Detect,
    {
        ModelParams {
            class_count: 1,
            keypoint_count: 0,
            mask_channels: 0,
            input_width: 640,
            input_height: 640,
            conf_threshold: 300_000,
            iou_threshold: 450_000,
            keypoint_threshold: 550_000,
            task: Task::Detect,
        }
    }
}

/// `v` forced into `[lo, hi]`.
pub open spec fn clamp_spec(v: int, lo: int, hi: int) -> int {
    if v < lo {
        lo
    } else if v > hi {
        hi
    } else {
        v
    }
}

/// Exact executable counterpart of [`clamp_spec`].
pub fn clamp_i64(v: i64, lo: i64, hi: i64) -> (r: i64)
    requires
        lo <= hi,
    ensures
        r == clamp_spec(v as int, lo as int, hi as int),
{
    if v < lo {
        lo
    } else if v > hi {
        hi
    } else {
        v
    }
}

} // verus!
