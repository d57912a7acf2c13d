//! Post-processing for object-detection model output: exact integer models of
//! the letterbox coordinate transform, candidate decoding, greedy
//! non-maximum suppression, and prototype-based mask reconstruction.
//!
//! All geometry is carried as exact rational numbers: a frame's box and
//! keypoint coordinates are integer numerators over one per-frame denominator
//! chosen by the [`mapper::CoordinateMapper`]. Confidences and thresholds are
//! fixed-point integers with [`params::UNIT`] standing for 1.0.

pub mod params;
pub mod mapper;
pub mod results;
pub mod tensor;
pub mod nms;
pub mod decode;
pub mod mask;
pub mod pipeline;
pub mod csvfield;

pub use params::{Task, ModelParams, PipelineError, UNIT, VAL_LIMIT, MAX_DIM};
pub use mapper::CoordinateMapper;
pub use results::{Bbox, Point2, Embedding, Candidate, Detection, YOLOResult};
pub use tensor::Tensor;
pub use nms::non_max_suppression;
pub use csvfield::{CsvConverter, FieldValue};
