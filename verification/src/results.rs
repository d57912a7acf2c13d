//! Result data types: boxes, keypoints, candidates, detections and the
//! per-image result record.
//!
//! Box and keypoint coordinates are integer numerators over a per-frame
//! denominator (see [`crate::mapper::CoordinateMapper::den`]); confidences are
//! `UNIT`-scaled fixed-point values.

use vstd::prelude::*;
use crate::params::UNIT;

verus! {

/// Upper bound on any stored coordinate numerator: the largest image side
/// times the largest per-frame denominator.
pub const COORD_LIMIT: i64 = 134_217_728;

/// An axis-aligned bounding box with its class and confidence.
///
/// `x`, `y` is the top-left corner; coordinates and sides are numerators over
/// the frame's denominator and are already clamped into the image.
#[derive(Clone, Copy, PartialEq, Eq, Structural, Debug)]
pub struct Bbox {
    pub x: i64,
    pub y: i64,
    pub width: i64,
    pub height: i64,
    pub class_id: u32,
    pub confidence: i64,
}

impl Bbox {
    /// The bounds every decoded box satisfies: non-negative, inside the
    /// coordinate range, confidence inside `[0, UNIT]`.
    pub open spec fn wf(self) -> bool {
        &&& 0 <= self.x && 0 <= self.y
        &&& 0 <= self.width && 0 <= self.height
        &&& self.x + self.width <= COORD_LIMIT
        &&& self.y + self.height <= COORD_LIMIT
        &&& 0 <= self.confidence <= UNIT
    }

    /// Exclusive right edge.
    pub open spec fn x_max(self) -> int {
        self.x + self.width
    }

    /// Exclusive bottom edge.
    pub open spec fn y_max(self) -> int {
        self.y + self.height
    }
}

/// One keypoint: position plus its own confidence. A keypoint whose
/// confidence fell below the keypoint threshold is stored as the absent
/// point, all three fields zero.
#[derive(Clone, Copy, PartialEq, Eq, Structural, Debug)]
pub struct Point2 {
    pub x: i64,
    pub y: i64,
    pub confidence: i64,
}

impl Point2 {
    /// The absent point standing in for a below-threshold keypoint.
    pub open spec fn absent_spec() -> Point2 {
        Point2 { x: 0, y: 0, confidence: 0 }
    }

    /// Builds the absent point.
    pub fn absent() -> (r: Point2)
        ensures
            r == Point2::absent_spec(),
    {
        Point2 { x: 0, y: 0, confidence: 0 }
    }
}

/// A classification embedding: one score per class, `UNIT`-scaled.
#[derive(PartialEq, Eq, Debug)]
pub struct Embedding {
    pub data: Vec<i64>,
}

/// One decoded detection proposal before suppression.
///
/// `keypoints` is empty except for the pose task, where its length is exactly
/// the configured keypoint count; `mask_coefficients` is empty except for the
/// segmentation task, where its length is the configured channel count.
#[derive(Debug)]
pub struct Candidate {
    pub bbox: Bbox,
    pub keypoints: Vec<Point2>,
    pub mask_coefficients: Vec<i64>,
}

/// The mathematical value of a [`Candidate`].
#[verifier::ext_equal]
pub ghost struct CandView {
    pub bbox: Bbox,
    pub keypoints: Seq<Point2>,
    pub mask_coefficients: Seq<i64>,
}

impl View for Candidate {
    type V = CandView;

    open spec fn view(&self) -> CandView {
        CandView {
            bbox: self.bbox,
            keypoints: self.keypoints@,
            mask_coefficients: self.mask_coefficients@,
        }
    }
}

/// The views of a sequence of candidates.
pub open spec fn cands_view(s: Seq<Candidate>) -> Seq<CandView> {
    s.map_values(|c: Candidate| c@)
}

/// A kept detection: a candidate that survived suppression, with its
/// reconstructed mask when the segmentation task ran (one byte per original
/// image pixel, zero outside the detection's own box), empty otherwise.
#[derive(Debug)]
pub struct Detection {
    pub bbox: Bbox,
    pub keypoints: Vec<Point2>,
    pub mask: Vec<u8>,
}

/// The mathematical value of a [`Detection`].
#[verifier::ext_equal]
pub ghost struct DetView {
    pub bbox: Bbox,
    pub keypoints: Seq<Point2>,
    pub mask: Seq<u8>,
}

impl View for Detection {
    type V = DetView;

    open spec fn view(&self) -> DetView {
        DetView { bbox: self.bbox, keypoints: self.keypoints@, mask: self.mask@ }
    }
}

/// Everything decoded from one image: an embedding for the classification
/// task, otherwise the suppressed detections. An empty detection list is a
/// valid outcome, distinct from an error.
#[derive(Debug)]
pub struct YOLOResult {
    /// Class scores; present exactly for the classification task.
    pub probs: Option<Embedding>,
    /// Kept detections, in selection order (non-increasing confidence).
    pub detections: Vec<Detection>,
    /// Denominator of all coordinates in `detections` for this frame.
    pub coord_den: i64,
}

} // verus!
