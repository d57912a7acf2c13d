//! The per-frame pipeline: raw output tensors in, a result per image out.
//!
//! Decoding is a pure transform of the tensors and the read-only model
//! parameters. A tensor whose rank or dimensions do not match the active
//! task is a fatal decode failure for the frame; an empty candidate list
//! after filtering or suppression is a valid, non-error outcome.

use vstd::prelude::*;
use crate::params::{ModelParams, Task, PipelineError, VAL_LIMIT, MAX_DIM};
use crate::mapper::{CoordinateMapper, mapper_for};
use crate::results::{Candidate, CandView, cands_view, Detection, DetView, YOLOResult};
use crate::tensor::Tensor;
use crate::decode::{decode_image, decode_embedding, decode_spec, expected_channels,
    expected_channels_exec};
use crate::nms::{non_max_suppression, nms_spec};
use crate::mask::{reconstruct_mask, mask_spec};

verus! {

/// Every per-image size is a valid image dimension pair.
pub open spec fn sizes_ok(sizes: Seq<(u32, u32)>) -> bool {
    forall|i: int|
        0 <= i < sizes.len() ==> 1 <= (#[trigger] sizes[i]).0 <= MAX_DIM && 1 <= sizes[i].1
            <= MAX_DIM
}

/// The tensors fit the active task and the configured counts: the exact
/// condition under which a frame decodes.
pub open spec fn shapes_ok(p: ModelParams, preds: Tensor, protos: Option<&Tensor>,
    sizes: Seq<(u32, u32)>) -> bool {
    &&& sizes_ok(sizes)
    &&& sizes.len() >= 1
    &&& if p.task == Task::Classify {
        &&& preds.dims@.len() == 2
        &&& preds.dims@[0] == sizes.len()
    } else {
        &&& preds.dims@.len() == 3
        &&& preds.dims@[0] == sizes.len()
        &&& preds.dims@[1] == expected_channels(p)
        &&& (p.task == Task::Segment ==> match protos {
            Some(t) => {
                &&& t.dims@.len() == 4
                &&& t.dims@[0] == preds.dims@[0]
                &&& t.dims@[1] == p.mask_channels
                &&& t.dims@[2] <= MAX_DIM
                &&& t.dims@[3] <= MAX_DIM
            },
            None => false,
        })
    }
}

/// The letterbox mapper of image `i` of the batch.
pub open spec fn image_mapper(p: ModelParams, sizes: Seq<(u32, u32)>, i: int)
    -> CoordinateMapper {
    mapper_for(sizes[i].0, sizes[i].1, p.input_width, p.input_height)
}

/// The detections kept for image `i`: its decoded candidates after greedy
/// suppression.
pub open spec fn kept_spec(preds: Tensor, p: ModelParams, sizes: Seq<(u32, u32)>, i: int)
    -> Seq<CandView> {
    nms_spec(decode_spec(preds, i, p, image_mapper(p, sizes, i)), p.iou_threshold as int,
        false)
}

/// The mask a kept candidate receives: reconstructed from the prototype
/// tensor for the segmentation task, empty otherwise.
pub open spec fn mask_for(c: CandView, protos: Option<&Tensor>, p: ModelParams,
    m: CoordinateMapper, i: int) -> Seq<u8> {
    if p.task == Task::Segment {
        match protos {
            Some(t) => mask_spec(c.mask_coefficients, *t, i, m, c.bbox, true),
            None => Seq::empty(),
        }
    } else {
        Seq::empty()
    }
}

/// A produced detection carries exactly its kept candidate's box and
/// keypoints, and the candidate's mask.
pub open spec fn det_matches(d: DetView, c: CandView, protos: Option<&Tensor>, p: ModelParams,
    m: CoordinateMapper, i: int) -> bool {
    &&& d.bbox == c.bbox
    &&& d.keypoints == c.keypoints
    &&& d.mask == mask_for(c, protos, p, m, i)
}

/// What the result of image `i` holds: the embedding for the classification
/// task, otherwise exactly the kept detections in selection order, with
/// their coordinates over the frame denominator.
pub open spec fn image_ok(res: YOLOResult, preds: Tensor, protos: Option<&Tensor>,
    p: ModelParams, sizes: Seq<(u32, u32)>, i: int) -> bool {
    if p.task == Task::Classify {
        &&& match res.probs {
            Some(e) => {
                &&& e.data@.len() == preds.dims@[1]
                &&& forall|j: int|
                    0 <= j < e.data@.len() ==> #[trigger] e.data@[j] == preds.val2(i, j)
            },
            None => false,
        }
        &&& res.detections@.len() == 0
        &&& res.coord_den == 1
    } else {
        let m = image_mapper(p, sizes, i);
        let kept = kept_spec(preds, p, sizes, i);
        &&& res.probs is None
        &&& res.coord_den == m.den()
        &&& res.detections@.len() == kept.len()
        &&& forall|j: int|
            0 <= j < kept.len() ==> det_matches((#[trigger] res.detections@[j])@, kept[j],
                protos, p, m, i)
    }
}

/// Box clamping carries through suppression: every kept detection of an
/// image still lies inside that image.
pub proof fn lemma_kept_boxes_clamped(preds: Tensor, p: ModelParams, sizes: Seq<(u32, u32)>,
    i: int)
    requires
        image_mapper(p, sizes, i).wf(),
    ensures
        forall|j: int|
            0 <= j < kept_spec(preds, p, sizes, i).len() ==> {
                let m = image_mapper(p, sizes, i);
                let b = (#[trigger] kept_spec(preds, p, sizes, i)[j]).bbox;
                0 <= b.x && 0 <= b.y && 0 <= b.width && 0 <= b.height
                    && b.x + b.width <= m.orig_w as int * m.den()
                    && b.y + b.height <= m.orig_h as int * m.den()
            },
{
    let m = image_mapper(p, sizes, i);
    let decoded = decode_spec(preds, i, p, m);
    crate::decode::lemma_boxes_clamped(preds, i, p, m, preds.dims@[2] as int);
    crate::nms::lemma_nms_elements(decoded, p.iou_threshold as int, false);
    assert forall|j: int| 0 <= j < kept_spec(preds, p, sizes, i).len() implies {
        let b = (#[trigger] kept_spec(preds, p, sizes, i)[j]).bbox;
        0 <= b.x && 0 <= b.y && 0 <= b.width && 0 <= b.height
            && b.x + b.width <= m.orig_w as int * m.den()
            && b.y + b.height <= m.orig_h as int * m.den()
    } by {
        let q = choose|q: int|
            0 <= q < decoded.len() && kept_spec(preds, p, sizes, i)[j] == decoded[q];
    }
}

impl ModelParams {
    /// The letterbox scale of a `w0 x h0` image on a `w1 x h1` canvas: the
    /// ratio `min(w1 / w0, h1 / h0)` as the exact fraction
    /// `(numerator, denominator)`, and the rounded scaled content size.
    pub fn scale_wh(&self, w0: u32, h0: u32, w1: u32, h1: u32) -> (r: ((u32, u32), u32, u32))
        requires
            1 <= w0 <= MAX_DIM,
            1 <= h0 <= MAX_DIM,
            1 <= w1 <= MAX_DIM,
            1 <= h1 <= MAX_DIM,
        ensures
            ({
                let m = mapper_for(w0, h0, w1, h1);
                r == ((m.ratio_num, m.ratio_den), m.scaled_w, m.scaled_h)
            }),
    {
        let m = CoordinateMapper::new(w0, h0, w1, h1);
        ((m.ratio_num, m.ratio_den), m.scaled_w, m.scaled_h)
    }

    /// Turns one frame's raw output tensors into per-image results.
    ///
    /// `orig_sizes` holds each image's original `(width, height)`. Succeeds
    /// if and only if the tensors and sizes fit the task ([`shapes_ok`]);
    /// a failure is `ShapeError` and produces no partial result.
    pub fn postprocess(&self, preds: &Tensor, protos: Option<&Tensor>,
        orig_sizes: &Vec<(u32, u32)>) -> (r: Result<Vec<YOLOResult>, PipelineError>)
        requires
            self.wf(),
            preds.wf(),
            match protos {
                Some(t) => t.wf(),
                None => true,
            },
        ensures
            r is Ok <==> shapes_ok(*self, *preds, protos, orig_sizes@),
            match r {
                Ok(rs) => {
                    &&& rs@.len() == orig_sizes@.len()
                    &&& forall|i: int|
                        0 <= i < rs@.len() ==> image_ok(#[trigger] rs@[i], *preds, protos,
                            *self, orig_sizes@, i)
                },
                Err(e) => e == PipelineError::ShapeError,
            },
    {
        let batch = orig_sizes.len();
        if batch < 1 {
            return Err(PipelineError::ShapeError);
        }
        let mut si: usize = 0;
        while si < batch
            invariant
                batch == orig_sizes@.len(),
                si <= batch,
                forall|i: int|
                    0 <= i < si ==> 1 <= (#[trigger] orig_sizes@[i]).0 <= MAX_DIM
                        && 1 <= orig_sizes@[i].1 <= MAX_DIM,
            decreases batch - si,
        {
            let (w0, h0) = orig_sizes[si];
            if w0 < 1 || w0 > MAX_DIM || h0 < 1 || h0 > MAX_DIM {
                return Err(PipelineError::ShapeError);
            }
            si += 1;
        }
        if self.task == Task::Classify {
            if preds.rank() != 2 || preds.dim(0) != (batch as u64) {
                return Err(PipelineError::ShapeError);
            }
            let mut results: Vec<YOLOResult> = Vec::new();
            let mut bi: usize = 0;
            while bi < batch
                invariant
                    self.wf(),
                    preds.wf(),
                    self.task == Task::Classify,
                    batch == orig_sizes@.len(),
                    preds.dims@.len() == 2,
                    preds.dims@[0] == batch,
                    bi <= batch,
                    results@.len() == bi,
                    forall|i: int|
                        0 <= i < results@.len() ==> image_ok(#[trigger] results@[i], *preds,
                            protos, *self, orig_sizes@, i),
                decreases batch - bi,
            {
                let emb = decode_embedding(preds, bi);
                results.push(YOLOResult { probs: Some(emb), detections: Vec::new(),
                    coord_den: 1 });
                bi += 1;
            }
            return Ok(results);
        }
        // Detection-family tasks.
        if preds.rank() != 3 || preds.dim(0) != (batch as u64) || preds.dim(1)
            != expected_channels_exec(self) {
            return Err(PipelineError::ShapeError);
        }
        if self.task == Task::Segment {
            match protos {
                None => {
                    return Err(PipelineError::ShapeError);
                },
                Some(pt) => {
                    if pt.rank() != 4 || pt.dim(0) != (batch as u64) || pt.dim(1)
                        != (self.mask_channels as u64) || pt.dim(2) > (MAX_DIM as u64)
                        || pt.dim(3) > (MAX_DIM as u64) {
                        return Err(PipelineError::ShapeError);
                    }
                },
            }
        }
        let mut results: Vec<YOLOResult> = Vec::new();
        let mut bi: usize = 0;
        while bi < batch
            invariant
                self.wf(),
                preds.wf(),
                match protos {
                    Some(t) => t.wf(),
                    None => true,
                },
                self.task != Task::Classify,
                batch == orig_sizes@.len(),
                batch >= 1,
                sizes_ok(orig_sizes@),
                preds.dims@.len() == 3,
                preds.dims@[0] == batch,
                preds.dims@[1] == expected_channels(*self),
                self.task == Task::Segment ==> match protos {
                    Some(t) => {
                        &&& t.dims@.len() == 4
                        &&& t.dims@[0] == batch
                        &&& t.dims@[1] == self.mask_channels
                        &&& t.dims@[2] <= MAX_DIM
                        &&& t.dims@[3] <= MAX_DIM
                    },
                    None => false,
                },
                bi <= batch,
                results@.len() == bi,
                forall|i: int|
                    0 <= i < results@.len() ==> image_ok(#[trigger] results@[i], *preds, protos,
                        *self, orig_sizes@, i),
            decreases batch - bi,
        {
            let (w0, h0) = orig_sizes[bi];
            let mapper = CoordinateMapper::new(w0, h0, self.input_width, self.input_height);
            proof {
                assert(mapper == image_mapper(*self, orig_sizes@, bi as int));
            }
            let mut cands: Vec<Candidate> = decode_image(preds, bi, self, &mapper);
            let ghost pre_nms: Seq<Candidate> = cands@;
            non_max_suppression(&mut cands, self.iou_threshold);
            let ghost post_nms: Seq<Candidate> = cands@;
            let ghost kept: Seq<CandView> = kept_spec(*preds, *self, orig_sizes@, bi as int);
            proof {
                assert(cands_view(post_nms) == kept);
            }
            let den: i64 = 2 * (mapper.ratio_num as i64);
            let total = cands.len();
            let mut dets: Vec<Detection> = Vec::new();
            proof {
                assert(cands@ =~= post_nms.skip(0));
            }
            while cands.len() > 0
                invariant
                    self.wf(),
                    preds.wf(),
                    match protos {
                        Some(t) => t.wf(),
                        None => true,
                    },
                    self.task != Task::Classify,
                    bi < batch,
                    batch == orig_sizes@.len(),
                    sizes_ok(orig_sizes@),
                    preds.dims@.len() == 3,
                    preds.dims@[0] == batch,
                    preds.dims@[1] == expected_channels(*self),
                    self.task == Task::Segment ==> match protos {
                        Some(t) => {
                            &&& t.dims@.len() == 4
                            &&& t.dims@[0] == batch
                            &&& t.dims@[1] == self.mask_channels
                            &&& t.dims@[2] <= MAX_DIM
                            &&& t.dims@[3] <= MAX_DIM
                        },
                        None => false,
                    },
                    mapper.wf(),
                    mapper == image_mapper(*self, orig_sizes@, bi as int),
                    den == mapper.den(),
                    kept == kept_spec(*preds, *self, orig_sizes@, bi as int),
                    cands_view(post_nms) == kept,
                    total == post_nms.len(),
                    // Facts carried over from decoding, through suppression.
                    forall|q: int|
                        0 <= q < post_nms.len() ==> (#[trigger] post_nms[q]).bbox.wf(),
                    forall|q: int|
                        0 <= q < post_nms.len() ==> exists|x: int|
                            0 <= x < pre_nms.len() && (#[trigger] post_nms[q])@ == pre_nms[x]@,
                    forall|x: int|
                        0 <= x < pre_nms.len() ==> (#[trigger] pre_nms[x]).mask_coefficients@
                            .len() == (if self.task == Task::Segment {
                            self.mask_channels as int
                        } else {
                            0
                        }),
                    forall|x: int, k: int|
                        0 <= x < pre_nms.len() && 0 <= k < pre_nms[x].mask_coefficients@.len()
                            ==> -VAL_LIMIT <= #[trigger] pre_nms[x].mask_coefficients@[k]
                                <= VAL_LIMIT,
                    cands@.len() <= total,
                    cands@ == post_nms.skip(total - cands@.len()),
                    dets@.len() == total - cands@.len(),
                    forall|q: int|
                        0 <= q < dets@.len() ==> det_matches((#[trigger] dets@[q])@, kept[q],
                            protos, *self, mapper, bi as int),
                decreases cands@.len(),
            {
                let ghost j: int = total - cands@.len();
                let ghost before = cands@;
                let c = cands.remove(0);
                proof {
                    assert(before[0] == post_nms.skip(j)[0]);
                    assert(c == post_nms[j]);
                    assert forall|q: int| 0 <= q < cands@.len() implies cands@[q]
                        == post_nms.skip(j + 1)[q] by {
                        assert(cands@[q] == before[q + 1]);
                        assert(before[q + 1] == post_nms.skip(j)[q + 1]);
                        assert(post_nms.skip(j)[q + 1] == post_nms[j + 1 + q]);
                        assert(post_nms.skip(j + 1)[q] == post_nms[j + 1 + q]);
                    }
                    assert(cands@ =~= post_nms.skip(j + 1));
                    assert(c@ == cands_view(post_nms)[j]);
                    assert(c@ == kept[j]);
                }
                let mask: Vec<u8> = if self.task == Task::Segment {
                    match protos {
                        Some(pt) => {
                            proof {
                                let x = choose|x: int|
                                    0 <= x < pre_nms.len() && post_nms[j]@ == pre_nms[x]@;
                                assert(c.mask_coefficients@ == pre_nms[x].mask_coefficients@);
                            }
                            match reconstruct_mask(&c.mask_coefficients, pt, bi, &mapper,
                                &c.bbox, true) {
                                Ok(mk) => mk,
                                Err(_) => {
                                    // Unreachable: the coefficient count was
                                    // fixed by the decoder to the checked
                                    // prototype channel count.
                                    return Err(PipelineError::ShapeError);
                                },
                            }
                        },
                        None => {
                            return Err(PipelineError::ShapeError);
                        },
                    }
                } else {
                    Vec::new()
                };
                let det = Detection { bbox: c.bbox, keypoints: c.keypoints, mask };
                dets.push(det);
            }
            proof {
                assert(dets@.len() == kept.len());
            }
            results.push(YOLOResult { probs: None, detections: dets, coord_den: den });
            bi += 1;
        }
        Ok(results)
    }
}

} // verus!
