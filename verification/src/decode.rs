//! The decoder: turns one image's slice of the raw output tensor into
//! image-space candidates.
//!
//! Per anchor the channel vector splits into the box (centre x, centre y,
//! width, height in model space), the class scores, and the task's trailing
//! block (keypoint triples or mask coefficients). The class is the first
//! index attaining the maximum score; anchors whose best score is below the
//! confidence threshold are dropped. Boxes and keypoints are mapped back into
//! the original image through the inverse letterbox transform and clamped to
//! the image; coordinates come out as numerators over the frame denominator
//! [`CoordinateMapper::den`].

use vstd::prelude::*;
use crate::params::{ModelParams, Task, UNIT, VAL_LIMIT, clamp_spec, clamp_i64};
use crate::mapper::CoordinateMapper;
use crate::results::{Bbox, Point2, Candidate, CandView, cands_view, Embedding, COORD_LIMIT};
use crate::tensor::Tensor;

verus! {

/// Channel count the primary output tensor must have for the task.
pub open spec fn expected_channels(p: ModelParams) -> int {
    4 + p.class_count + (if p.task == Task::Pose {
        3 * p.keypoint_count as int
    } else if p.task == Task::Segment {
        p.mask_channels as int
    } else {
        0
    })
}

/// Computes [`expected_channels`].
pub fn expected_channels_exec(p: &ModelParams) -> (r: u64)
    requires
        p.wf(),
    ensures
        r == expected_channels(*p),
{
    4 + (p.class_count as u64) + (if p.task == Task::Pose {
        3 * (p.keypoint_count as u64)
    } else if p.task == Task::Segment {
        p.mask_channels as u64
    } else {
        0
    })
}

/// Index of the first class among `0 .. n` attaining the maximum score of
/// anchor `a`: a later class wins only with a strictly greater score.
pub open spec fn best_class_upto(t: Tensor, bi: int, a: int, n: int) -> int
    decreases n,
{
    if n <= 1 {
        0
    } else {
        let b = best_class_upto(t, bi, a, n - 1);
        if t.val3(bi, 4 + (n - 1), a) > t.val3(bi, 4 + b, a) {
            n - 1
        } else {
            b
        }
    }
}

/// The chosen class is in range and attains the maximum score.
pub proof fn lemma_best_class_upto(t: Tensor, bi: int, a: int, n: int)
    requires
        1 <= n,
    ensures
        0 <= best_class_upto(t, bi, a, n) < n,
        forall|k: int|
            0 <= k < n ==> #[trigger] t.val3(bi, 4 + k, a) <= t.val3(bi, 4 + best_class_upto(
                t, bi, a, n), a),
    decreases n,
{
    if n > 1 {
        lemma_best_class_upto(t, bi, a, n - 1);
    }
}

/// Anchor `a` passes the confidence cutoff: dropping the others is the
/// normal filtering path, not an error.
pub open spec fn anchor_kept(t: Tensor, bi: int, p: ModelParams, a: int) -> bool {
    t.val3(bi, 4 + best_class_upto(t, bi, a, p.class_count as int), a) >= p.conf_threshold
}

/// The image-space box of anchor `a`: centre and size divided by the scale
/// ratio (the pad offset shifts only the position), corner derived as centre
/// minus half the size, then clamped so the box never leaves the image, the
/// sides shrinking at the clamped edge. Coordinates are numerators over
/// `m.den()`.
pub open spec fn box_of_anchor(t: Tensor, bi: int, p: ModelParams, m: CoordinateMapper, a: int)
    -> Bbox {
    let rd = m.ratio_den as int;
    let cx = t.val3(bi, 0, a);
    let cy = t.val3(bi, 1, a);
    let w = t.val3(bi, 2, a);
    let h = t.val3(bi, 3, a);
    let bx = m.orig_w as int * m.den();
    let by = m.orig_h as int * m.den();
    let x = clamp_spec(2 * (cx - m.pad_x) * rd - w * rd, 0, bx);
    let y = clamp_spec(2 * (cy - m.pad_y) * rd - h * rd, 0, by);
    let wc = clamp_spec(2 * w * rd, 0, bx - x);
    let hc = clamp_spec(2 * h * rd, 0, by - y);
    let ci = best_class_upto(t, bi, a, p.class_count as int);
    Bbox {
        x: x as i64,
        y: y as i64,
        width: wc as i64,
        height: hc as i64,
        class_id: ci as u32,
        confidence: clamp_spec(t.val3(bi, 4 + ci, a), 0, UNIT as int) as i64,
    }
}

/// Keypoint `i` of anchor `a`: position inverse-transformed and clamped into
/// the image; a keypoint below the keypoint threshold becomes the absent
/// point rather than being dropped, so the list length is always the
/// configured keypoint count.
pub open spec fn keypoint_of(t: Tensor, bi: int, p: ModelParams, m: CoordinateMapper, a: int,
    i: int) -> Point2 {
    let base = 4 + p.class_count as int + 3 * i;
    let kx = t.val3(bi, base, a);
    let ky = t.val3(bi, base + 1, a);
    let kc = t.val3(bi, base + 2, a);
    if kc < p.keypoint_threshold {
        Point2::absent_spec()
    } else {
        Point2 {
            x: clamp_spec(2 * (kx - m.pad_x) * m.ratio_den, 0, m.orig_w as int * m.den()) as i64,
            y: clamp_spec(2 * (ky - m.pad_y) * m.ratio_den, 0, m.orig_h as int * m.den()) as i64,
            confidence: clamp_spec(kc, 0, UNIT as int) as i64,
        }
    }
}

/// Mask coefficient `k` of anchor `a`, copied verbatim: no geometric
/// transform applies to coefficients.
pub open spec fn coefficient_of(t: Tensor, bi: int, p: ModelParams, a: int, k: int) -> i64 {
    t.val3(bi, 4 + p.class_count as int + k, a) as i64
}

/// The full candidate decoded from anchor `a`.
pub open spec fn cand_of_anchor(t: Tensor, bi: int, p: ModelParams, m: CoordinateMapper, a: int)
    -> CandView {
    CandView {
        bbox: box_of_anchor(t, bi, p, m, a),
        keypoints: if p.task == Task::Pose {
            Seq::new(p.keypoint_count as nat, |i: int| keypoint_of(t, bi, p, m, a, i))
        } else {
            Seq::empty()
        },
        mask_coefficients: if p.task == Task::Segment {
            Seq::new(p.mask_channels as nat, |k: int| coefficient_of(t, bi, p, a, k))
        } else {
            Seq::empty()
        },
    }
}

/// The candidates of anchors `0 .. n` that pass the confidence cutoff, in
/// anchor order.
pub open spec fn decode_upto(t: Tensor, bi: int, p: ModelParams, m: CoordinateMapper, n: int)
    -> Seq<CandView>
    decreases n,
{
    if n <= 0 {
        Seq::empty()
    } else {
        decode_upto(t, bi, p, m, n - 1) + (if anchor_kept(t, bi, p, n - 1) {
            seq![cand_of_anchor(t, bi, p, m, n - 1)]
        } else {
            Seq::empty()
        })
    }
}

/// The decoded candidate list of one image: all anchors of the tensor.
pub open spec fn decode_spec(t: Tensor, bi: int, p: ModelParams, m: CoordinateMapper)
    -> Seq<CandView> {
    decode_upto(t, bi, p, m, t.dims@[2] as int)
}

/// Every product of the box arithmetic stays inside `i64`.
proof fn lemma_box_products_fit(c: int, v: int, pad: int, rd: int, side: int, rn: int)
    requires
        -VAL_LIMIT <= c <= VAL_LIMIT,
        -VAL_LIMIT <= v <= VAL_LIMIT,
        0 <= pad <= 8192,
        1 <= rd <= 8192,
        1 <= rn <= 8192,
        1 <= side <= 8192,
    ensures
        -0x200_0000_0000 <= 2 * (c - pad) * rd <= 0x200_0000_0000,
        -0x200_0000_0000 <= 2 * v * rd <= 0x200_0000_0000,
        -0x200_0000_0000 <= v * rd <= 0x200_0000_0000,
        0 < side * (2 * rn) <= 0x800_0000,
{
    assert(-0x200_0000_0000 <= 2 * (c - pad) * rd <= 0x200_0000_0000
        && -0x200_0000_0000 <= 2 * v * rd <= 0x200_0000_0000
        && -0x200_0000_0000 <= v * rd <= 0x200_0000_0000
        && 0 < side * (2 * rn) <= 0x800_0000) by (nonlinear_arith)
        requires
            -0x100_0000 <= c <= 0x100_0000,
            -0x100_0000 <= v <= 0x100_0000,
            0 <= pad <= 8192,
            1 <= rd <= 8192,
            1 <= rn <= 8192,
            1 <= side <= 8192,
    ;
}

/// Every decoded candidate passed the confidence cutoff: a candidate whose
/// best class score is below the configured threshold never appears in the
/// decoder's output.
pub proof fn lemma_confidence_cutoff(t: Tensor, bi: int, p: ModelParams, m: CoordinateMapper,
    n: int)
    requires
        p.wf(),
    ensures
        forall|k: int|
            0 <= k < decode_upto(t, bi, p, m, n).len()
                ==> (#[trigger] decode_upto(t, bi, p, m, n)[k]).bbox.confidence
                    >= p.conf_threshold,
    decreases n,
{
    if n > 0 {
        lemma_confidence_cutoff(t, bi, p, m, n - 1);
        let prev = decode_upto(t, bi, p, m, n - 1);
        let whole = decode_upto(t, bi, p, m, n);
        assert forall|k: int| 0 <= k < whole.len() implies (#[trigger] whole[k]).bbox.confidence
            >= p.conf_threshold by {
            if k < prev.len() {
                assert(whole[k] == prev[k]);
            } else {
                assert(anchor_kept(t, bi, p, n - 1));
                assert(whole[k] == cand_of_anchor(t, bi, p, m, n - 1));
            }
        }
    }
}

/// Every decoded box is clamped into the image: corner non-negative, sides
/// non-negative, and the box never reaches past the image's width or height
/// (in units of the frame denominator).
pub proof fn lemma_boxes_clamped(t: Tensor, bi: int, p: ModelParams, m: CoordinateMapper, n: int)
    requires
        m.wf(),
    ensures
        forall|k: int|
            0 <= k < decode_upto(t, bi, p, m, n).len() ==> {
                let b = (#[trigger] decode_upto(t, bi, p, m, n)[k]).bbox;
                0 <= b.x && 0 <= b.y && 0 <= b.width && 0 <= b.height
                    && b.x + b.width <= m.orig_w as int * m.den()
                    && b.y + b.height <= m.orig_h as int * m.den()
            },
    decreases n,
{
    assert(0 <= m.orig_w as int * m.den() <= 0x800_0000
        && 0 <= m.orig_h as int * m.den() <= 0x800_0000) by (nonlinear_arith)
        requires
            1 <= m.orig_w as int <= 8192,
            1 <= m.orig_h as int <= 8192,
            m.den() == 2 * m.ratio_num as int,
            1 <= m.ratio_num as int <= 8192,
    ;
    if n > 0 {
        lemma_boxes_clamped(t, bi, p, m, n - 1);
        let prev = decode_upto(t, bi, p, m, n - 1);
        let whole = decode_upto(t, bi, p, m, n);
        assert forall|k: int| 0 <= k < whole.len() implies {
            let b = (#[trigger] whole[k]).bbox;
            0 <= b.x && 0 <= b.y && 0 <= b.width && 0 <= b.height
                && b.x + b.width <= m.orig_w as int * m.den()
                && b.y + b.height <= m.orig_h as int * m.den()
        } by {
            if k < prev.len() {
                assert(whole[k] == prev[k]);
            } else {
                assert(whole[k] == cand_of_anchor(t, bi, p, m, n - 1));
            }
        }
    }
}

/// Decodes one image's anchors into candidates, already mapped to image
/// space and filtered by the confidence threshold.
///
/// The result is exactly [`decode_spec`]; in particular every candidate's
/// confidence is at least the threshold, and every box lies inside the
/// image: `0 <= x`, `0 <= y`, `0 <= width`, `0 <= height`,
/// `x + width <= orig_w * den`, `y + height <= orig_h * den`.
pub fn decode_image(preds: &Tensor, batch_idx: usize, params: &ModelParams,
    mapper: &CoordinateMapper) -> (r: Vec<Candidate>)
    requires
        params.wf(),
        mapper.wf(),
        mapper.model_w == params.input_width,
        mapper.model_h == params.input_height,
        preds.wf(),
        preds.dims@.len() == 3,
        batch_idx < preds.dims@[0],
        preds.dims@[1] == expected_channels(*params),
        params.task != Task::Classify,
    ensures
        cands_view(r@) == decode_spec(*preds, batch_idx as int, *params, *mapper),
        forall|i: int| 0 <= i < r@.len() ==> (#[trigger] r@[i]).bbox.wf(),
        forall|i: int|
            0 <= i < r@.len() ==> (#[trigger] r@[i]).bbox.class_id < params.class_count,
        forall|i: int|
            0 <= i < r@.len() ==> (#[trigger] r@[i]).mask_coefficients@.len() == (
            if params.task == Task::Segment {
                params.mask_channels as int
            } else {
                0
            }),
        forall|i: int|
            0 <= i < r@.len() ==> (#[trigger] r@[i]).keypoints@.len() == (
            if params.task == Task::Pose {
                params.keypoint_count as int
            } else {
                0
            }),
        forall|i: int, k: int|
            0 <= i < r@.len() && 0 <= k < r@[i].mask_coefficients@.len()
                ==> -VAL_LIMIT <= #[trigger] r@[i].mask_coefficients@[k] <= VAL_LIMIT,
        forall|i: int|
            0 <= i < r@.len() ==> (#[trigger] r@[i]).bbox.confidence >= params.conf_threshold,
        forall|i: int|
            0 <= i < r@.len() ==> {
                let b = (#[trigger] r@[i]).bbox;
                0 <= b.x && 0 <= b.y && 0 <= b.width && 0 <= b.height
                    && b.x + b.width <= mapper.orig_w as int * mapper.den()
                    && b.y + b.height <= mapper.orig_h as int * mapper.den()
            },
{
    let ghost t = *preds;
    let ghost p = *params;
    let ghost m = *mapper;
    let ghost bi = batch_idx as int;
    let anchors = preds.dim(2);
    let nc: usize = params.class_count as usize;
    let rd: i64 = mapper.ratio_den as i64;
    let den: i64 = 2 * (mapper.ratio_num as i64);
    proof {
        lemma_box_products_fit(0, 0, mapper.pad_x as int, rd as int, mapper.orig_w as int,
            mapper.ratio_num as int);
        lemma_box_products_fit(0, 0, mapper.pad_y as int, rd as int, mapper.orig_h as int,
            mapper.ratio_num as int);
    }
    let bx: i64 = (mapper.orig_w as i64) * den;
    let by: i64 = (mapper.orig_h as i64) * den;
    let mut out: Vec<Candidate> = Vec::new();
    let mut a: usize = 0;
    proof {
        assert(cands_view(out@) =~= decode_upto(t, bi, p, m, 0));
    }
    while (a as u64) < anchors
        invariant
            params.wf(),
            mapper.wf(),
            mapper.model_w == params.input_width,
            mapper.model_h == params.input_height,
            preds.wf(),
            preds.dims@.len() == 3,
            batch_idx < preds.dims@[0],
            preds.dims@[1] == expected_channels(*params),
            params.task != Task::Classify,
            t == *preds && p == *params && m == *mapper && bi == batch_idx as int,
            anchors == preds.dims@[2],
            nc == params.class_count,
            rd == mapper.ratio_den,
            den == m.den(),
            bx == mapper.orig_w as int * m.den(),
            by == mapper.orig_h as int * m.den(),
            0 < bx <= COORD_LIMIT,
            0 < by <= COORD_LIMIT,
            a as int <= anchors as int,
            cands_view(out@) == decode_upto(t, bi, p, m, a as int),
            forall|i: int| 0 <= i < out@.len() ==> (#[trigger] out@[i]).bbox.wf(),
            forall|i: int|
                0 <= i < out@.len() ==> (#[trigger] out@[i]).bbox.class_id
                    < params.class_count,
            forall|i: int|
                0 <= i < out@.len() ==> (#[trigger] out@[i]).bbox.confidence
                    >= params.conf_threshold,
            forall|i: int|
                0 <= i < out@.len() ==> {
                    let b = (#[trigger] out@[i]).bbox;
                    0 <= b.x && 0 <= b.y && 0 <= b.width && 0 <= b.height
                        && b.x + b.width <= bx && b.y + b.height <= by
                },
            forall|i: int|
                0 <= i < out@.len() ==> (#[trigger] out@[i]).mask_coefficients@.len() == (
                if params.task == Task::Segment {
                    params.mask_channels as int
                } else {
                    0
                }),
            forall|i: int|
                0 <= i < out@.len() ==> (#[trigger] out@[i]).keypoints@.len() == (
                if params.task == Task::Pose {
                    params.keypoint_count as int
                } else {
                    0
                }),
            forall|i: int, k: int|
                0 <= i < out@.len() && 0 <= k < out@[i].mask_coefficients@.len()
                    ==> -VAL_LIMIT <= #[trigger] out@[i].mask_coefficients@[k] <= VAL_LIMIT,
        decreases anchors as int - a as int,
    {
        let ghost out_before = out@;
        // Class with the maximum score, earliest on ties.
        let mut best: usize = 0;
        let mut j: usize = 1;
        while j < nc
            invariant
                preds.wf(),
                preds.dims@.len() == 3,
                batch_idx < preds.dims@[0],
                nc == params.class_count,
                4 + nc as int <= preds.dims@[1],
                (a as u64) < preds.dims@[2],
                t == *preds && bi == batch_idx as int,
                1 <= j <= nc,
                best < j,
                best as int == best_class_upto(t, bi, a as int, j as int),
            decreases nc - j,
        {
            if preds.at3(batch_idx, 4 + j, a) > preds.at3(batch_idx, 4 + best, a) {
                best = j;
            }
            j += 1;
        }
        proof {
            lemma_best_class_upto(t, bi, a as int, nc as int);
        }
        let raw = preds.at3(batch_idx, 4 + best, a);
        if raw >= params.conf_threshold {
            let cx = preds.at3(batch_idx, 0, a);
            let cy = preds.at3(batch_idx, 1, a);
            let w = preds.at3(batch_idx, 2, a);
            let h = preds.at3(batch_idx, 3, a);
            let padx: i64 = mapper.pad_x as i64;
            let pady: i64 = mapper.pad_y as i64;
            proof {
                lemma_box_products_fit(cx as int, w as int, mapper.pad_x as int, rd as int,
                    mapper.orig_w as int, mapper.ratio_num as int);
                lemma_box_products_fit(cy as int, h as int, mapper.pad_y as int, rd as int,
                    mapper.orig_h as int, mapper.ratio_num as int);
            }
            let x = clamp_i64(2 * (cx - padx) * rd - w * rd, 0, bx);
            let y = clamp_i64(2 * (cy - pady) * rd - h * rd, 0, by);
            let wc = clamp_i64(2 * w * rd, 0, bx - x);
            let hc = clamp_i64(2 * h * rd, 0, by - y);
            let conf = clamp_i64(raw, 0, UNIT);
            let bbox = Bbox {
                x,
                y,
                width: wc,
                height: hc,
                class_id: best as u32,
                confidence: conf,
            };
            proof {
                assert(bbox == box_of_anchor(t, bi, p, m, a as int));
            }
            let mut kpts: Vec<Point2> = Vec::new();
            if params.task == Task::Pose {
                let nk: usize = params.keypoint_count as usize;
                let mut i: usize = 0;
                while i < nk
                    invariant
                        preds.wf(),
                        preds.dims@.len() == 3,
                        batch_idx < preds.dims@[0],
                        (a as u64) < preds.dims@[2],
                        t == *preds && p == *params && m == *mapper && bi == batch_idx as int,
                        params.wf(),
                        mapper.wf(),
                        params.task == Task::Pose,
                        nc == params.class_count,
                        nk == params.keypoint_count,
                        rd == mapper.ratio_den,
                        den == m.den(),
                        bx == mapper.orig_w as int * m.den(),
                        by == mapper.orig_h as int * m.den(),
                        preds.dims@[1] == expected_channels(*params),
                        i <= nk,
                        kpts@ == Seq::new(i as nat, |k: int| keypoint_of(t, bi, p, m, a as int,
                            k)),
                    decreases nk - i,
                {
                    let base: usize = 4 + nc + 3 * i;
                    let kx = preds.at3(batch_idx, base, a);
                    let ky = preds.at3(batch_idx, base + 1, a);
                    let kc = preds.at3(batch_idx, base + 2, a);
                    let point = if kc < params.keypoint_threshold {
                        Point2::absent()
                    } else {
                        proof {
                            lemma_box_products_fit(kx as int, 0, mapper.pad_x as int, rd as int,
                                mapper.orig_w as int, mapper.ratio_num as int);
                            lemma_box_products_fit(ky as int, 0, mapper.pad_y as int, rd as int,
                                mapper.orig_h as int, mapper.ratio_num as int);
                        }
                        Point2 {
                            x: clamp_i64(2 * (kx - mapper.pad_x as i64) * rd, 0, bx),
                            y: clamp_i64(2 * (ky - mapper.pad_y as i64) * rd, 0, by),
                            confidence: clamp_i64(kc, 0, UNIT),
                        }
                    };
                    proof {
                        assert(point == keypoint_of(t, bi, p, m, a as int, i as int));
                    }
                    kpts.push(point);
                    proof {
                        assert(kpts@ =~= Seq::new((i + 1) as nat, |k: int| keypoint_of(t, bi, p,
                            m, a as int, k)));
                    }
                    i += 1;
                }
            }
            let mut coefs: Vec<i64> = Vec::new();
            if params.task == Task::Segment {
                let nm: usize = params.mask_channels as usize;
                let mut k: usize = 0;
                while k < nm
                    invariant
                        preds.wf(),
                        preds.dims@.len() == 3,
                        batch_idx < preds.dims@[0],
                        (a as u64) < preds.dims@[2],
                        t == *preds && p == *params && bi == batch_idx as int,
                        params.wf(),
                        params.task == Task::Segment,
                        nc == params.class_count,
                        nm == params.mask_channels,
                        preds.dims@[1] == expected_channels(*params),
                        k <= nm,
                        coefs@ == Seq::new(k as nat, |q: int| coefficient_of(t, bi, p, a as int,
                            q)),
                        forall|q: int|
                            0 <= q < coefs@.len() ==> -VAL_LIMIT <= #[trigger] coefs@[q]
                                <= VAL_LIMIT,
                    decreases nm - k,
                {
                    let v = preds.at3(batch_idx, 4 + nc + k, a);
                    coefs.push(v);
                    proof {
                        assert(coefs@ =~= Seq::new((k + 1) as nat, |q: int| coefficient_of(t, bi,
                            p, a as int, q)));
                    }
                    k += 1;
                }
            }
            let cand = Candidate { bbox, keypoints: kpts, mask_coefficients: coefs };
            proof {
                assert(cand@ =~= cand_of_anchor(t, bi, p, m, a as int));
            }
            out.push(cand);
            proof {
                assert(decode_upto(t, bi, p, m, a as int + 1) == decode_upto(t, bi, p, m,
                    a as int) + seq![cand_of_anchor(t, bi, p, m, a as int)]);
                assert(cands_view(out@) =~= cands_view(out_before).push(cand@));
                assert(cands_view(out_before).push(cand@) =~= cands_view(out_before)
                    + seq![cand_of_anchor(t, bi, p, m, a as int)]);
            }
        } else {
            proof {
                assert(decode_upto(t, bi, p, m, a as int + 1) == decode_upto(t, bi, p, m,
                    a as int) + Seq::<CandView>::empty());
                assert(cands_view(out@) + Seq::<CandView>::empty() =~= cands_view(out@));
            }
        }
        a += 1;
    }
    out
}

/// Copies the classification embedding of one batch element of a rank-2
/// output tensor.
pub fn decode_embedding(preds: &Tensor, batch_idx: usize) -> (r: Embedding)
    requires
        preds.wf(),
        preds.dims@.len() == 2,
        batch_idx < preds.dims@[0],
    ensures
        r.data@.len() == preds.dims@[1],
        forall|j: int|
            0 <= j < r.data@.len() ==> #[trigger] r.data@[j] == preds.val2(batch_idx as int, j),
{
    let width = preds.dim(1);
    let mut data: Vec<i64> = Vec::new();
    let mut j: usize = 0;
    while (j as u64) < width
        invariant
            preds.wf(),
            preds.dims@.len() == 2,
            batch_idx < preds.dims@[0],
            width == preds.dims@[1],
            j as int <= width as int,
            data@.len() == j,
            forall|q: int|
                0 <= q < data@.len() ==> #[trigger] data@[q] == preds.val2(batch_idx as int, q),
        decreases width as int - j as int,
    {
        let v = preds.at2(batch_idx, j);
        data.push(v);
        j += 1;
    }
    Embedding { data }
}

} // verus!
