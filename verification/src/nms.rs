//! Greedy non-maximum suppression.
//!
//! Repeatedly keep the remaining candidate with the highest confidence
//! (earliest on ties, matching the decoder's argmax rule) and discard every
//! remaining candidate whose box overlaps the kept one with IoU strictly
//! above the threshold. By default suppression is global across classes
//! ([`non_max_suppression`]); a class-aware variant that only lets same-class
//! detections suppress each other is [`non_max_suppression_by_class`].
//!
//! IoU comparisons are exact: `IoU > t` is decided as
//! `intersection * UNIT > t * union` on integer areas, with a zero-union pair
//! counting as IoU 0.

use vstd::prelude::*;
use crate::params::UNIT;
use crate::results::{Bbox, Candidate, CandView, cands_view, COORD_LIMIT};

verus! {

/// Width of the overlap of two boxes, zero when they do not meet.
pub open spec fn inter_width(a: Bbox, b: Bbox) -> int {
    let lo = if a.x >= b.x { a.x as int } else { b.x as int };
    let hi = if a.x_max() <= b.x_max() { a.x_max() } else { b.x_max() };
    if hi >= lo { hi - lo } else { 0 }
}

/// Height of the overlap of two boxes, zero when they do not meet.
pub open spec fn inter_height(a: Bbox, b: Bbox) -> int {
    let lo = if a.y >= b.y { a.y as int } else { b.y as int };
    let hi = if a.y_max() <= b.y_max() { a.y_max() } else { b.y_max() };
    if hi >= lo { hi - lo } else { 0 }
}

/// Overlap area of two boxes.
pub open spec fn intersection_area(a: Bbox, b: Bbox) -> int {
    inter_width(a, b) * inter_height(a, b)
}

/// Union area of two boxes.
pub open spec fn union_area(a: Bbox, b: Bbox) -> int {
    a.width * a.height + b.width * b.height - intersection_area(a, b)
}

/// Intersection-over-union strictly exceeds the `UNIT`-scaled threshold.
/// A pair with zero union area has IoU 0 and never exceeds a non-negative
/// threshold.
pub open spec fn iou_exceeds(a: Bbox, b: Bbox, thr: int) -> bool {
    union_area(a, b) > 0 && intersection_area(a, b) * UNIT > thr * union_area(a, b)
}

/// Decides [`iou_exceeds`] on two decoded boxes.
pub fn iou_exceeds_exec(a: &Bbox, b: &Bbox, thr: i64) -> (r: bool)
    requires
        a.wf(),
        b.wf(),
        0 <= thr <= UNIT,
    ensures
        r == iou_exceeds(*a, *b, thr as int),
{
    let lo_x = if a.x >= b.x { a.x } else { b.x };
    let hi_x = if a.x + a.width <= b.x + b.width { a.x + a.width } else { b.x + b.width };
    let iw: i64 = if hi_x >= lo_x { hi_x - lo_x } else { 0 };
    let lo_y = if a.y >= b.y { a.y } else { b.y };
    let hi_y = if a.y + a.height <= b.y + b.height { a.y + a.height } else { b.y + b.height };
    let ih: i64 = if hi_y >= lo_y { hi_y - lo_y } else { 0 };
    proof {
        lemma_area_products_fit(iw as int, ih as int, a.width as int, a.height as int,
            b.width as int, b.height as int, thr as int);
    }
    let inter: i128 = (iw as i128) * (ih as i128);
    let area_a: i128 = (a.width as i128) * (a.height as i128);
    let area_b: i128 = (b.width as i128) * (b.height as i128);
    let union: i128 = area_a + area_b - inter;
    union > 0 && inter * (UNIT as i128) > (thr as i128) * union
}

/// All products in the IoU comparison stay far inside `i128`.
proof fn lemma_area_products_fit(iw: int, ih: int, aw: int, ah: int, bw: int, bh: int, thr: int)
    requires
        0 <= iw <= COORD_LIMIT,
        0 <= ih <= COORD_LIMIT,
        0 <= aw <= COORD_LIMIT,
        0 <= ah <= COORD_LIMIT,
        0 <= bw <= COORD_LIMIT,
        0 <= bh <= COORD_LIMIT,
        0 <= thr <= UNIT,
    ensures
        0 <= iw * ih <= 0x4000_0000_0000_0000,
        0 <= aw * ah <= 0x4000_0000_0000_0000,
        0 <= bw * bh <= 0x4000_0000_0000_0000,
        iw * ih * UNIT <= 0x1_0000_0000_0000_0000_0000,
        -0x2_0000_0000_0000_0000_0000 <= thr * (aw * ah + bw * bh - iw * ih)
            <= 0x2_0000_0000_0000_0000_0000,
{
    assert(0 <= iw * ih <= 0x4000_0000_0000_0000
        && 0 <= aw * ah <= 0x4000_0000_0000_0000
        && 0 <= bw * bh <= 0x4000_0000_0000_0000
        && iw * ih * UNIT <= 0x1_0000_0000_0000_0000_0000
        && -0x2_0000_0000_0000_0000_0000 <= thr * (aw * ah + bw * bh - iw * ih)
            <= 0x2_0000_0000_0000_0000_0000) by (nonlinear_arith)
        requires
            0 <= iw <= 0x800_0000,
            0 <= ih <= 0x800_0000,
            0 <= aw <= 0x800_0000,
            0 <= ah <= 0x800_0000,
            0 <= bw <= 0x800_0000,
            0 <= bh <= 0x800_0000,
            0 <= thr <= 1_000_000,
    ;
}

/// One box suppresses another: their IoU exceeds the threshold and, under
/// the class-aware policy, they carry the same class. The default policy is
/// global: IoU alone decides, whatever the classes.
pub open spec fn suppressed_by(kept: Bbox, other: Bbox, thr: int, class_aware: bool) -> bool {
    (!class_aware || kept.class_id == other.class_id) && iou_exceeds(kept, other, thr)
}

/// The IoU comparison does not depend on the order of its two boxes.
pub proof fn lemma_iou_symmetric(a: Bbox, b: Bbox, thr: int)
    ensures
        iou_exceeds(a, b, thr) == iou_exceeds(b, a, thr),
{
    assert(inter_width(a, b) == inter_width(b, a));
    assert(inter_height(a, b) == inter_height(b, a));
}

/// Suppression eligibility does not depend on the order of the two boxes.
pub proof fn lemma_suppressed_by_symmetric(a: Bbox, b: Bbox, thr: int, ca: bool)
    ensures
        suppressed_by(a, b, thr, ca) == suppressed_by(b, a, thr, ca),
{
    lemma_iou_symmetric(a, b, thr);
}

/// Index of the first candidate among `s[0..n]` with the maximum confidence:
/// a later candidate replaces the current best only when strictly greater.
pub open spec fn best_upto(s: Seq<CandView>, n: int) -> int
    decreases n,
{
    if n <= 1 {
        0
    } else {
        let b = best_upto(s, n - 1);
        if s[n - 1].bbox.confidence > s[b].bbox.confidence {
            n - 1
        } else {
            b
        }
    }
}

/// The chosen index is in range and carries the maximum confidence of the
/// prefix.
pub proof fn lemma_best_upto(s: Seq<CandView>, n: int)
    requires
        1 <= n <= s.len(),
    ensures
        0 <= best_upto(s, n) < n,
        forall|k: int|
            0 <= k < n ==> #[trigger] s[k].bbox.confidence <= s[best_upto(s, n)].bbox.confidence,
    decreases n,
{
    if n > 1 {
        lemma_best_upto(s, n - 1);
    }
}

/// The candidates of `s[i..]` whose IoU with `kept` does not exceed the
/// threshold, in their original order.
pub open spec fn far_from(kept: Bbox, s: Seq<CandView>, i: int, thr: int, ca: bool)
    -> Seq<CandView>
    decreases s.len() - i when 0 <= i <= s.len()
{
    if i < 0 || i >= s.len() {
        Seq::empty()
    } else if suppressed_by(kept, s[i].bbox, thr, ca) {
        far_from(kept, s, i + 1, thr, ca)
    } else {
        seq![s[i]] + far_from(kept, s, i + 1, thr, ca)
    }
}

/// Filtering never lengthens the remainder.
pub proof fn lemma_far_len(kept: Bbox, s: Seq<CandView>, i: int, thr: int, ca: bool)
    requires
        0 <= i <= s.len(),
    ensures
        far_from(kept, s, i, thr, ca).len() <= s.len() - i,
    decreases s.len() - i,
{
    if i < s.len() {
        lemma_far_len(kept, s, i + 1, thr, ca);
    }
}

/// Every survivor of the filter is a candidate of `s[i..]` and does not
/// overlap the kept box beyond the threshold.
pub proof fn lemma_far_elements(kept: Bbox, s: Seq<CandView>, i: int, thr: int, ca: bool)
    requires
        0 <= i <= s.len(),
    ensures
        forall|k: int|
            0 <= k < far_from(kept, s, i, thr, ca).len()
                ==> !suppressed_by(kept, #[trigger] far_from(kept, s, i, thr, ca)[k].bbox, thr,
                    ca),
        forall|k: int|
            0 <= k < far_from(kept, s, i, thr, ca).len()
                ==> exists|j: int|
                    i <= j < s.len() && #[trigger] far_from(kept, s, i, thr, ca)[k] == s[j],
    decreases s.len() - i,
{
    if i < s.len() {
        lemma_far_elements(kept, s, i + 1, thr, ca);
        let rest = far_from(kept, s, i + 1, thr, ca);
        let whole = far_from(kept, s, i, thr, ca);
        if !suppressed_by(kept, s[i].bbox, thr, ca) {
            assert forall|k: int| 0 <= k < whole.len() implies exists|j: int|
                i <= j < s.len() && #[trigger] whole[k] == s[j] by {
                if k == 0 {
                    assert(whole[0] == s[i]);
                } else {
                    assert(whole[k] == rest[k - 1]);
                }
            }
        }
    }
}

/// When nothing in `s[i..]` overlaps the kept box beyond the threshold, the
/// filter keeps `s[i..]` unchanged.
pub proof fn lemma_far_noop(kept: Bbox, s: Seq<CandView>, i: int, thr: int, ca: bool)
    requires
        0 <= i <= s.len(),
        forall|k: int| i <= k < s.len() ==> !suppressed_by(kept, #[trigger] s[k].bbox, thr, ca),
    ensures
        far_from(kept, s, i, thr, ca) == s.skip(i),
    decreases s.len() - i,
{
    if i < s.len() {
        lemma_far_noop(kept, s, i + 1, thr, ca);
        assert(far_from(kept, s, i, thr, ca) =~= s.skip(i));
    } else {
        assert(far_from(kept, s, i, thr, ca) =~= s.skip(i));
    }
}

/// The suppression result: the first maximum-confidence candidate, followed
/// by suppression of what of the rest does not overlap it beyond the
/// threshold.
pub open spec fn nms_spec(s: Seq<CandView>, thr: int, ca: bool) -> Seq<CandView>
    decreases s.len()
        via nms_spec_decreases
{
    if s.len() == 0 {
        Seq::empty()
    } else {
        let b = best_upto(s, s.len() as int);
        let rest = far_from(s[b].bbox, s.remove(b), 0, thr, ca);
        seq![s[b]] + nms_spec(rest, thr, ca)
    }
}

#[via_fn]
proof fn nms_spec_decreases(s: Seq<CandView>, thr: int, ca: bool) {
    if s.len() > 0 {
        lemma_best_upto(s, s.len() as int);
        let b = best_upto(s, s.len() as int);
        lemma_far_len(s[b].bbox, s.remove(b), 0, thr, ca);
    }
}

/// Every kept candidate is one of the input candidates.
pub proof fn lemma_nms_elements(s: Seq<CandView>, thr: int, ca: bool)
    ensures
        forall|k: int|
            0 <= k < nms_spec(s, thr, ca).len()
                ==> exists|j: int|
                    0 <= j < s.len() && #[trigger] nms_spec(s, thr, ca)[k] == s[j],
    decreases s.len(),
{
    if s.len() > 0 {
        lemma_best_upto(s, s.len() as int);
        let b = best_upto(s, s.len() as int);
        let removed = s.remove(b);
        let rest = far_from(s[b].bbox, removed, 0, thr, ca);
        lemma_far_len(s[b].bbox, removed, 0, thr, ca);
        lemma_far_elements(s[b].bbox, removed, 0, thr, ca);
        lemma_nms_elements(rest, thr, ca);
        let out = nms_spec(s, thr, ca);
        assert forall|k: int| 0 <= k < out.len() implies exists|j: int|
            0 <= j < s.len() && #[trigger] out[k] == s[j] by {
            if k == 0 {
                assert(out[0] == s[b]);
            } else {
                assert(out[k] == nms_spec(rest, thr, ca)[k - 1]);
                let j1 = choose|j1: int|
                    0 <= j1 < rest.len() && nms_spec(rest, thr, ca)[k - 1] == rest[j1];
                let j2 = choose|j2: int| 0 <= j2 < removed.len() && rest[j1] == removed[j2];
                if j2 < b {
                    assert(removed[j2] == s[j2]);
                } else {
                    assert(removed[j2] == s[j2 + 1]);
                }
            }
        }
    }
}

/// No kept detection would suppress another under the active policy: with
/// the global policy no two kept boxes overlap with IoU above the threshold,
/// with the class-aware policy no two same-class kept boxes do.
pub proof fn lemma_suppression_separated(s: Seq<CandView>, thr: int, ca: bool)
    ensures
        forall|i: int, j: int|
            0 <= i < j < nms_spec(s, thr, ca).len()
                ==> !suppressed_by(
                    #[trigger] nms_spec(s, thr, ca)[i].bbox,
                    #[trigger] nms_spec(s, thr, ca)[j].bbox,
                    thr,
                    ca,
                ) && !suppressed_by(nms_spec(s, thr, ca)[j].bbox, nms_spec(s, thr, ca)[i].bbox,
                    thr, ca),
    decreases s.len(),
{
    if s.len() > 0 {
        lemma_best_upto(s, s.len() as int);
        let b = best_upto(s, s.len() as int);
        let removed = s.remove(b);
        let rest = far_from(s[b].bbox, removed, 0, thr, ca);
        lemma_far_len(s[b].bbox, removed, 0, thr, ca);
        lemma_far_elements(s[b].bbox, removed, 0, thr, ca);
        lemma_nms_elements(rest, thr, ca);
        lemma_suppression_separated(rest, thr, ca);
        let out = nms_spec(s, thr, ca);
        let tail = nms_spec(rest, thr, ca);
        assert forall|i: int, j: int| 0 <= i < j < out.len() implies !suppressed_by(
            #[trigger] out[i].bbox,
            #[trigger] out[j].bbox,
            thr,
            ca,
        ) && !suppressed_by(out[j].bbox, out[i].bbox, thr, ca) by {
            if i == 0 {
                assert(out[j] == tail[j - 1]);
                let k1 = choose|k1: int| 0 <= k1 < rest.len() && tail[j - 1] == rest[k1];
                assert(!suppressed_by(s[b].bbox, rest[k1].bbox, thr, ca));
                lemma_suppressed_by_symmetric(s[b].bbox, out[j].bbox, thr, ca);
            } else {
                assert(out[i] == tail[i - 1]);
                assert(out[j] == tail[j - 1]);
            }
        }
    }
}

/// Confidences never increase along the kept list: it is in selection order.
pub proof fn lemma_suppression_sorted(s: Seq<CandView>, thr: int, ca: bool)
    ensures
        forall|i: int, j: int|
            0 <= i < j < nms_spec(s, thr, ca).len()
                ==> #[trigger] nms_spec(s, thr, ca)[i].bbox.confidence
                    >= #[trigger] nms_spec(s, thr, ca)[j].bbox.confidence,
    decreases s.len(),
{
    if s.len() > 0 {
        lemma_best_upto(s, s.len() as int);
        let b = best_upto(s, s.len() as int);
        let removed = s.remove(b);
        let rest = far_from(s[b].bbox, removed, 0, thr, ca);
        lemma_far_len(s[b].bbox, removed, 0, thr, ca);
        lemma_far_elements(s[b].bbox, removed, 0, thr, ca);
        lemma_nms_elements(rest, thr, ca);
        lemma_suppression_sorted(rest, thr, ca);
        let out = nms_spec(s, thr, ca);
        let tail = nms_spec(rest, thr, ca);
        assert forall|i: int, j: int| 0 <= i < j < out.len() implies #[trigger] out[i].bbox.confidence
            >= #[trigger] out[j].bbox.confidence by {
            if i == 0 {
                assert(out[j] == tail[j - 1]);
                let k1 = choose|k1: int| 0 <= k1 < rest.len() && tail[j - 1] == rest[k1];
                let k2 = choose|k2: int| 0 <= k2 < removed.len() && rest[k1] == removed[k2];
                if k2 < b {
                    assert(removed[k2] == s[k2]);
                } else {
                    assert(removed[k2] == s[k2 + 1]);
                }
            } else {
                assert(out[i] == tail[i - 1]);
                assert(out[j] == tail[j - 1]);
            }
        }
    }
}

/// Suppression leaves a list alone when it is already in selection order and
/// free of above-threshold overlaps.
proof fn lemma_nms_fixed_point(s: Seq<CandView>, thr: int, ca: bool)
    requires
        forall|i: int, j: int|
            0 <= i < j < s.len()
                ==> #[trigger] s[i].bbox.confidence >= #[trigger] s[j].bbox.confidence,
        forall|i: int, j: int|
            0 <= i < j < s.len() ==> !suppressed_by(#[trigger] s[i].bbox, #[trigger] s[j].bbox,
                thr, ca),
    ensures
        nms_spec(s, thr, ca) == s,
    decreases s.len(),
{
    if s.len() > 0 {
        lemma_best_first_when_sorted(s, s.len() as int);
        assert(best_upto(s, s.len() as int) == 0);
        let removed = s.remove(0);
        assert(removed =~= s.skip(1));
        assert forall|k: int| 0 <= k < removed.len() implies !suppressed_by(
            s[0].bbox,
            #[trigger] removed[k].bbox,
            thr,
            ca,
        ) by {
            assert(removed[k] == s[k + 1]);
        }
        lemma_far_noop(s[0].bbox, removed, 0, thr, ca);
        assert(removed.skip(0) =~= removed);
        let rest = far_from(s[0].bbox, removed, 0, thr, ca);
        assert(rest == removed);
        assert forall|i: int, j: int| 0 <= i < j < rest.len()
            implies #[trigger] rest[i].bbox.confidence >= #[trigger] rest[j].bbox.confidence
            && !suppressed_by(rest[i].bbox, rest[j].bbox, thr, ca) by {
            assert(rest[i] == s[i + 1]);
            assert(rest[j] == s[j + 1]);
        }
        lemma_nms_fixed_point(rest, thr, ca);
        assert(nms_spec(s, thr, ca) =~= s);
    } else {
        assert(nms_spec(s, thr, ca) =~= s);
    }
}

/// In a non-increasing list the first maximum is the first element.
proof fn lemma_best_first_when_sorted(s: Seq<CandView>, n: int)
    requires
        1 <= n <= s.len(),
        forall|i: int, j: int|
            0 <= i < j < s.len()
                ==> #[trigger] s[i].bbox.confidence >= #[trigger] s[j].bbox.confidence,
    ensures
        best_upto(s, n) == 0,
    decreases n,
{
    if n > 1 {
        lemma_best_first_when_sorted(s, n - 1);
    }
}

/// Suppression is idempotent: applied to its own output, whose pairwise IoU
/// is already at or below the threshold, it returns the same list unchanged.
pub proof fn lemma_suppression_idempotent(s: Seq<CandView>, thr: int, ca: bool)
    ensures
        nms_spec(nms_spec(s, thr, ca), thr, ca) == nms_spec(s, thr, ca),
{
    lemma_suppression_sorted(s, thr, ca);
    lemma_suppression_separated(s, thr, ca);
    lemma_nms_fixed_point(nms_spec(s, thr, ca), thr, ca);
}

/// Greedy suppression over the decoded candidates of one frame, in place,
/// under the given policy: afterwards the list is exactly [`nms_spec`] of
/// its previous contents.
fn suppress_candidates(candidates: &mut Vec<Candidate>, iou_threshold: i64, class_aware: bool)
    requires
        0 <= iou_threshold <= UNIT,
        forall|i: int|
            0 <= i < old(candidates)@.len() ==> (#[trigger] old(candidates)@[i]).bbox.wf(),
    ensures
        cands_view(final(candidates)@) == nms_spec(cands_view(old(candidates)@),
            iou_threshold as int, class_aware),
        forall|i: int|
            0 <= i < final(candidates)@.len() ==> exists|j: int|
                0 <= j < old(candidates)@.len() && (#[trigger] final(candidates)@[i])@
                    == old(candidates)@[j]@,
        forall|i: int|
            0 <= i < final(candidates)@.len() ==> (#[trigger] final(candidates)@[i]).bbox.wf(),
{
    let ghost thr: int = iou_threshold as int;
    let ghost ca: bool = class_aware;
    let ghost orig: Seq<CandView> = cands_view(candidates@);
    let mut kept: Vec<Candidate> = Vec::new();
    while candidates.len() > 0
        invariant
            0 <= iou_threshold <= UNIT,
            thr == iou_threshold as int,
            ca == class_aware,
            forall|i: int| 0 <= i < candidates@.len() ==> (#[trigger] candidates@[i]).bbox.wf(),
            cands_view(kept@) + nms_spec(cands_view(candidates@), thr, ca) == nms_spec(orig,
                thr, ca),
        decreases candidates@.len(),
    {
        let ghost pre: Seq<CandView> = cands_view(candidates@);
        // First maximum-confidence candidate, earliest on ties.
        let mut best: usize = 0;
        let mut bi: usize = 1;
        while bi < candidates.len()
            invariant
                candidates@.len() > 0,
                pre == cands_view(candidates@),
                1 <= bi <= candidates@.len(),
                best < bi,
                best as int == best_upto(pre, bi as int),
            decreases candidates@.len() - bi,
        {
            if candidates[bi].bbox.confidence > candidates[best].bbox.confidence {
                best = bi;
            }
            bi += 1;
        }
        proof {
            lemma_best_upto(pre, pre.len() as int);
        }
        let chosen = candidates.remove(best);
        let ghost removed: Seq<CandView> = cands_view(candidates@);
        proof {
            assert(chosen@ == pre[best as int]);
            assert(removed =~= pre.remove(best as int));
        }
        // Drop what the chosen candidate suppresses under the policy.
        let mut rest: Vec<Candidate> = Vec::new();
        let ghost total: int = removed.len() as int;
        proof {
            assert(cands_view(candidates@) =~= removed.skip(0));
            assert(cands_view(rest@) + far_from(chosen.bbox, removed, 0, thr, ca)
                =~= far_from(chosen.bbox, removed, 0, thr, ca));
        }
        while candidates.len() > 0
            invariant
                0 <= iou_threshold <= UNIT,
                thr == iou_threshold as int,
                ca == class_aware,
                chosen.bbox.wf(),
                forall|i: int|
                    0 <= i < candidates@.len() ==> (#[trigger] candidates@[i]).bbox.wf(),
                forall|i: int| 0 <= i < rest@.len() ==> (#[trigger] rest@[i]).bbox.wf(),
                candidates@.len() <= total == removed.len(),
                cands_view(candidates@) == removed.skip(total - candidates@.len()),
                cands_view(rest@) + far_from(chosen.bbox, removed, total - candidates@.len(),
                    thr, ca) == far_from(chosen.bbox, removed, 0, thr, ca),
            decreases candidates@.len(),
        {
            let ghost j: int = total - candidates@.len();
            let ghost before = candidates@;
            let ghost rest_before = rest@;
            proof {
                assert(removed.skip(j)[0] == removed[j]);
                assert(cands_view(before)[0] == before[0]@);
            }
            let c = candidates.remove(0);
            proof {
                assert(c@ == removed[j]);
                assert forall|k: int| 0 <= k < candidates@.len() implies cands_view(
                    candidates@,
                )[k] == removed.skip(j + 1)[k] by {
                    assert(candidates@[k] == before[k + 1]);
                    assert(cands_view(before)[k + 1] == before[k + 1]@);
                    assert(removed.skip(j)[k + 1] == removed[j + 1 + k]);
                    assert(removed.skip(j + 1)[k] == removed[j + 1 + k]);
                }
                assert(cands_view(candidates@) =~= removed.skip(j + 1));
            }
            let same_class_gate = !class_aware || chosen.bbox.class_id == c.bbox.class_id;
            let drop_it = same_class_gate && iou_exceeds_exec(&chosen.bbox, &c.bbox,
                iou_threshold);
            proof {
                assert(drop_it == suppressed_by(chosen.bbox, c.bbox, thr, ca));
            }
            if !drop_it {
                rest.push(c);
                proof {
                    assert(far_from(chosen.bbox, removed, j, thr, ca) == seq![removed[j]]
                        + far_from(chosen.bbox, removed, j + 1, thr, ca));
                    assert(cands_view(rest@) =~= cands_view(rest_before).push(c@));
                    assert(cands_view(rest_before).push(removed[j]) + far_from(chosen.bbox,
                        removed, j + 1, thr, ca) =~= cands_view(rest_before) + (seq![removed[j]]
                        + far_from(chosen.bbox, removed, j + 1, thr, ca)));
                }
            } else {
                proof {
                    assert(far_from(chosen.bbox, removed, j, thr, ca) == far_from(chosen.bbox,
                        removed, j + 1, thr, ca));
                }
            }
        }
        proof {
            assert(far_from(chosen.bbox, removed, total, thr, ca) == Seq::<CandView>::empty());
            assert(cands_view(rest@) + Seq::<CandView>::empty() =~= cands_view(rest@));
            lemma_far_len(chosen.bbox, removed, 0, thr, ca);
        }
        let ghost kept_before = kept@;
        kept.push(chosen);
        *candidates = rest;
        proof {
            // One unfolding of the suppression spec for the processed prefix.
            let rest_view = far_from(pre[best as int].bbox, pre.remove(best as int), 0, thr, ca);
            assert(nms_spec(pre, thr, ca) == seq![pre[best as int]] + nms_spec(rest_view, thr,
                ca));
            assert(cands_view(candidates@) == rest_view);
            assert(cands_view(kept@) =~= cands_view(kept_before).push(chosen@));
            assert(cands_view(kept_before).push(chosen@) + nms_spec(rest_view, thr, ca)
                =~= cands_view(kept_before) + (seq![chosen@] + nms_spec(rest_view, thr, ca)));
            assert(candidates@.len() < pre.len());
        }
    }
    proof {
        assert(cands_view(candidates@) =~= Seq::<CandView>::empty());
        assert(nms_spec(Seq::<CandView>::empty(), thr, ca) == Seq::<CandView>::empty());
        assert(cands_view(kept@) + Seq::<CandView>::empty() =~= cands_view(kept@));
    }
    *candidates = kept;
    proof {
        lemma_nms_elements(orig, thr, ca);
        assert forall|i: int| 0 <= i < candidates@.len() implies exists|j: int|
            0 <= j < orig.len() && (#[trigger] candidates@[i])@ == orig[j] by {
            assert(cands_view(candidates@)[i] == candidates@[i]@);
        }
        assert forall|i: int| 0 <= i < candidates@.len() implies (
        #[trigger] candidates@[i]).bbox.wf() by {
            let j = choose|j: int| 0 <= j < orig.len() && candidates@[i]@ == orig[j];
            assert(old(candidates)@[j]@ == orig[j]);
        }
    }
}

/// Greedy non-maximum suppression over one frame's candidates, in place,
/// global across classes: overlapping detections of different classes
/// suppress each other. Afterwards the list is exactly [`nms_spec`] of its
/// previous contents under the global policy.
pub fn non_max_suppression(candidates: &mut Vec<Candidate>, iou_threshold: i64)
    requires
        0 <= iou_threshold <= UNIT,
        forall|i: int|
            0 <= i < old(candidates)@.len() ==> (#[trigger] old(candidates)@[i]).bbox.wf(),
    ensures
        cands_view(final(candidates)@) == nms_spec(cands_view(old(candidates)@),
            iou_threshold as int, false),
        forall|i: int|
            0 <= i < final(candidates)@.len() ==> exists|j: int|
                0 <= j < old(candidates)@.len() && (#[trigger] final(candidates)@[i])@
                    == old(candidates)@[j]@,
        forall|i: int|
            0 <= i < final(candidates)@.len() ==> (#[trigger] final(candidates)@[i]).bbox.wf(),
{
    suppress_candidates(candidates, iou_threshold, false)
}

/// Greedy non-maximum suppression restricted to each class: only detections
/// of the same class suppress each other. Afterwards the list is exactly
/// [`nms_spec`] of its previous contents under the class-aware policy.
pub fn non_max_suppression_by_class(candidates: &mut Vec<Candidate>, iou_threshold: i64)
    requires
        0 <= iou_threshold <= UNIT,
        forall|i: int|
            0 <= i < old(candidates)@.len() ==> (#[trigger] old(candidates)@[i]).bbox.wf(),
    ensures
        cands_view(final(candidates)@) == nms_spec(cands_view(old(candidates)@),
            iou_threshold as int, true),
        forall|i: int|
            0 <= i < final(candidates)@.len() ==> exists|j: int|
                0 <= j < old(candidates)@.len() && (#[trigger] final(candidates)@[i])@
                    == old(candidates)@[j]@,
        forall|i: int|
            0 <= i < final(candidates)@.len() ==> (#[trigger] final(candidates)@[i]).bbox.wf(),
{
    suppress_candidates(candidates, iou_threshold, true)
}

} // verus!
