use yolo_post::{CoordinateMapper, ModelParams, PipelineError, Task, Tensor, UNIT};
use yolo_post::results::Point2;

fn detect_params(class_count: u32) -> ModelParams {
    ModelParams { class_count, ..Default::default() }
}

// Original image 640x480 letterboxed into a 640x640 input: the ratio is
// min(640/640, 640/480) = 1 and the padding is (0, 80).
#[test]
fn letterbox_640x480_into_640x640() {
    let m = CoordinateMapper::new(640, 480, 640, 640);
    assert_eq!(m.ratio_num, 640);
    assert_eq!(m.ratio_den, 640);
    assert_eq!(m.scaled_w, 640);
    assert_eq!(m.scaled_h, 480);
    assert_eq!(m.pad_x, 0);
    assert_eq!(m.pad_y, 80);
}

#[test]
fn scale_wh_returns_exact_ratio_and_rounded_size() {
    let params = detect_params(1);
    let ((num, den), sw, sh) = params.scale_wh(640, 480, 640, 640);
    assert_eq!((num, den), (640, 640)); // ratio 1.0
    assert_eq!((sw, sh), (640, 480));
    // 1000x500 into 640x640: ratio 640/1000, scaled (640, 320).
    let ((num2, den2), sw2, sh2) = params.scale_wh(1000, 500, 640, 640);
    assert_eq!((num2, den2), (640, 1000));
    assert_eq!((sw2, sh2), (640, 320));
}

// Forward then inverse transform returns the original point exactly: the
// transforms are exact fractions, so no epsilon is needed.
#[test]
fn coordinate_round_trip_is_exact() {
    let m = CoordinateMapper::new(640, 480, 640, 640);
    // Forward: numerator over ratio_den.
    let fx = m.forward_x(100);
    let fy = m.forward_y(100);
    assert_eq!(fx % (m.ratio_den as i64), 0);
    assert_eq!(fy % (m.ratio_den as i64), 0);
    let model_x = fx / (m.ratio_den as i64);
    let model_y = fy / (m.ratio_den as i64);
    assert_eq!(model_x, 100); // ratio 1, pad_x 0
    assert_eq!(model_y, 180); // ratio 1, pad_y 80
    // Inverse: numerator over ratio_num.
    assert_eq!(m.inverse_x(model_x), 100 * m.ratio_num as i64);
    assert_eq!(m.inverse_y(model_y), 100 * m.ratio_num as i64);

    // A non-trivial ratio: 320x240 into 640x640 scales by 2.
    let m2 = CoordinateMapper::new(320, 240, 640, 640);
    assert_eq!(m2.ratio_num, 640);
    assert_eq!(m2.ratio_den, 320);
    for x in [0i64, 1, 7, 319] {
        let f = m2.forward_x(x);
        // inverse(forward(x)) == x as the fraction
        // (f/ratio_den - pad) * ratio_den / ratio_num.
        let back_num = (f - (m2.pad_x as i64) * (m2.ratio_den as i64))
            * (m2.ratio_den as i64);
        let back_den = (m2.ratio_den as i64) * (m2.ratio_num as i64);
        assert_eq!(back_num, x * back_den);
    }
}

// Building the model input: the resized content lands at the pad offset and
// the rest of the canvas is the fill value.
#[test]
fn letterbox_placement_fills_padding() {
    let src = vec![1u8, 2, 3, 4];
    let canvas = yolo_post::mapper::place_on_canvas(&src, 2, 2, 4, 4, 1, 1, 114);
    assert_eq!(
        canvas,
        vec![
            114, 114, 114, 114,
            114, 1, 2, 114,
            114, 3, 4, 114,
            114, 114, 114, 114,
        ]
    );
}

fn boxed_candidate(
    x: i64,
    y: i64,
    w: i64,
    h: i64,
    class_id: u32,
    confidence: i64,
) -> yolo_post::Candidate {
    yolo_post::Candidate {
        bbox: yolo_post::Bbox { x, y, width: w, height: h, class_id, confidence },
        keypoints: Vec::new(),
        mask_coefficients: Vec::new(),
    }
}

// Two same-class candidates with confidences 0.9 and 0.8 and mutual IoU 0.9
// against a threshold of 0.45: only the 0.9 candidate is kept.
#[test]
fn suppression_keeps_highest_of_overlapping_pair() {
    // Boxes (0,0,100,100) and (0,0,100,90): intersection 9000, union 10000.
    let mut cands = vec![
        boxed_candidate(0, 0, 100, 90, 3, 800_000),
        boxed_candidate(0, 0, 100, 100, 3, 900_000),
    ];
    yolo_post::non_max_suppression(&mut cands, 450_000);
    assert_eq!(cands.len(), 1);
    assert_eq!(cands[0].bbox.confidence, 900_000);
    assert_eq!(cands[0].bbox.height, 100);
}

// No two kept detections overlap above the threshold, and the kept list is
// in non-increasing confidence order.
#[test]
fn suppression_output_is_separated_and_sorted() {
    let mut cands = vec![
        boxed_candidate(0, 0, 100, 100, 0, 500_000),
        boxed_candidate(500, 500, 100, 100, 1, 900_000),
        boxed_candidate(10, 0, 100, 100, 2, 700_000),
        boxed_candidate(505, 500, 100, 100, 0, 650_000),
    ];
    yolo_post::non_max_suppression(&mut cands, 450_000);
    for i in 0..cands.len() {
        for j in 0..cands.len() {
            if i != j {
                assert!(!yolo_post::nms::iou_exceeds_exec(
                    &cands[i].bbox,
                    &cands[j].bbox,
                    450_000
                ));
            }
            if i < j {
                assert!(cands[i].bbox.confidence >= cands[j].bbox.confidence);
            }
        }
    }
}

// Applying suppression to its own output returns the same list unchanged.
#[test]
fn suppression_is_idempotent_on_concrete_input() {
    let mut cands = vec![
        boxed_candidate(0, 0, 100, 100, 0, 500_000),
        boxed_candidate(40, 0, 100, 100, 1, 900_000),
        boxed_candidate(500, 500, 80, 80, 2, 700_000),
    ];
    yolo_post::non_max_suppression(&mut cands, 450_000);
    let snapshot: Vec<(i64, i64, i64, i64, u32, i64)> = cands
        .iter()
        .map(|c| {
            let b = &c.bbox;
            (b.x, b.y, b.width, b.height, b.class_id, b.confidence)
        })
        .collect();
    yolo_post::non_max_suppression(&mut cands, 450_000);
    let again: Vec<(i64, i64, i64, i64, u32, i64)> = cands
        .iter()
        .map(|c| {
            let b = &c.bbox;
            (b.x, b.y, b.width, b.height, b.class_id, b.confidence)
        })
        .collect();
    assert_eq!(snapshot, again);
}

// On equal confidences the earlier candidate wins, matching the decoder's
// first-strictly-greater argmax rule.
#[test]
fn suppression_tie_break_keeps_earliest() {
    let mut cands = vec![
        boxed_candidate(0, 0, 100, 100, 0, 800_000),
        boxed_candidate(0, 0, 100, 100, 1, 800_000),
    ];
    yolo_post::non_max_suppression(&mut cands, 450_000);
    assert_eq!(cands.len(), 1);
    assert_eq!(cands[0].bbox.class_id, 0);
}

// Under the class-aware policy, overlapping detections of different classes
// both survive; under the default global policy the weaker one is removed.
#[test]
fn class_aware_suppression_keeps_different_classes() {
    let mut global = vec![
        boxed_candidate(0, 0, 100, 100, 3, 900_000),
        boxed_candidate(0, 0, 100, 90, 5, 800_000),
    ];
    yolo_post::non_max_suppression(&mut global, 450_000);
    assert_eq!(global.len(), 1);

    let mut per_class = vec![
        boxed_candidate(0, 0, 100, 100, 3, 900_000),
        boxed_candidate(0, 0, 100, 90, 5, 800_000),
    ];
    yolo_post::nms::non_max_suppression_by_class(&mut per_class, 450_000);
    assert_eq!(per_class.len(), 2);

    // Same class, same overlap: the class-aware policy suppresses too.
    let mut per_class_same = vec![
        boxed_candidate(0, 0, 100, 100, 3, 900_000),
        boxed_candidate(0, 0, 100, 90, 3, 800_000),
    ];
    yolo_post::nms::non_max_suppression_by_class(&mut per_class_same, 450_000);
    assert_eq!(per_class_same.len(), 1);
}

// A zero-union pair (two degenerate boxes) has IoU 0 and is never suppressed.
#[test]
fn zero_union_pair_is_not_suppressed() {
    let mut cands = vec![
        boxed_candidate(10, 10, 0, 0, 0, 900_000),
        boxed_candidate(10, 10, 0, 0, 1, 800_000),
    ];
    yolo_post::non_max_suppression(&mut cands, 450_000);
    assert_eq!(cands.len(), 2);
}

/// A rank-3 detection head: one batch element, `ch` channels, `anchors`
/// anchors, laid out channel-major as (batch, channel, anchor).
fn head_tensor(ch: usize, anchors: usize, values: &[(usize, usize, i64)]) -> Tensor {
    let mut data = vec![0i64; ch * anchors];
    for &(c, a, v) in values {
        data[c * anchors + a] = v;
    }
    Tensor::new(vec![1, ch as u64, anchors as u64], data).unwrap()
}

// A candidate below the confidence threshold is excluded from the decoder's
// output; one at or above it is kept, with the box mapped back to image
// space and clamped.
#[test]
fn decode_filters_by_confidence_and_maps_boxes() {
    let params = detect_params(2);
    // channels: 4 box + 2 classes; anchors: 2.
    // anchor 0: best score 200_000 < 300_000 -> dropped.
    // anchor 1: best score 900_000 (class 1) -> kept.
    let preds = head_tensor(6, 2, &[
        (0, 0, 320), (1, 0, 320), (2, 0, 100), (3, 0, 80),
        (4, 0, 100_000), (5, 0, 200_000),
        (0, 1, 320), (1, 1, 320), (2, 1, 100), (3, 1, 80),
        (4, 1, 50_000), (5, 1, 900_000),
    ]);
    let results = params.postprocess(&preds, None, &vec![(640, 480)]).unwrap();
    assert_eq!(results.len(), 1);
    let r = &results[0];
    assert!(r.probs.is_none());
    assert_eq!(r.detections.len(), 1);
    // ratio 1 = 640/640, pad (0, 80), denominator 2 * 640.
    assert_eq!(r.coord_den, 1280);
    let b = &r.detections[0].bbox;
    assert_eq!(b.class_id, 1);
    assert_eq!(b.confidence, 900_000);
    // centre (320, 320) size (100, 80) in model space maps to image-space
    // corner (270, 200) and size (100, 80): numerators over 1280.
    assert_eq!(b.x, 270 * 1280);
    assert_eq!(b.y, 200 * 1280);
    assert_eq!(b.width, 100 * 1280);
    assert_eq!(b.height, 80 * 1280);
}

// On equal class scores the decoder keeps the lowest class index: only a
// strictly greater score replaces the running maximum.
#[test]
fn decode_class_tie_break_prefers_lowest_index() {
    let params = detect_params(3);
    let preds = head_tensor(7, 1, &[
        (0, 0, 320), (1, 0, 320), (2, 0, 100), (3, 0, 80),
        (4, 0, 400_000), (5, 0, 700_000), (6, 0, 700_000),
    ]);
    let results = params.postprocess(&preds, None, &vec![(640, 480)]).unwrap();
    let b = &results[0].detections[0].bbox;
    assert_eq!(b.class_id, 1);
    assert_eq!(b.confidence, 700_000);
}

// Boxes are clamped to the image: the corner never goes negative and the
// sides shrink at the clamped edge.
#[test]
fn decode_clamps_boxes_to_image_bounds() {
    let params = detect_params(1);
    let preds = head_tensor(5, 2, &[
        // centre near the left edge with a large width: x would be negative.
        (0, 0, 10), (1, 0, 240), (2, 0, 100), (3, 0, 100), (4, 0, 500_000),
        // centre near the right edge: the width shrinks at the clamped edge.
        (0, 1, 600), (1, 1, 240), (2, 1, 200), (3, 1, 100), (4, 1, 500_000),
    ]);
    let results = params.postprocess(&preds, None, &vec![(640, 480)]).unwrap();
    let den = results[0].coord_den;
    let b0 = &results[0].detections[0].bbox;
    assert_eq!(b0.x, 0);
    assert_eq!(b0.width, 100 * den); // only the corner was clamped
    assert!(b0.x + b0.width <= 640 * den);
    assert!(b0.y + b0.height <= 480 * den);
    let b1 = &results[0].detections[1].bbox;
    assert_eq!(b1.x, 500 * den);
    assert_eq!(b1.width, 140 * den); // shrunk to stop at the image edge
    assert!(b1.x + b1.width <= 640 * den);
}

// A keypoint whose own confidence is below the keypoint threshold is emitted
// as the default absent point, not omitted: the list length stays the
// keypoint count.
#[test]
fn low_confidence_keypoint_becomes_absent_point() {
    let params = ModelParams {
        class_count: 1,
        keypoint_count: 2,
        task: Task::Pose,
        ..Default::default()
    };
    // channels: 4 + 1 + 2*3 = 11; one anchor.
    let preds = head_tensor(11, 1, &[
        (0, 0, 320), (1, 0, 320), (2, 0, 100), (3, 0, 80),
        (4, 0, 800_000),
        // keypoint 0: confidence 0.2 < 0.55 -> absent.
        (5, 0, 300), (6, 0, 300), (7, 0, 200_000),
        // keypoint 1: confidence 0.9 -> kept, mapped into image space.
        (8, 0, 320), (9, 0, 240), (10, 0, 900_000),
    ]);
    let results = params.postprocess(&preds, None, &vec![(640, 480)]).unwrap();
    let kpts = &results[0].detections[0].keypoints;
    assert_eq!(kpts.len(), 2);
    assert_eq!(kpts[0], Point2 { x: 0, y: 0, confidence: 0 });
    // (320 - 0) / 1 = 320 and (240 - 80) / 1 = 160, numerators over 1280.
    assert_eq!(kpts[1].x, 320 * 1280);
    assert_eq!(kpts[1].y, 160 * 1280);
    assert_eq!(kpts[1].confidence, 900_000);
}

// The classification task short-circuits to one embedding per image.
#[test]
fn classification_returns_embeddings() {
    let params = ModelParams { class_count: 3, task: Task::Classify, ..Default::default() };
    let preds = Tensor::new(vec![2, 3], vec![10, 20, 30, 40, 50, 60]).unwrap();
    let results = params
        .postprocess(&preds, None, &vec![(640, 480), (320, 240)])
        .unwrap();
    assert_eq!(results.len(), 2);
    let e0 = results[0].probs.as_ref().unwrap();
    let e1 = results[1].probs.as_ref().unwrap();
    assert_eq!(e0.data, vec![10, 20, 30]);
    assert_eq!(e1.data, vec![40, 50, 60]);
    assert!(results[0].detections.is_empty());
}

// An empty candidate list after filtering is a valid, non-error outcome.
#[test]
fn all_candidates_below_threshold_gives_empty_result() {
    let params = detect_params(1);
    let preds = head_tensor(5, 1, &[
        (0, 0, 320), (1, 0, 320), (2, 0, 100), (3, 0, 80),
        (4, 0, 100_000),
    ]);
    let results = params.postprocess(&preds, None, &vec![(640, 480)]).unwrap();
    assert_eq!(results.len(), 1);
    assert!(results[0].detections.is_empty());
    assert!(results[0].probs.is_none());
}

// A tensor whose channel count does not match the task is a fatal shape
// error for the frame.
#[test]
fn wrong_channel_count_is_shape_error() {
    let params = detect_params(2);
    let preds = head_tensor(5, 1, &[(4, 0, 900_000)]);
    let r = params.postprocess(&preds, None, &vec![(640, 480)]);
    assert_eq!(r.unwrap_err(), PipelineError::ShapeError);
}

// The segmentation task demands a prototype tensor.
#[test]
fn missing_prototypes_is_shape_error() {
    let params = ModelParams {
        class_count: 1,
        mask_channels: 2,
        task: Task::Segment,
        ..Default::default()
    };
    // channels: 4 + 1 + 2 = 7.
    let preds = head_tensor(7, 1, &[(4, 0, 900_000)]);
    let r = params.postprocess(&preds, None, &vec![(640, 480)]);
    assert_eq!(r.unwrap_err(), PipelineError::ShapeError);
}

// Invalid configurations are rejected at validation time with a typed error,
// not deep inside a decode.
#[test]
fn invalid_configuration_is_config_mismatch() {
    let bad = ModelParams { class_count: 0, ..Default::default() };
    assert_eq!(bad.validate().unwrap_err(), PipelineError::ConfigMismatch);
    let pose_without_keypoints =
        ModelParams { keypoint_count: 0, task: Task::Pose, ..Default::default() };
    assert_eq!(
        pose_without_keypoints.validate().unwrap_err(),
        PipelineError::ConfigMismatch
    );
    let good = ModelParams { class_count: 80, ..Default::default() };
    assert!(good.validate().is_ok());
    assert_eq!(good.conf_threshold, 300_000);
    assert_eq!(good.iou_threshold, 450_000);
    assert_eq!(good.keypoint_threshold, 550_000);
    assert_eq!(UNIT, 1_000_000);
}

// A mismatched buffer is rejected when the tensor is built.
#[test]
fn tensor_rejects_mismatched_buffer() {
    assert_eq!(
        Tensor::new(vec![2, 3], vec![0; 5]).unwrap_err(),
        PipelineError::ShapeError
    );
    assert_eq!(
        Tensor::new(vec![], vec![]).unwrap_err(),
        PipelineError::ShapeError
    );
    // A value beyond the accepted magnitude is rejected too.
    assert_eq!(
        Tensor::new(vec![1, 1], vec![i64::MAX]).unwrap_err(),
        PipelineError::ShapeError
    );
}
