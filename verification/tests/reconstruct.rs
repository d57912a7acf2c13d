use yolo_post::{Bbox, ModelParams, PipelineError, Task, Tensor};
use yolo_post::mask::{quantize_byte, reconstruct_raw, UNIT_SQ};

/// A prototype tensor: one batch element, `nm` channels of `h x w` pixels.
fn proto_tensor(nm: usize, h: usize, w: usize, channels: &[&[i64]]) -> Tensor {
    let mut data = Vec::new();
    for c in channels {
        assert_eq!(c.len(), h * w);
        data.extend_from_slice(c);
    }
    Tensor::new(vec![1, nm as u64, h as u64, w as u64], data).unwrap()
}

// Mask reconstruction with coefficient vector [1, 0] against a two-channel
// prototype: the raw mask equals prototype channel 0 exactly, before any
// crop or resize.
#[test]
fn unit_coefficients_select_prototype_channel() {
    let protos = proto_tensor(2, 2, 2, &[&[10, 20, 30, 40], &[5, 6, 7, 8]]);
    let raw = reconstruct_raw(&vec![1, 0], &protos, 0).unwrap();
    assert_eq!(raw, vec![10, 20, 30, 40]);
    let raw1 = reconstruct_raw(&vec![0, 1], &protos, 0).unwrap();
    assert_eq!(raw1, vec![5, 6, 7, 8]);
    let mixed = reconstruct_raw(&vec![2, 3], &protos, 0).unwrap();
    assert_eq!(mixed, vec![2 * 10 + 3 * 5, 2 * 20 + 3 * 6, 2 * 30 + 3 * 7, 2 * 40 + 3 * 8]);
}

// A coefficient vector whose length does not match the prototype channel
// count is a numeric error.
#[test]
fn mismatched_coefficient_length_is_numeric_error() {
    let protos = proto_tensor(2, 2, 2, &[&[10, 20, 30, 40], &[5, 6, 7, 8]]);
    assert_eq!(
        reconstruct_raw(&vec![1, 0, 0], &protos, 0).unwrap_err(),
        PipelineError::NumericError
    );
}

// Byte quantization: 0 maps to 0, a full-scale value to 255, half scale to
// the middle, and anything negative or beyond full scale is clamped.
#[test]
fn quantization_spreads_unit_interval_over_bytes() {
    assert_eq!(quantize_byte(0), 0);
    assert_eq!(quantize_byte(UNIT_SQ), 255);
    assert_eq!(quantize_byte(UNIT_SQ / 2), 127);
    assert_eq!(quantize_byte(-5), 0);
    assert_eq!(quantize_byte(i64::MAX), 255);
    assert_eq!(quantize_byte(i64::MIN), 0);
}

// The full segmentation pipeline attaches an image-sized mask that is zero
// outside the detection's own box. The mask went through the real resampler,
// so its length must be the image's pixel count, not the prototype's.
#[test]
fn segmentation_attaches_image_sized_box_cropped_mask() {
    let params = ModelParams {
        class_count: 1,
        mask_channels: 2,
        input_width: 8,
        input_height: 8,
        task: Task::Segment,
        ..Default::default()
    };
    // channels: 4 + 1 + 2 = 7; one anchor. The box covers the left half of
    // the 8x8 image: centre (2, 4), size (4, 8) in model space (ratio 1).
    let mut data = vec![0i64; 7];
    data[0] = 2;
    data[1] = 4;
    data[2] = 4;
    data[3] = 8;
    data[4] = 800_000;
    data[5] = 1_000_000; // coefficient 1.0 for channel 0
    data[6] = 0;
    let preds = Tensor::new(vec![1, 7, 1], data).unwrap();
    // Prototypes at 4x4: channel 0 is full scale everywhere, channel 1 zero.
    let protos = proto_tensor(
        2,
        4,
        4,
        &[&[1_000_000; 16], &[0; 16]],
    );
    let results = params.postprocess(&preds, Some(&protos), &vec![(8, 8)]).unwrap();
    let det = &results[0].detections[0];
    let den = results[0].coord_den;
    assert_eq!(det.bbox.x, 0);
    assert_eq!(det.bbox.width, 4 * den);
    // One byte per original-image pixel: 8 * 8, not the prototype's 4 * 4.
    assert_eq!(det.mask.len(), 64);
    // Hard crop: zero strictly outside the box, bright inside it. The box
    // spans pixel columns 0..=4 at whole-pixel resolution.
    for y in 0..8usize {
        for x in 0..8usize {
            let v = det.mask[y * 8 + x];
            if x > 4 {
                assert_eq!(v, 0, "pixel ({x},{y}) outside the box");
            }
            if x < 4 {
                assert!(v > 200, "pixel ({x},{y}) inside the box was {v}");
            }
        }
    }
}

// The prototype tensor's shape is validated against the configured channel
// count.
#[test]
fn wrong_prototype_channel_count_is_shape_error() {
    let params = ModelParams {
        class_count: 1,
        mask_channels: 2,
        input_width: 8,
        input_height: 8,
        task: Task::Segment,
        ..Default::default()
    };
    let preds = Tensor::new(vec![1, 7, 1], vec![0; 7]).unwrap();
    let protos = proto_tensor(3, 4, 4, &[&[0; 16], &[0; 16], &[0; 16]]);
    assert_eq!(
        params.postprocess(&preds, Some(&protos), &vec![(8, 8)]).unwrap_err(),
        PipelineError::ShapeError
    );
}

// IoU is decided exactly on integer areas.
#[test]
fn iou_comparison_is_exact() {
    let a = Bbox { x: 0, y: 0, width: 100, height: 100, class_id: 0, confidence: 900_000 };
    let b = Bbox { x: 0, y: 0, width: 100, height: 90, class_id: 0, confidence: 800_000 };
    // IoU = 9000 / 10000 = 0.9.
    assert!(yolo_post::nms::iou_exceeds_exec(&a, &b, 899_999));
    assert!(!yolo_post::nms::iou_exceeds_exec(&a, &b, 900_000));
    assert!(yolo_post::nms::iou_exceeds_exec(&a, &b, 450_000));
}
