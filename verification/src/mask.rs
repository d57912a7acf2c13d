//! Mask reconstruction for the segmentation task.
//!
//! A kept candidate's coefficient vector (1 x N) is multiplied with the
//! image's prototype tensor (N x height*width) to give a raw mask at
//! prototype resolution. The valid (non-padded) region of that mask is
//! cropped, the crop is resized to the original image resolution through the
//! `image` crate, and finally every pixel outside the candidate's own box is
//! zeroed: the mask is a hard crop to the box.

use vstd::prelude::*;
use vstd::arithmetic::div_mod::{lemma_div_is_ordered, lemma_div_by_multiple, lemma_div_pos_is_pos};
use crate::params::{PipelineError, VAL_LIMIT, MAX_MASK_CHANNELS, MAX_DIM, clamp_spec,
    clamp_i64};
use crate::mapper::{CoordinateMapper, width_binds, round_scale};
use crate::results::Bbox;
use crate::tensor::Tensor;

verus! {

/// Fixed-point representation of 1.0 for a coefficient-prototype product:
/// both factors are `UNIT`-scaled.
pub const UNIT_SQ: i64 = 1_000_000_000_000;

/// Magnitude bound of one coefficient-prototype product.
pub const PRODUCT_LIMIT: i64 = 0x1_0000_0000_0000;

/// Dot product of the first `k` coefficients with prototype pixel `p_idx`
/// (flat over the prototype's height and width) of batch element `bi`.
pub open spec fn mask_dot(protos: Tensor, bi: int, coefs: Seq<i64>, p_idx: int, k: int) -> int
    decreases k,
{
    if k <= 0 {
        0
    } else {
        mask_dot(protos, bi, coefs, p_idx, k - 1) + coefs[k - 1] * protos.val4_flat(bi, k - 1,
            p_idx)
    }
}

/// Multiplies a coefficient vector with the prototype tensor of one batch
/// element: the raw instance mask at prototype resolution, row-major.
///
/// Fails with `NumericError` exactly when the coefficient count does not
/// match the prototype channel count.
pub fn reconstruct_raw(coefs: &Vec<i64>, protos: &Tensor, batch_idx: usize) -> (r: Result<
    Vec<i64>,
    PipelineError,
>)
    requires
        protos.wf(),
        protos.dims@.len() == 4,
        batch_idx < protos.dims@[0],
        protos.dims@[1] <= MAX_MASK_CHANNELS,
        forall|i: int| 0 <= i < coefs@.len() ==> -VAL_LIMIT <= #[trigger] coefs@[i] <= VAL_LIMIT,
    ensures
        match r {
            Ok(raw) => {
                &&& coefs@.len() == protos.dims@[1]
                &&& raw@.len() == protos.dims@[2] * protos.dims@[3]
                &&& forall|p: int|
                    0 <= p < raw@.len() ==> #[trigger] raw@[p] as int == mask_dot(*protos,
                        batch_idx as int, coefs@, p, coefs@.len() as int)
            },
            Err(e) => {
                &&& e == PipelineError::NumericError
                &&& coefs@.len() != protos.dims@[1]
            },
        },
{
    let nm = protos.dim(1);
    if (coefs.len() as u64) != nm {
        return Err(PipelineError::NumericError);
    }
    let ghost t = *protos;
    let ghost bi = batch_idx as int;
    proof {
        assert(protos.dims@[2] as int * protos.dims@[3] as int <= 32768 * 32768
            && 1 <= protos.dims@[2] as int * protos.dims@[3] as int) by (nonlinear_arith)
            requires
                1 <= protos.dims@[2] as int <= 32768,
                1 <= protos.dims@[3] as int <= 32768,
        ;
    }
    let plane: u64 = protos.dim(2) * protos.dim(3);
    let mut raw: Vec<i64> = Vec::new();
    let mut p: usize = 0;
    while (p as u64) < plane
        invariant
            protos.wf(),
            protos.dims@.len() == 4,
            batch_idx < protos.dims@[0],
            protos.dims@[1] <= MAX_MASK_CHANNELS,
            forall|i: int|
                0 <= i < coefs@.len() ==> -VAL_LIMIT <= #[trigger] coefs@[i] <= VAL_LIMIT,
            t == *protos && bi == batch_idx as int,
            coefs@.len() == protos.dims@[1],
            plane == protos.dims@[2] * protos.dims@[3],
            plane <= 0x4000_0000,
            p as int <= plane as int,
            raw@.len() == p,
            forall|q: int|
                0 <= q < raw@.len() ==> #[trigger] raw@[q] as int == mask_dot(t, bi, coefs@, q,
                    coefs@.len() as int),
        decreases plane as int - p as int,
    {
        let mut acc: i64 = 0;
        let mut k: usize = 0;
        let nmu: usize = coefs.len();
        while k < nmu
            invariant
                protos.wf(),
                protos.dims@.len() == 4,
                batch_idx < protos.dims@[0],
                forall|i: int|
                    0 <= i < coefs@.len() ==> -VAL_LIMIT <= #[trigger] coefs@[i] <= VAL_LIMIT,
                t == *protos && bi == batch_idx as int,
                nmu == coefs@.len() == protos.dims@[1],
                nmu <= MAX_MASK_CHANNELS,
                (p as u64) < plane,
                plane == protos.dims@[2] * protos.dims@[3],
                k <= nmu,
                acc as int == mask_dot(t, bi, coefs@, p as int, k as int),
                -(k as int) * PRODUCT_LIMIT <= acc as int <= (k as int) * PRODUCT_LIMIT,
            decreases nmu - k,
        {
            let c = coefs[k];
            let v = protos.at4_flat(batch_idx, k, p);
            proof {
                assert(-PRODUCT_LIMIT <= c as int * v as int <= PRODUCT_LIMIT)
                    by (nonlinear_arith)
                    requires
                        -0x100_0000 <= c as int <= 0x100_0000,
                        -0x100_0000 <= v as int <= 0x100_0000,
                ;
                assert((k as int) * PRODUCT_LIMIT <= 1024 * PRODUCT_LIMIT
                    && ((k + 1) as int) * PRODUCT_LIMIT == (k as int) * PRODUCT_LIMIT
                        + PRODUCT_LIMIT) by (nonlinear_arith)
                    requires
                        0 <= k as int <= 1024,
                ;
            }
            acc = acc + c * v;
            k += 1;
        }
        raw.push(acc);
        p += 1;
    }
    Ok(raw)
}

/// The byte value of one raw mask entry: the `UNIT_SQ`-scaled value clamped
/// into `[0, 1]` and spread over `0 ..= 255`.
pub open spec fn quantize_val(v: int) -> int {
    clamp_spec(clamp_spec(v, 0, UNIT_SQ as int) * 255 / (UNIT_SQ as int), 0, 255)
}

/// Quantizes one raw mask value to a byte.
pub fn quantize_byte(v: i64) -> (r: u8)
    ensures
        r as int == quantize_val(v as int),
{
    let cl: i64 = clamp_i64(v, 0, UNIT_SQ);
    let q: u64 = ((cl as u64) * 255) / (UNIT_SQ as u64);
    proof {
        lemma_div_is_ordered(cl as int * 255, UNIT_SQ as int * 255, UNIT_SQ as int);
        lemma_div_by_multiple(255, UNIT_SQ as int);
        lemma_div_pos_is_pos(cl as int * 255, UNIT_SQ as int);
    }
    q as u8
}

/// Quantizes a whole raw mask to bytes.
pub fn quantize_mask(raw: &Vec<i64>) -> (r: Vec<u8>)
    ensures
        r@.len() == raw@.len(),
        forall|i: int| 0 <= i < r@.len() ==> #[trigger] r@[i] as int == quantize_val(raw@[i] as int),
{
    let mut out: Vec<u8> = Vec::new();
    let mut i: usize = 0;
    let n = raw.len();
    while i < n
        invariant
            n == raw@.len(),
            i <= n,
            out@.len() == i,
            forall|q: int|
                0 <= q < out@.len() ==> #[trigger] out@[q] as int == quantize_val(raw@[q] as int),
        decreases n - i,
    {
        let b = quantize_byte(raw[i]);
        out.push(b);
        i += 1;
    }
    out
}

/// The top-left `crop_w x crop_h` region of a `full_w x full_h` byte grid.
pub open spec fn crop_spec(data: Seq<u8>, full_w: int, crop_w: int, crop_h: int) -> Seq<u8> {
    if crop_w <= 0 || crop_h <= 0 {
        Seq::empty()
    } else {
        Seq::new((crop_w * crop_h) as nat, |i: int| data[(i / crop_w) * full_w + i % crop_w])
    }
}

/// Crops the valid (non-padded) top-left region out of a byte grid.
pub fn crop_top_left(data: &Vec<u8>, full_w: u32, full_h: u32, crop_w: u32, crop_h: u32) -> (r:
    Vec<u8>)
    requires
        data@.len() == full_w as int * full_h as int,
        full_w <= 32768,
        full_h <= 32768,
        crop_w <= full_w,
        crop_h <= full_h,
    ensures
        r@ == crop_spec(data@, full_w as int, crop_w as int, crop_h as int),
        r@.len() == if crop_w == 0 || crop_h == 0 { 0 as int } else { crop_w as int * crop_h as int },
{
    let mut out: Vec<u8> = Vec::new();
    if crop_w == 0 || crop_h == 0 {
        proof {
            assert(out@ =~= crop_spec(data@, full_w as int, crop_w as int, crop_h as int));
        }
        return out;
    }
    let mut row: u32 = 0;
    proof {
        lemma_grid_products(full_w as int, full_h as int, crop_w as int, crop_h as int);
        lemma_grid_products(full_w as int, full_h as int, full_w as int, full_h as int);
    }
    while row < crop_h
        invariant
            data@.len() == full_w as int * full_h as int,
            full_w <= 32768,
            full_h <= 32768,
            1 <= crop_w <= full_w,
            1 <= crop_h <= full_h,
            row <= crop_h,
            crop_w as int * crop_h as int <= 0x4000_0000,
            full_w as int * full_h as int <= 0x4000_0000,
            out@.len() == row as int * crop_w as int,
            forall|i: int|
                0 <= i < out@.len() ==> #[trigger] out@[i] == data@[(i / crop_w as int) * full_w
                    + i % crop_w as int],
        decreases crop_h as int - row as int,
    {
        let mut col: u32 = 0;
        while col < crop_w
            invariant
                data@.len() == full_w as int * full_h as int,
                full_w <= 32768,
                full_h <= 32768,
                1 <= crop_w <= full_w,
                1 <= crop_h <= full_h,
                row < crop_h,
                col <= crop_w,
                crop_w as int * crop_h as int <= 0x4000_0000,
                full_w as int * full_h as int <= 0x4000_0000,
                out@.len() == row as int * crop_w as int + col as int,
                forall|i: int|
                    0 <= i < out@.len() ==> #[trigger] out@[i] == data@[(i / crop_w as int)
                        * full_w + i % crop_w as int],
            decreases crop_w as int - col as int,
        {
            proof {
                lemma_grid_index(row as int, col as int, crop_w as int, crop_h as int,
                    full_w as int, full_h as int);
            }
            let src: usize = (row as usize) * (full_w as usize) + (col as usize);
            let v = data[src];
            out.push(v);
            col += 1;
        }
        row += 1;
        proof {
            assert(row as int * crop_w as int == (row as int - 1) * crop_w as int
                + crop_w as int) by (nonlinear_arith);
        }
    }
    proof {
        assert(crop_h as int * crop_w as int == crop_w as int * crop_h as int)
            by (nonlinear_arith);
        assert(out@ =~= crop_spec(data@, full_w as int, crop_w as int, crop_h as int));
    }
    out
}

/// Grid products stay small.
proof fn lemma_grid_products(full_w: int, full_h: int, crop_w: int, crop_h: int)
    requires
        0 <= crop_w <= full_w <= 32768,
        0 <= crop_h <= full_h <= 32768,
    ensures
        0 <= crop_w * crop_h <= 0x4000_0000,
        crop_w * crop_h <= full_w * full_h,
{
    assert(0 <= crop_w * crop_h <= 0x4000_0000 && crop_w * crop_h <= full_w * full_h)
        by (nonlinear_arith)
        requires
            0 <= crop_w <= full_w <= 32768,
            0 <= crop_h <= full_h <= 32768,
    ;
}

/// Row-major index facts for reading position `(row, col)` of the crop out
/// of the full grid.
proof fn lemma_grid_index(row: int, col: int, crop_w: int, crop_h: int, full_w: int, full_h: int)
    requires
        0 <= row < crop_h,
        0 <= col < crop_w,
        crop_w <= full_w <= 32768,
        crop_h <= full_h <= 32768,
    ensures
        0 <= row * full_w + col < full_w * full_h,
        0 <= row * crop_w + col < crop_w * crop_h,
        (row * crop_w + col) / crop_w == row,
        (row * crop_w + col) % crop_w == col,
{
    assert(0 <= row * full_w + col < full_w * full_h && 0 <= row * crop_w + col
        < crop_w * crop_h) by (nonlinear_arith)
        requires
            0 <= row < crop_h,
            0 <= col < crop_w,
            crop_w <= full_w <= 32768,
            crop_h <= full_h <= 32768,
    ;
    assert((row * crop_w + col) / crop_w == row && (row * crop_w + col) % crop_w == col)
        by (nonlinear_arith)
        requires
            0 <= row,
            0 <= col < crop_w,
    ;
}

/// What `image::imageops::resize` returns on a single-channel byte image:
/// a pure function of the source pixels, the source dimensions, the target
/// dimensions and the filter choice.
pub uninterp spec fn resize_of(data: Seq<u8>, w: int, h: int, nw: int, nh: int, smooth: bool)
    -> Seq<u8>;

/// Relies on `image::imageops::resize` (with `ImageBuffer::from_raw` /
/// `into_raw` converting between buffers): resampling a `w x h`
/// single-channel byte image to `nw x nh` pixels, with the Catmull-Rom
/// filter when `smooth` and the triangle (bilinear) filter otherwise. The
/// result is an `nw x nh` buffer and depends on the arguments alone.
#[verifier::external_body]
fn resize_bytes(data: &Vec<u8>, w: u32, h: u32, nw: u32, nh: u32, smooth: bool) -> (r: Vec<u8>)
    requires
        data@.len() == w as int * h as int,
        1 <= nw <= 8192,
        1 <= nh <= 8192,
    ensures
        r@.len() == nw as int * nh as int,
        r@ == resize_of(data@, w as int, h as int, nw as int, nh as int, smooth),
{
    let img: image::ImageBuffer<image::Luma<u8>, Vec<u8>> = image::ImageBuffer::from_raw(w, h,
        data.clone()).expect("buffer length equals width * height");
    let filter = if smooth {
        image::imageops::FilterType::CatmullRom
    } else {
        image::imageops::FilterType::Triangle
    };
    image::imageops::resize(&img, nw, nh, filter).into_raw()
}

/// Pixel `(x, y)` lies inside the box whose coordinates are numerators over
/// `den`, bounds taken inclusively at whole-pixel resolution.
pub open spec fn in_box(b: Bbox, den: int, x: int, y: int) -> bool {
    &&& b.x as int / den <= x <= (b.x + b.width) as int / den
    &&& b.y as int / den <= y <= (b.y + b.height) as int / den
}

/// The mask after the hard crop to the box: every pixel outside the box is
/// zero, every pixel inside keeps its value.
pub open spec fn box_crop_spec(data: Seq<u8>, img_w: int, img_h: int, b: Bbox, den: int)
    -> Seq<u8> {
    Seq::new((img_w * img_h) as nat, |i: int| if in_box(b, den, i % img_w, i / img_w) {
        data[i]
    } else {
        0u8
    })
}

/// Zeroes every pixel of an image-sized mask outside the detection's own
/// (already clamped) box: a hard crop to the box, not a soft overlay.
pub fn crop_to_box(data: &Vec<u8>, img_w: u32, img_h: u32, b: &Bbox, den: i64) -> (r: Vec<u8>)
    requires
        data@.len() == img_w as int * img_h as int,
        1 <= img_w <= 8192,
        1 <= img_h <= 8192,
        b.wf(),
        1 <= den,
    ensures
        r@ == box_crop_spec(data@, img_w as int, img_h as int, *b, den as int),
        r@.len() == img_w as int * img_h as int,
{
    let x_min: u64 = (b.x as u64) / (den as u64);
    let x_max: u64 = ((b.x + b.width) as u64) / (den as u64);
    let y_min: u64 = (b.y as u64) / (den as u64);
    let y_max: u64 = ((b.y + b.height) as u64) / (den as u64);
    let mut out: Vec<u8> = Vec::new();
    let mut row: u32 = 0;
    proof {
        lemma_grid_products(img_w as int, img_h as int, img_w as int, img_h as int);
    }
    while row < img_h
        invariant
            data@.len() == img_w as int * img_h as int,
            1 <= img_w <= 8192,
            1 <= img_h <= 8192,
            b.wf(),
            1 <= den,
            x_min == b.x as int / den as int,
            x_max == (b.x + b.width) as int / den as int,
            y_min == b.y as int / den as int,
            y_max == (b.y + b.height) as int / den as int,
            row <= img_h,
            img_w as int * img_h as int <= 0x4000_0000,
            out@.len() == row as int * img_w as int,
            forall|i: int|
                0 <= i < out@.len() ==> #[trigger] out@[i] == (if in_box(*b, den as int,
                    i % img_w as int, i / img_w as int) {
                    data@[i]
                } else {
                    0u8
                }),
        decreases img_h as int - row as int,
    {
        let mut col: u32 = 0;
        while col < img_w
            invariant
                data@.len() == img_w as int * img_h as int,
                1 <= img_w <= 8192,
                1 <= img_h <= 8192,
                b.wf(),
                1 <= den,
                x_min == b.x as int / den as int,
                x_max == (b.x + b.width) as int / den as int,
                y_min == b.y as int / den as int,
                y_max == (b.y + b.height) as int / den as int,
                row < img_h,
                col <= img_w,
                img_w as int * img_h as int <= 0x4000_0000,
                out@.len() == row as int * img_w as int + col as int,
                forall|i: int|
                    0 <= i < out@.len() ==> #[trigger] out@[i] == (if in_box(*b, den as int,
                        i % img_w as int, i / img_w as int) {
                        data@[i]
                    } else {
                        0u8
                    }),
            decreases img_w as int - col as int,
        {
            proof {
                lemma_grid_index(row as int, col as int, img_w as int, img_h as int,
                    img_w as int, img_h as int);
            }
            let idx: usize = (row as usize) * (img_w as usize) + (col as usize);
            let inside = (col as u64) >= x_min && (col as u64) <= x_max && (row as u64) >= y_min
                && (row as u64) <= y_max;
            let v = if inside {
                data[idx]
            } else {
                0u8
            };
            out.push(v);
            col += 1;
        }
        row += 1;
        proof {
            assert(row as int * img_w as int == (row as int - 1) * img_w as int + img_w as int)
                by (nonlinear_arith);
        }
    }
    proof {
        assert(img_h as int * img_w as int == img_w as int * img_h as int) by (nonlinear_arith);
        assert(out@ =~= box_crop_spec(data@, img_w as int, img_h as int, *b, den as int));
    }
    out
}

/// A pixel outside the box is zero in the box-cropped mask; a pixel inside
/// keeps its value: the reconstructed mask is non-zero only inside its
/// detection's bounding box.
pub proof fn lemma_box_crop_pixel(data: Seq<u8>, w: int, h: int, b: Bbox, den: int, x: int,
    y: int)
    requires
        data.len() == w * h,
        1 <= w <= 8192,
        1 <= h <= 8192,
        0 <= x < w,
        0 <= y < h,
    ensures
        !in_box(b, den, x, y) ==> box_crop_spec(data, w, h, b, den)[y * w + x] == 0u8,
        in_box(b, den, x, y) ==> box_crop_spec(data, w, h, b, den)[y * w + x] == data[y * w + x],
{
    lemma_grid_index(y, x, w, h, w, h);
}

/// The reconstructed, image-sized mask of one candidate: raw matrix product,
/// byte quantization, crop to the valid letterboxed region, resize to image
/// resolution, hard crop to the candidate's box.
pub open spec fn mask_spec(coefs: Seq<i64>, protos: Tensor, bi: int, m: CoordinateMapper,
    b: Bbox, smooth: bool) -> Seq<u8> {
    let mh = protos.dims@[2] as int;
    let mw = protos.dims@[3] as int;
    let raw = Seq::new((mh * mw) as nat, |p: int| mask_dot(protos, bi, coefs, p,
        coefs.len() as int));
    let quantized = Seq::new(raw.len(), |p: int| quantize_val(raw[p] as int) as u8);
    let sel_num = if width_binds(m.orig_w as int, m.orig_h as int, mw, mh) { mw } else { mh };
    let sel_den = if width_binds(m.orig_w as int, m.orig_h as int, mw, mh) {
        m.orig_w as int
    } else {
        m.orig_h as int
    };
    let cw = round_scale(m.orig_w as int, sel_num, sel_den);
    let ch = round_scale(m.orig_h as int, sel_num, sel_den);
    let cropped = crop_spec(quantized, mw, cw, ch);
    let resized = resize_of(cropped, cw, ch, m.orig_w as int, m.orig_h as int, smooth);
    box_crop_spec(resized, m.orig_w as int, m.orig_h as int, b, m.den())
}

/// Reconstructs the full-resolution mask of one kept candidate.
///
/// `m` is the frame's letterbox mapper (it fixes the coordinate denominator
/// and the valid region); `b` is the candidate's already-clamped box. Fails
/// with `NumericError` exactly when the coefficient count does not match the
/// prototype channel count; the result is one byte per original-image pixel,
/// zero outside the box.
pub fn reconstruct_mask(coefs: &Vec<i64>, protos: &Tensor, batch_idx: usize,
    m: &CoordinateMapper, b: &Bbox, smooth: bool) -> (r: Result<Vec<u8>, PipelineError>)
    requires
        protos.wf(),
        protos.dims@.len() == 4,
        batch_idx < protos.dims@[0],
        protos.dims@[1] <= MAX_MASK_CHANNELS,
        protos.dims@[2] <= MAX_DIM,
        protos.dims@[3] <= MAX_DIM,
        forall|i: int| 0 <= i < coefs@.len() ==> -VAL_LIMIT <= #[trigger] coefs@[i] <= VAL_LIMIT,
        m.wf(),
        b.wf(),
    ensures
        match r {
            Ok(mk) => {
                &&& coefs@.len() == protos.dims@[1]
                &&& mk@ == mask_spec(coefs@, *protos, batch_idx as int, *m, *b, smooth)
                &&& mk@.len() == m.orig_w as int * m.orig_h as int
            },
            Err(e) => {
                &&& e == PipelineError::NumericError
                &&& coefs@.len() != protos.dims@[1]
            },
        },
{
    let raw = match reconstruct_raw(coefs, protos, batch_idx) {
        Ok(raw) => raw,
        Err(e) => {
            return Err(e);
        },
    };
    let quantized = quantize_mask(&raw);
    let mh: u32 = protos.dim(2) as u32;
    let mw: u32 = protos.dim(3) as u32;
    // The valid region of the prototype-resolution mask, from the same
    // letterbox rule applied to the prototype canvas.
    let proto_map = CoordinateMapper::new(m.orig_w, m.orig_h, mw, mh);
    proof {
        assert(protos.dims@[2] as int * protos.dims@[3] as int == mw as int * mh as int)
            by (nonlinear_arith)
            requires
                mh as int == protos.dims@[2] as int,
                mw as int == protos.dims@[3] as int,
        ;
    }
    let cropped = crop_top_left(&quantized, mw, mh, proto_map.scaled_w, proto_map.scaled_h);
    let resized = resize_bytes(&cropped, proto_map.scaled_w, proto_map.scaled_h, m.orig_w,
        m.orig_h, smooth);
    let den: i64 = 2 * (m.ratio_num as i64);
    let out = crop_to_box(&resized, m.orig_w, m.orig_h, b, den);
    proof {
        assert(quantized@ =~= Seq::new((protos.dims@[2] as int * protos.dims@[3] as int) as nat,
            |p: int| quantize_val(Seq::new((protos.dims@[2] as int
                * protos.dims@[3] as int) as nat, |q: int| mask_dot(*protos, batch_idx as int,
                coefs@, q, coefs@.len() as int))[p] as int) as u8));
    }
    Ok(out)
}

} // verus!
