//! The letterbox coordinate transform between an original image and the fixed
//! model input, kept as an exact rational: `ratio = ratio_num / ratio_den`.

use vstd::prelude::*;
use vstd::arithmetic::div_mod::{
    lemma_multiply_divide_lt,
    lemma_div_pos_is_pos,
    lemma_div_is_ordered,
};
use crate::params::MAX_DIM;

verus! {

/// Scale and padding between an original image `orig_w x orig_h` and a target
/// canvas `model_w x model_h`, aspect ratio preserved.
///
/// The scale ratio is the exact fraction `ratio_num / ratio_den =
/// min(model_w / orig_w, model_h / orig_h)`; the scaled content is centred on
/// the canvas with the left/top offsets rounded down.
#[derive(Clone, Copy, PartialEq, Eq, Structural, Debug)]
pub struct CoordinateMapper {
    pub orig_w: u32,
    pub orig_h: u32,
    pub model_w: u32,
    pub model_h: u32,
    pub ratio_num: u32,
    pub ratio_den: u32,
    pub scaled_w: u32,
    pub scaled_h: u32,
    pub pad_x: u32,
    pub pad_y: u32,
}

/// Does the width bind the scale, i.e. `model_w / orig_w <= model_h / orig_h`?
pub open spec fn width_binds(w0: int, h0: int, w1: int, h1: int) -> bool {
    w1 * h0 <= h1 * w0
}

/// `v * num / den` rounded to the nearest integer, halves away from zero
/// (all quantities here are non-negative).
pub open spec fn round_scale(v: int, num: int, den: int) -> int {
    (2 * v * num + den) / (2 * den)
}

/// The mapper a given image and canvas determine: the value
/// [`CoordinateMapper::new`] returns.
pub open spec fn mapper_for(w0: u32, h0: u32, w1: u32, h1: u32) -> CoordinateMapper {
    let wb = width_binds(w0 as int, h0 as int, w1 as int, h1 as int);
    let rn: int = if wb { w1 as int } else { h1 as int };
    let rd: int = if wb { w0 as int } else { h0 as int };
    let sw = round_scale(w0 as int, rn, rd);
    let sh = round_scale(h0 as int, rn, rd);
    CoordinateMapper {
        orig_w: w0,
        orig_h: h0,
        model_w: w1,
        model_h: h1,
        ratio_num: rn as u32,
        ratio_den: rd as u32,
        scaled_w: sw as u32,
        scaled_h: sh as u32,
        pad_x: ((w1 - sw) / 2) as u32,
        pad_y: ((h1 - sh) / 2) as u32,
    }
}

impl CoordinateMapper {
    /// The fields are exactly the ones derived from the four dimensions.
    pub open spec fn wf(self) -> bool {
        let w0 = self.orig_w as int;
        let h0 = self.orig_h as int;
        let w1 = self.model_w as int;
        let h1 = self.model_h as int;
        &&& 1 <= w0 <= MAX_DIM && 1 <= h0 <= MAX_DIM
        &&& 1 <= w1 <= MAX_DIM && 1 <= h1 <= MAX_DIM
        &&& self.ratio_num == if width_binds(w0, h0, w1, h1) { w1 } else { h1 }
        &&& self.ratio_den == if width_binds(w0, h0, w1, h1) { w0 } else { h0 }
        &&& self.scaled_w == round_scale(w0, self.ratio_num as int, self.ratio_den as int)
        &&& self.scaled_h == round_scale(h0, self.ratio_num as int, self.ratio_den as int)
        &&& self.scaled_w <= w1
        &&& self.scaled_h <= h1
        &&& self.pad_x == (w1 - self.scaled_w) / 2
        &&& self.pad_y == (h1 - self.scaled_h) / 2
        &&& self.pad_x <= MAX_DIM
        &&& self.pad_y <= MAX_DIM
    }

    /// Denominator of all box and keypoint coordinates mapped back into the
    /// original image: one coordinate unit is `1 / den()` of a pixel.
    pub open spec fn den(self) -> int {
        2 * self.ratio_num as int
    }

    /// Computes the letterbox parameters for an original image and a target
    /// canvas.
    pub fn new(orig_w: u32, orig_h: u32, model_w: u32, model_h: u32) -> (r: CoordinateMapper)
        requires
            1 <= orig_w <= MAX_DIM,
            1 <= orig_h <= MAX_DIM,
            1 <= model_w <= MAX_DIM,
            1 <= model_h <= MAX_DIM,
        ensures
            r.wf(),
            r == mapper_for(orig_w, orig_h, model_w, model_h),
            r.orig_w == orig_w && r.orig_h == orig_h,
            r.model_w == model_w && r.model_h == model_h,
    {
        proof {
            assert((model_w as int) * (orig_h as int) <= 8192 * 8192
                && (model_h as int) * (orig_w as int) <= 8192 * 8192) by (nonlinear_arith)
                requires
                    1 <= model_w as int <= 8192,
                    1 <= orig_h as int <= 8192,
                    1 <= model_h as int <= 8192,
                    1 <= orig_w as int <= 8192,
            ;
        }
        let cross_w = (model_w as u64) * (orig_h as u64);
        let cross_h = (model_h as u64) * (orig_w as u64);
        let (ratio_num, ratio_den) = if cross_w <= cross_h {
            (model_w, orig_w)
        } else {
            (model_h, orig_h)
        };
        proof {
            // The chosen fraction never scales a side beyond its target:
            // orig * num <= target * den on both axes.
            assert((orig_w as int) * (ratio_num as int) <= (model_w as int) * (ratio_den as int)
                && (orig_h as int) * (ratio_num as int) <= (model_h as int) * (ratio_den as int))
                by (nonlinear_arith)
                requires
                    (if (model_w as int) * (orig_h as int) <= (model_h as int) * (orig_w as int) {
                        ratio_num as int == model_w as int && ratio_den as int == orig_w as int
                    } else {
                        ratio_num as int == model_h as int && ratio_den as int == orig_h as int
                    }),
                    (model_w as int) * (orig_h as int) <= (model_h as int) * (orig_w as int)
                        || (model_h as int) * (orig_w as int) < (model_w as int) * (orig_h as int),
            ;
        }
        let scaled_w = Self::round_scale_exec(orig_w, model_w, ratio_num, ratio_den);
        let scaled_h = Self::round_scale_exec(orig_h, model_h, ratio_num, ratio_den);
        let pad_x = (model_w - scaled_w) / 2;
        let pad_y = (model_h - scaled_h) / 2;
        proof {
            lemma_div_is_ordered(model_w - scaled_w, MAX_DIM as int, 2);
            lemma_div_is_ordered(model_h - scaled_h, MAX_DIM as int, 2);
        }
        CoordinateMapper {
            orig_w,
            orig_h,
            model_w,
            model_h,
            ratio_num,
            ratio_den,
            scaled_w,
            scaled_h,
            pad_x,
            pad_y,
        }
    }

    /// One rounded scaled side, `v * num / den` with halves rounded up, shown
    /// never to pass the target side `cap`.
    fn round_scale_exec(v: u32, cap: u32, num: u32, den: u32) -> (r: u32)
        requires
            1 <= v <= MAX_DIM,
            1 <= cap <= MAX_DIM,
            1 <= num <= MAX_DIM,
            1 <= den <= MAX_DIM,
            v * num <= cap * den,
        ensures
            r == round_scale(v as int, num as int, den as int),
            r <= cap,
    {
        proof {
            assert(2 * (v as int) * (num as int) <= 2 * 8192 * 8192) by (nonlinear_arith)
                requires
                    1 <= v as int <= 8192,
                    1 <= num as int <= 8192,
            ;
        }
        let numerator = 2 * (v as u64) * (num as u64) + (den as u64);
        let r = numerator / (2 * (den as u64));
        proof {
            let n = numerator as int;
            let d = 2 * (den as int);
            assert(n < d * (cap as int + 1)) by (nonlinear_arith)
                requires
                    n == 2 * (v as int) * (num as int) + den as int,
                    d == 2 * (den as int),
                    (v as int) * (num as int) <= (cap as int) * (den as int),
                    1 <= den as int,
            ;
            lemma_multiply_divide_lt(n, d, cap as int + 1);
            lemma_div_pos_is_pos(n, d);
            assert(r as int == n / d);
        }
        r as u32
    }

    /// Numerator over `ratio_den` of the model-space x of an original-image x:
    /// the forward transform `x * ratio + pad_x` as an exact fraction.
    pub open spec fn forward_x_num(self, x: int) -> int {
        x * self.ratio_num + self.pad_x * self.ratio_den
    }

    /// Numerator over `ratio_den` of the model-space y of an original-image y.
    pub open spec fn forward_y_num(self, y: int) -> int {
        y * self.ratio_num + self.pad_y * self.ratio_den
    }

    /// Numerator of the inverse transform `(v - pad_x) / ratio` applied to a
    /// model-space x given as the fraction `v_num / v_den`; the result's
    /// denominator is `v_den * ratio_num`.
    pub open spec fn inverse_x_num(self, v_num: int, v_den: int) -> int {
        (v_num - self.pad_x * v_den) * self.ratio_den
    }

    /// Numerator of the inverse transform of a model-space y fraction.
    pub open spec fn inverse_y_num(self, v_num: int, v_den: int) -> int {
        (v_num - self.pad_y * v_den) * self.ratio_den
    }

    /// Model-space x for an original-image x, as a numerator over `ratio_den`.
    pub fn forward_x(&self, x: i64) -> (r: i64)
        requires
            self.wf(),
            -0x1_0000_0000 <= x <= 0x1_0000_0000,
        ensures
            r == self.forward_x_num(x as int),
    {
        proof {
            lemma_scaled_products_fit(x as int, self.ratio_num as int, self.pad_x as int,
                self.ratio_den as int);
        }
        x * (self.ratio_num as i64) + (self.pad_x as i64) * (self.ratio_den as i64)
    }

    /// Model-space y for an original-image y, as a numerator over `ratio_den`.
    pub fn forward_y(&self, y: i64) -> (r: i64)
        requires
            self.wf(),
            -0x1_0000_0000 <= y <= 0x1_0000_0000,
        ensures
            r == self.forward_y_num(y as int),
    {
        proof {
            lemma_scaled_products_fit(y as int, self.ratio_num as int, self.pad_y as int,
                self.ratio_den as int);
        }
        y * (self.ratio_num as i64) + (self.pad_y as i64) * (self.ratio_den as i64)
    }

    /// Original-image x for an integer model-space x, as a numerator over
    /// `ratio_num`.
    pub fn inverse_x(&self, v: i64) -> (r: i64)
        requires
            self.wf(),
            -0x1_0000_0000 <= v <= 0x1_0000_0000,
        ensures
            r == self.inverse_x_num(v as int, 1),
    {
        proof {
            lemma_scaled_products_fit(v as int - self.pad_x as int, self.ratio_den as int, 0, 1);
        }
        (v - self.pad_x as i64) * (self.ratio_den as i64)
    }

    /// Original-image y for an integer model-space y, as a numerator over
    /// `ratio_num`.
    pub fn inverse_y(&self, v: i64) -> (r: i64)
        requires
            self.wf(),
            -0x1_0000_0000 <= v <= 0x1_0000_0000,
        ensures
            r == self.inverse_y_num(v as int, 1),
    {
        proof {
            lemma_scaled_products_fit(v as int - self.pad_y as int, self.ratio_den as int, 0, 1);
        }
        (v - self.pad_y as i64) * (self.ratio_den as i64)
    }
}

/// Bounds the two products of a transform step so the `i64` arithmetic in the
/// executable transforms cannot overflow.
proof fn lemma_scaled_products_fit(a: int, s: int, p: int, d: int)
    requires
        -0x2_0000_0000 <= a <= 0x2_0000_0000,
        0 <= s <= MAX_DIM,
        0 <= p <= MAX_DIM,
        0 <= d <= MAX_DIM,
    ensures
        -0x4000_0000_0000 <= a * s <= 0x4000_0000_0000,
        0 <= p * d <= 0x400_0000,
{
    assert(-0x4000_0000_0000 <= a * s <= 0x4000_0000_0000 && 0 <= p * d <= 0x400_0000)
        by (nonlinear_arith)
        requires
            -0x2_0000_0000 <= a <= 0x2_0000_0000,
            0 <= s <= 8192,
            0 <= p <= 8192,
            0 <= d <= 8192,
    ;
}

/// The pixel at flat index `i` of the letterboxed canvas: the resized
/// content where `i` falls inside the placed region, the fill value
/// elsewhere.
pub open spec fn canvas_pixel(src: Seq<u8>, src_w: int, src_h: int, canvas_w: int, pad_x: int,
    pad_y: int, fill: u8, i: int) -> u8 {
    let x = i % canvas_w;
    let y = i / canvas_w;
    if pad_x <= x && x < pad_x + src_w && pad_y <= y && y < pad_y + src_h {
        src[(y - pad_y) * src_w + (x - pad_x)]
    } else {
        fill
    }
}

/// One channel plane of the letterboxed model input: the resized content at
/// its pad offset, the rest the fill value.
pub open spec fn canvas_spec(src: Seq<u8>, src_w: int, src_h: int, canvas_w: int, canvas_h: int,
    pad_x: int, pad_y: int, fill: u8) -> Seq<u8> {
    Seq::new((canvas_w * canvas_h) as nat, |i: int| canvas_pixel(src, src_w, src_h, canvas_w,
        pad_x, pad_y, fill, i))
}

/// Copies a resized single-channel image onto a larger canvas at the given
/// pad offset, everything else set to the fill value: the placement step of
/// building the letterboxed model input.
pub fn place_on_canvas(src: &Vec<u8>, src_w: u32, src_h: u32, canvas_w: u32, canvas_h: u32,
    pad_x: u32, pad_y: u32, fill: u8) -> (r: Vec<u8>)
    requires
        src@.len() == src_w as int * src_h as int,
        1 <= canvas_w <= MAX_DIM,
        1 <= canvas_h <= MAX_DIM,
        1 <= src_w,
        1 <= src_h,
        pad_x + src_w <= canvas_w,
        pad_y + src_h <= canvas_h,
    ensures
        r@ == canvas_spec(src@, src_w as int, src_h as int, canvas_w as int, canvas_h as int,
            pad_x as int, pad_y as int, fill),
        r@.len() == canvas_w as int * canvas_h as int,
{
    let mut out: Vec<u8> = Vec::new();
    let mut row: u32 = 0;
    proof {
        lemma_canvas_products(src_w as int, src_h as int, canvas_w as int, canvas_h as int);
    }
    while row < canvas_h
        invariant
            src@.len() == src_w as int * src_h as int,
            1 <= canvas_w <= MAX_DIM,
            1 <= canvas_h <= MAX_DIM,
            1 <= src_w,
            1 <= src_h,
            pad_x + src_w <= canvas_w,
            pad_y + src_h <= canvas_h,
            row <= canvas_h,
            canvas_w as int * canvas_h as int <= 0x4000_0000,
            src_w as int * src_h as int <= 0x4000_0000,
            out@.len() == row as int * canvas_w as int,
            forall|i: int|
                0 <= i < out@.len() ==> #[trigger] out@[i] == canvas_pixel(src@, src_w as int,
                    src_h as int, canvas_w as int, pad_x as int, pad_y as int, fill, i),
        decreases canvas_h as int - row as int,
    {
        let mut col: u32 = 0;
        while col < canvas_w
            invariant
                src@.len() == src_w as int * src_h as int,
                1 <= canvas_w <= MAX_DIM,
                1 <= canvas_h <= MAX_DIM,
                1 <= src_w,
                1 <= src_h,
                pad_x + src_w <= canvas_w,
                pad_y + src_h <= canvas_h,
                row < canvas_h,
                col <= canvas_w,
                canvas_w as int * canvas_h as int <= 0x4000_0000,
                src_w as int * src_h as int <= 0x4000_0000,
                out@.len() == row as int * canvas_w as int + col as int,
                forall|i: int|
                    0 <= i < out@.len() ==> #[trigger] out@[i] == canvas_pixel(src@,
                        src_w as int, src_h as int, canvas_w as int, pad_x as int, pad_y as int,
                        fill, i),
            decreases canvas_w as int - col as int,
        {
            proof {
                lemma_canvas_index(row as int, col as int, canvas_w as int, canvas_h as int);
            }
            let inside = col >= pad_x && col < pad_x + src_w && row >= pad_y && row < pad_y
                + src_h;
            let v = if inside {
                let srow: u32 = row - pad_y;
                let scol: u32 = col - pad_x;
                proof {
                    lemma_canvas_src_index(srow as int, scol as int, src_w as int, src_h as int);
                }
                let sidx: usize = (srow as usize) * (src_w as usize) + (scol as usize);
                src[sidx]
            } else {
                fill
            };
            out.push(v);
            col += 1;
        }
        row += 1;
        proof {
            assert(row as int * canvas_w as int == (row as int - 1) * canvas_w as int
                + canvas_w as int) by (nonlinear_arith);
        }
    }
    proof {
        assert(canvas_h as int * canvas_w as int == canvas_w as int * canvas_h as int)
            by (nonlinear_arith);
        assert(out@ =~= canvas_spec(src@, src_w as int, src_h as int, canvas_w as int,
            canvas_h as int, pad_x as int, pad_y as int, fill));
    }
    out
}

/// The canvas and source sizes stay small.
proof fn lemma_canvas_products(src_w: int, src_h: int, canvas_w: int, canvas_h: int)
    requires
        1 <= src_w <= canvas_w <= 8192,
        1 <= src_h <= canvas_h <= 8192,
    ensures
        0 <= canvas_w * canvas_h <= 0x4000_0000,
        src_w * src_h <= canvas_w * canvas_h,
{
    assert(0 <= canvas_w * canvas_h <= 0x4000_0000 && src_w * src_h <= canvas_w * canvas_h)
        by (nonlinear_arith)
        requires
            1 <= src_w <= canvas_w <= 8192,
            1 <= src_h <= canvas_h <= 8192,
    ;
}

/// Row-major index facts for the canvas position being written.
proof fn lemma_canvas_index(row: int, col: int, w: int, h: int)
    requires
        0 <= row < h,
        0 <= col < w,
        1 <= w <= 8192,
        1 <= h <= 8192,
    ensures
        0 <= row * w + col < w * h,
        (row * w + col) / w == row,
        (row * w + col) % w == col,
{
    assert(0 <= row * w + col < w * h) by (nonlinear_arith)
        requires
            0 <= row < h,
            0 <= col < w,
            1 <= w,
    ;
    assert((row * w + col) / w == row && (row * w + col) % w == col) by (nonlinear_arith)
        requires
            0 <= row,
            0 <= col < w,
    ;
}

/// The source pixel read for an inside canvas position is in the source.
proof fn lemma_canvas_src_index(srow: int, scol: int, src_w: int, src_h: int)
    requires
        0 <= srow < src_h,
        0 <= scol < src_w,
        1 <= src_w,
    ensures
        0 <= srow * src_w + scol < src_w * src_h,
{
    assert(0 <= srow * src_w + scol < src_w * src_h) by (nonlinear_arith)
        requires
            0 <= srow < src_h,
            0 <= scol < src_w,
            1 <= src_w,
    ;
}

/// The fractions `a_num / a_den` and `b_num / b_den` are equal.
pub open spec fn frac_eq(a_num: int, a_den: int, b_num: int, b_den: int) -> bool {
    a_num * b_den == b_num * a_den
}

/// Round trip of the letterbox transform: forward-transforming any
/// original-image x and inverse-transforming the result gives back exactly
/// the original x, as an identity of exact fractions.
pub proof fn lemma_round_trip_x(m: CoordinateMapper, x: int)
    requires
        m.wf(),
    ensures
        frac_eq(
            m.inverse_x_num(m.forward_x_num(x), m.ratio_den as int),
            m.ratio_den as int * m.ratio_num as int,
            x,
            1,
        ),
{
    let rn = m.ratio_num as int;
    let rd = m.ratio_den as int;
    let px = m.pad_x as int;
    assert((x * rn + px * rd - px * rd) * rd * 1 == x * (rd * rn)) by (nonlinear_arith);
}

/// Round trip of the letterbox transform on the y axis.
pub proof fn lemma_round_trip_y(m: CoordinateMapper, y: int)
    requires
        m.wf(),
    ensures
        frac_eq(
            m.inverse_y_num(m.forward_y_num(y), m.ratio_den as int),
            m.ratio_den as int * m.ratio_num as int,
            y,
            1,
        ),
{
    let rn = m.ratio_num as int;
    let rd = m.ratio_den as int;
    let py = m.pad_y as int;
    assert((y * rn + py * rd - py * rd) * rd * 1 == y * (rd * rn)) by (nonlinear_arith);
}

} // verus!
