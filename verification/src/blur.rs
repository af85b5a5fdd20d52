use vstd::prelude::*;

use vstd::arithmetic::div_mod::lemma_fundamental_div_mod_converse;

use crate::err::ImageError;
use crate::kernel::build_kernel;
use crate::kernel::kernel_seq;
use crate::kernel::radius_of;
use crate::kernel::radius_spec;
use crate::kernel::sum_weights;
use crate::kernel::lemma_sum_weights_take;
use crate::kernel::MAX_RADIUS;
use crate::kernel::W_ONE;
use crate::pixel::PixelGrid;

verus! {

/// Largest accepted width or height: a defensive cap so that decoding or
/// blurring cannot be asked to allocate unreasonable buffers.
pub const DIM_MAX: u32 = 16777216;

/// Clamps a coordinate into `[0, hi]` (edge-replication border policy).
pub open spec fn clampi(v: int, hi: int) -> int {
    if v < 0 {
        0
    } else if v > hi {
        hi
    } else {
        v
    }
}

/// Flat index of channel `c` of pixel `(x, y)` in a row-major interleaved
/// buffer of width `w` with `ch` bytes per pixel.
pub open spec fn flat(w: int, ch: int, x: int, y: int, c: int) -> int {
    (y * w + x) * ch + c
}

/// The sample value at channel `c` of pixel `(x, y)`.
pub open spec fn sample(pix: Seq<u8>, w: int, ch: int, x: int, y: int, c: int) -> int {
    pix[flat(w, ch, x, y, c)] as int
}

/// Division rounded to the nearest integer (half away from zero is not
/// needed: all operands here are nonnegative).
pub open spec fn round_div(a: int, b: int) -> int {
    (a + b / 2) / b
}

/// The first `k` taps of the horizontal convolution sum at channel `c` of
/// pixel `(x, y)`: out-of-range taps sample the clamped edge column.
pub open spec fn hacc(pix: Seq<u8>, w: int, ch: int, ker: Seq<u64>, rad: int, x: int, y: int, c: int, k: int) -> int
    decreases k,
{
    if k <= 0 {
        0
    } else {
        hacc(pix, w, ch, ker, rad, x, y, c, k - 1)
            + ker[k - 1] * sample(pix, w, ch, clampi(x + (k - 1) - rad, w - 1), y, c)
    }
}

/// The first `k` taps of the vertical convolution sum at channel `c` of
/// pixel `(x, y)`: out-of-range taps sample the clamped edge row.
pub open spec fn vacc(pix: Seq<u8>, w: int, h: int, ch: int, ker: Seq<u64>, rad: int, x: int, y: int, c: int, k: int) -> int
    decreases k,
{
    if k <= 0 {
        0
    } else {
        vacc(pix, w, h, ch, ker, rad, x, y, c, k - 1)
            + ker[k - 1] * sample(pix, w, ch, x, clampi(y + (k - 1) - rad, h - 1), c)
    }
}

/// One horizontally blurred sample: the full tap sum, normalized by the
/// kernel weight sum with rounding to nearest.
pub open spec fn hpix(pix: Seq<u8>, w: int, ch: int, ker: Seq<u64>, rad: int, s: int, x: int, y: int, c: int) -> int {
    round_div(hacc(pix, w, ch, ker, rad, x, y, c, ker.len() as int), s)
}

/// One vertically blurred sample.
pub open spec fn vpix(pix: Seq<u8>, w: int, h: int, ch: int, ker: Seq<u64>, rad: int, s: int, x: int, y: int, c: int) -> int {
    round_div(vacc(pix, w, h, ch, ker, rad, x, y, c, ker.len() as int), s)
}

/// The horizontal pass over a whole buffer.
pub open spec fn pass_h_spec(pix: Seq<u8>, w: int, h: int, ch: int, ker: Seq<u64>, rad: int, s: int) -> Seq<u8> {
    Seq::new((w * h * ch) as nat, |n: int| hpix(pix, w, ch, ker, rad, s, (n % (w * ch)) / ch, n / (w * ch), n % ch) as u8)
}

/// The vertical pass over a whole buffer.
pub open spec fn pass_v_spec(pix: Seq<u8>, w: int, h: int, ch: int, ker: Seq<u64>, rad: int, s: int) -> Seq<u8> {
    Seq::new((w * h * ch) as nat, |n: int| vpix(pix, w, h, ch, ker, rad, s, (n % (w * ch)) / ch, n / (w * ch), n % ch) as u8)
}

/// The complete separable Gaussian blur of a raw buffer: the horizontal
/// pass followed by the vertical pass, both with the kernel for
/// `sigma_milli`.
pub open spec fn blur_bytes_spec(pix: Seq<u8>, w: int, h: int, ch: int, sigma_milli: int) -> Seq<u8> {
    let rad = radius_spec(sigma_milli);
    let ker = kernel_seq(sigma_milli);
    let s = sum_weights(ker);
    pass_v_spec(pass_h_spec(pix, w, h, ch, ker, rad, s), w, h, ch, ker, rad, s)
}

/// Flat indices stay inside the buffer and decompose back into their
/// coordinates.
pub proof fn lemma_flat_decomp(w: int, h: int, ch: int, x: int, y: int, c: int)
    requires
        1 <= w,
        1 <= h,
        1 <= ch,
        0 <= x < w,
        0 <= y < h,
        0 <= c < ch,
    ensures
        0 <= y * w + x,
        y * w + x < w * h,
        0 <= (y * w + x) * ch,
        flat(w, ch, x, y, c) < w * h * ch,
        (y * w + x) * ch <= flat(w, ch, x, y, c),
        w * h <= w * h * ch,
        flat(w, ch, x, y, c) / (w * ch) == y,
        (flat(w, ch, x, y, c) % (w * ch)) / ch == x,
        flat(w, ch, x, y, c) % ch == c,
{
    let n = flat(w, ch, x, y, c);
    assert((y * w + x) * ch + c == y * (w * ch) + (x * ch + c)
        && 0 <= x * ch + c < w * ch
        && 0 <= y * w + x < w * h
        && 0 <= (y * w + x) * ch
        && (y * w + x) * ch + c < w * h * ch
        && w * h <= w * h * ch
        && (y * w + x) * ch + c == (y * w + x) * ch + c) by (nonlinear_arith)
        requires
            1 <= w,
            1 <= h,
            1 <= ch,
            0 <= x < w,
            0 <= y < h,
            0 <= c < ch,
    ;
    lemma_fundamental_div_mod_converse(n, w * ch, y, x * ch + c);
    lemma_fundamental_div_mod_converse(x * ch + c, ch, x, c);
    lemma_fundamental_div_mod_converse(n, ch, y * w + x, c);
}

/// A normalized, rounded tap sum of bytes stays a byte.
pub proof fn lemma_round_div_le(a: int, b: int, m: int)
    requires
        0 <= a,
        a <= m * b,
        b >= 1,
        m >= 0,
    ensures
        0 <= round_div(a, b) <= m,
{
    assert(0 <= (a + b / 2) / b <= m) by (nonlinear_arith)
        requires 0 <= a, a <= m * b, b >= 1, m >= 0,
    ;
}

/// Normalizing an exact multiple of the weight sum recovers the factor.
pub proof fn lemma_round_div_exact(v: int, b: int)
    requires
        0 <= v,
        b >= 1,
    ensures
        round_div(v * b, b) == v,
{
    assert((v * b + b / 2) / b == v) by (nonlinear_arith)
        requires 0 <= v, b >= 1,
    ;
}

/// The horizontal blur pass, verified against `pass_h_spec`.
#[verifier::loop_isolation(false)]
pub fn pass_h(pix: &Vec<u8>, w: usize, h: usize, ch: usize, ker: &Vec<u64>, rad: usize, s: u64) -> (out: Vec<u8>)
    requires
        pix@.len() == w * h * ch,
        1 <= w <= DIM_MAX,
        1 <= h <= DIM_MAX,
        1 <= ch <= 4,
        ker@.len() == 2 * rad + 1,
        1 <= rad <= MAX_RADIUS,
        forall|j: int| 0 <= j < ker@.len() ==> ker@[j] <= W_ONE,
        s == sum_weights(ker@),
        W_ONE <= s <= (2 * MAX_RADIUS + 1) * W_ONE,
    ensures
        out@ == pass_h_spec(pix@, w as int, h as int, ch as int, ker@, rad as int, s as int),
        out@.len() == pix@.len(),
{
    let ghost gspec = pass_h_spec(pix@, w as int, h as int, ch as int, ker@, rad as int, s as int);
    let _plen: usize = pix.len();
    proof {
        assert(pix@.len() <= usize::MAX);
    }
    let n_taps: usize = ker.len();
    let mut out: Vec<u8> = Vec::new();
    let mut y: usize = 0;
    while y < h
        invariant
            0 <= y <= h,
            out@.len() == y * (w * ch),
            out@.len() <= pix@.len(),
            forall|m: int| 0 <= m < out@.len() ==> out@[m] == gspec[m],
        decreases h - y,
    {
        let mut x: usize = 0;
        proof {
            assert(y * (w * ch) == (y * w + 0) * ch) by (nonlinear_arith);
        }
        while x < w
            invariant
                0 <= x <= w,
                y < h,
                out@.len() == (y * w + x) * ch,
                out@.len() <= pix@.len(),
                forall|m: int| 0 <= m < out@.len() ==> out@[m] == gspec[m],
            decreases w - x,
        {
            let mut c: usize = 0;
            while c < ch
                invariant
                    0 <= c <= ch,
                    x < w,
                    y < h,
                    out@.len() == (y * w + x) * ch + c,
                    out@.len() <= pix@.len(),
                    forall|m: int| 0 <= m < out@.len() ==> out@[m] == gspec[m],
                decreases ch - c,
            {
                let mut acc: u64 = 0;
                let mut t: usize = 0;
                while t < n_taps
                    invariant
                        0 <= t <= n_taps,
                        c < ch,
                        x < w,
                        y < h,
                        acc == hacc(pix@, w as int, ch as int, ker@, rad as int, x as int, y as int, c as int, t as int),
                        acc <= 255 * sum_weights(ker@.take(t as int)),
                    decreases n_taps - t,
                {
                    proof {
                        lemma_sum_weights_take(ker@, t as int);
                        lemma_sum_weights_take(ker@, t as int + 1);
                        assert(ker@.take(t as int + 1).drop_last() =~= ker@.take(t as int));
                    }
                    let xt: usize = x + t;
                    let sx: usize = if xt <= rad {
                        0
                    } else if xt - rad >= w {
                        w - 1
                    } else {
                        xt - rad
                    };
                    proof {
                        assert(sx as int == clampi(x as int + t as int - rad as int, w as int - 1));
                        lemma_flat_decomp(w as int, h as int, ch as int, sx as int, y as int, c as int);
                    }
                    let idx: usize = (y * w + sx) * ch + c;
                    let v = pix[idx];
                    proof {
                        assert((ker@[t as int] as int) * (v as int) <= (ker@[t as int] as int) * 255
                            && 0 <= (ker@[t as int] as int) * (v as int)) by (nonlinear_arith)
                            requires 0 <= ker@[t as int], 0 <= v <= 255,
                        ;
                    }
                    acc = acc + ker[t] * (v as u64);
                    t = t + 1;
                }
                proof {
                    lemma_sum_weights_take(ker@, n_taps as int);
                    lemma_round_div_le(acc as int, s as int, 255);
                }
                let val: u64 = (acc + s / 2) / s;
                proof {
                    lemma_flat_decomp(w as int, h as int, ch as int, x as int, y as int, c as int);
                }
                out.push(val as u8);
                c = c + 1;
            }
            x = x + 1;
            proof {
                assert((y * w + (x - 1)) * ch + ch == (y * w + x) * ch) by (nonlinear_arith);
            }
        }
        y = y + 1;
        proof {
            assert(((y - 1) * w + w) * ch == y * (w * ch)) by (nonlinear_arith);
        }
    }
    proof {
        assert(h * (w * ch) == w * h * ch) by (nonlinear_arith);
        assert(out@ =~= gspec);
    }
    out
}

/// The vertical blur pass, verified against `pass_v_spec`.
#[verifier::loop_isolation(false)]
pub fn pass_v(pix: &Vec<u8>, w: usize, h: usize, ch: usize, ker: &Vec<u64>, rad: usize, s: u64) -> (out: Vec<u8>)
    requires
        pix@.len() == w * h * ch,
        1 <= w <= DIM_MAX,
        1 <= h <= DIM_MAX,
        1 <= ch <= 4,
        ker@.len() == 2 * rad + 1,
        1 <= rad <= MAX_RADIUS,
        forall|j: int| 0 <= j < ker@.len() ==> ker@[j] <= W_ONE,
        s == sum_weights(ker@),
        W_ONE <= s <= (2 * MAX_RADIUS + 1) * W_ONE,
    ensures
        out@ == pass_v_spec(pix@, w as int, h as int, ch as int, ker@, rad as int, s as int),
        out@.len() == pix@.len(),
{
    let ghost gspec = pass_v_spec(pix@, w as int, h as int, ch as int, ker@, rad as int, s as int);
    let _plen: usize = pix.len();
    proof {
        assert(pix@.len() <= usize::MAX);
    }
    let n_taps: usize = ker.len();
    let mut out: Vec<u8> = Vec::new();
    let mut y: usize = 0;
    while y < h
        invariant
            0 <= y <= h,
            out@.len() == y * (w * ch),
            out@.len() <= pix@.len(),
            forall|m: int| 0 <= m < out@.len() ==> out@[m] == gspec[m],
        decreases h - y,
    {
        let mut x: usize = 0;
        proof {
            assert(y * (w * ch) == (y * w + 0) * ch) by (nonlinear_arith);
        }
        while x < w
            invariant
                0 <= x <= w,
                y < h,
                out@.len() == (y * w + x) * ch,
                out@.len() <= pix@.len(),
                forall|m: int| 0 <= m < out@.len() ==> out@[m] == gspec[m],
            decreases w - x,
        {
            let mut c: usize = 0;
            while c < ch
                invariant
                    0 <= c <= ch,
                    x < w,
                    y < h,
                    out@.len() == (y * w + x) * ch + c,
                    out@.len() <= pix@.len(),
                    forall|m: int| 0 <= m < out@.len() ==> out@[m] == gspec[m],
                decreases ch - c,
            {
                let mut acc: u64 = 0;
                let mut t: usize = 0;
                while t < n_taps
                    invariant
                        0 <= t <= n_taps,
                        c < ch,
                        x < w,
                        y < h,
                        acc == vacc(pix@, w as int, h as int, ch as int, ker@, rad as int, x as int, y as int, c as int, t as int),
                        acc <= 255 * sum_weights(ker@.take(t as int)),
                    decreases n_taps - t,
                {
                    proof {
                        lemma_sum_weights_take(ker@, t as int);
                        lemma_sum_weights_take(ker@, t as int + 1);
                        assert(ker@.take(t as int + 1).drop_last() =~= ker@.take(t as int));
                    }
                    let yt: usize = y + t;
                    let sy: usize = if yt <= rad {
                        0
                    } else if yt - rad >= h {
                        h - 1
                    } else {
                        yt - rad
                    };
                    proof {
                        assert(sy as int == clampi(y as int + t as int - rad as int, h as int - 1));
                        lemma_flat_decomp(w as int, h as int, ch as int, x as int, sy as int, c as int);
                    }
                    let idx: usize = (sy * w + x) * ch + c;
                    let v = pix[idx];
                    proof {
                        assert((ker@[t as int] as int) * (v as int) <= (ker@[t as int] as int) * 255
                            && 0 <= (ker@[t as int] as int) * (v as int)) by (nonlinear_arith)
                            requires 0 <= ker@[t as int], 0 <= v <= 255,
                        ;
                    }
                    acc = acc + ker[t] * (v as u64);
                    t = t + 1;
                }
                proof {
                    lemma_sum_weights_take(ker@, n_taps as int);
                    lemma_round_div_le(acc as int, s as int, 255);
                }
                let val: u64 = (acc + s / 2) / s;
                proof {
                    lemma_flat_decomp(w as int, h as int, ch as int, x as int, y as int, c as int);
                }
                out.push(val as u8);
                c = c + 1;
            }
            x = x + 1;
            proof {
                assert((y * w + (x - 1)) * ch + ch == (y * w + x) * ch) by (nonlinear_arith);
            }
        }
        y = y + 1;
        proof {
            assert(((y - 1) * w + w) * ch == y * (w * ch)) by (nonlinear_arith);
        }
    }
    proof {
        assert(h * (w * ch) == w * h * ch) by (nonlinear_arith);
        assert(out@ =~= gspec);
    }
    out
}

/// Both passes in sequence: the full separable blur on a validated buffer.
pub fn blur_core(pix: &Vec<u8>, w: usize, h: usize, ch: usize, sigma_milli: u32) -> (out: Vec<u8>)
    requires
        pix@.len() == w * h * ch,
        1 <= w <= DIM_MAX,
        1 <= h <= DIM_MAX,
        1 <= ch <= 4,
        sigma_milli >= 1,
    ensures
        out@ == blur_bytes_spec(pix@, w as int, h as int, ch as int, sigma_milli as int),
        out@.len() == pix@.len(),
{
    let (ker, s) = build_kernel(sigma_milli);
    let rad64 = radius_of(sigma_milli);
    let rad: usize = rad64 as usize;
    let mid = pass_h(pix, w, h, ch, &ker, rad, s);
    let out = pass_v(&mid, w, h, ch, &ker, rad, s);
    out
}

/// Gaussian-blurs an RGBA8 buffer supplied with explicit dimensions.
///
/// `sigma_milli` is the standard deviation in thousandths of a pixel; zero
/// geometry, a zero sigma, or a buffer whose length disagrees with the
/// declared dimensions is rejected as `InvalidParameter`, and dimensions
/// above `DIM_MAX` as `AllocationFailure`.
pub fn blur_raw(width: u32, height: u32, pixels: &Vec<u8>, sigma_milli: u32) -> (r: Result<Vec<u8>, ImageError>)
    ensures
        match r {
            Ok(out) => {
                &&& sigma_milli >= 1
                &&& 1 <= width <= DIM_MAX
                &&& 1 <= height <= DIM_MAX
                &&& pixels@.len() == width as int * height as int * 4
                &&& out@ == blur_bytes_spec(pixels@, width as int, height as int, 4, sigma_milli as int)
                &&& out@.len() == pixels@.len()
            },
            Err(ImageError::InvalidParameter) => {
                ||| sigma_milli == 0
                ||| width == 0
                ||| height == 0
                ||| (width <= DIM_MAX && height <= DIM_MAX && pixels@.len() != width as int * height as int * 4)
            },
            Err(ImageError::AllocationFailure) => {
                &&& sigma_milli >= 1
                &&& width >= 1
                &&& height >= 1
                &&& (width > DIM_MAX || height > DIM_MAX)
            },
            Err(_) => false,
        },
{
    if sigma_milli == 0 || width == 0 || height == 0 {
        return Err(ImageError::InvalidParameter);
    }
    if width > DIM_MAX || height > DIM_MAX {
        return Err(ImageError::AllocationFailure);
    }
    proof {
        assert((width as int) * (height as int) * 4 <= 16777216 * 16777216 * 4) by (nonlinear_arith)
            requires 1 <= width <= 16777216, 1 <= height <= 16777216,
        ;
    }
    let need: u64 = (width as u64) * (height as u64) * 4;
    if (pixels.len() as u64) != need {
        return Err(ImageError::InvalidParameter);
    }
    let out = blur_core(pixels, width as usize, height as usize, 4, sigma_milli);
    Ok(out)
}

/// Gaussian-blurs a pixel grid, producing a new grid of identical geometry
/// and layout.  Never mutates the input.
pub fn blur(grid: &PixelGrid, sigma_milli: u32) -> (r: Result<PixelGrid, ImageError>)
    requires
        grid.wf(),
    ensures
        match r {
            Ok(out) => {
                &&& sigma_milli >= 1
                &&& 1 <= grid.width <= DIM_MAX
                &&& 1 <= grid.height <= DIM_MAX
                &&& out.width == grid.width
                &&& out.height == grid.height
                &&& out.layout == grid.layout
                &&& out.wf()
                &&& out.pixels@ == blur_bytes_spec(grid.pixels@, grid.width as int, grid.height as int, grid.layout.channels_spec(), sigma_milli as int)
            },
            Err(ImageError::InvalidParameter) => {
                ||| sigma_milli == 0
                ||| grid.width == 0
                ||| grid.height == 0
            },
            Err(ImageError::AllocationFailure) => {
                &&& sigma_milli >= 1
                &&& grid.width >= 1
                &&& grid.height >= 1
                &&& (grid.width > DIM_MAX || grid.height > DIM_MAX)
            },
            Err(_) => false,
        },
{
    if sigma_milli == 0 || grid.width == 0 || grid.height == 0 {
        return Err(ImageError::InvalidParameter);
    }
    if grid.width > DIM_MAX || grid.height > DIM_MAX {
        return Err(ImageError::AllocationFailure);
    }
    let ch = grid.layout.channels();
    let out = blur_core(&grid.pixels, grid.width as usize, grid.height as usize, ch, sigma_milli);
    Ok(PixelGrid {
        width: grid.width,
        height: grid.height,
        layout: grid.layout,
        pixels: out,
    })
}

} // verus!
