use vstd::prelude::*;

use vstd::arithmetic::div_mod::lemma_fundamental_div_mod;
use vstd::arithmetic::div_mod::lemma_mod_bound;

use crate::blur::blur_bytes_spec;
use crate::blur::clampi;
use crate::blur::flat;
use crate::blur::hacc;
use crate::blur::pass_h_spec;
use crate::blur::pass_v_spec;
use crate::blur::round_div;
use crate::blur::sample;
use crate::blur::vacc;
use crate::blur::lemma_flat_decomp;
use crate::blur::lemma_round_div_exact;
use crate::decode::be32;
use crate::decode::chunk_crc_ok;
use crate::decode::decode_spec;
use crate::decode::has_sig;
use crate::decode::idat_from;
use crate::decode::ihdr_ok;
use crate::decode::is_ctype;
use crate::err::ImageError;
use crate::kernel::kernel_seq;
use crate::kernel::radius_spec;
use crate::kernel::sum_weights;
use crate::kernel::weight_spec;
use crate::kernel::lemma_radius_bounds;
use crate::kernel::lemma_sum_weights_element_le;
use crate::kernel::lemma_sum_weights_take;
use crate::kernel::lemma_weight_spec_bounds;
use crate::kernel::W_ONE;
use crate::kernel::X_NUM;
use crate::pixel::ChannelLayout;

verus! {

// ---------------------------------------------------------------------------
// Format rejection and determinism.
// ---------------------------------------------------------------------------

/// A stream that does not begin with the container signature is always
/// rejected as `UnsupportedFormat`, whatever else it holds.
pub proof fn lemma_format_rejection(s: Seq<u8>)
    requires
        !has_sig(s),
    ensures
        decode_spec(s) == Err::<(int, int, ChannelLayout, Seq<u8>), ImageError>(ImageError::UnsupportedFormat),
{
}

/// Decoding is deterministic: the decode contract pins the result as a
/// function of the input bytes alone, so equal byte streams decode to
/// equal results.
pub proof fn lemma_decode_deterministic(a: Seq<u8>, b: Seq<u8>)
    requires
        a == b,
    ensures
        decode_spec(a) == decode_spec(b),
{
}

/// Blurring is deterministic: equal buffers, geometry and sigma give
/// byte-identical outputs.
pub proof fn lemma_blur_deterministic(p1: Seq<u8>, p2: Seq<u8>, w: int, h: int, ch: int, s1: int, s2: int)
    requires
        p1 == p2,
        s1 == s2,
    ensures
        blur_bytes_spec(p1, w, h, ch, s1) == blur_bytes_spec(p2, w, h, ch, s2),
{
}

// ---------------------------------------------------------------------------
// Index recomposition.
// ---------------------------------------------------------------------------

/// Every flat buffer index splits into unique pixel coordinates.
proof fn lemma_flat_recomp(w: int, h: int, ch: int, n: int)
    requires
        1 <= w,
        1 <= h,
        1 <= ch,
        0 <= n < w * h * ch,
    ensures
        ({
            let y = n / (w * ch);
            let x = (n % (w * ch)) / ch;
            let c = n % ch;
            0 <= y < h && 0 <= x < w && 0 <= c < ch && flat(w, ch, x, y, c) == n
        }),
{
    let wc = w * ch;
    assert(wc >= 1 && w * h * ch == wc * h) by (nonlinear_arith)
        requires 1 <= w, 1 <= h, 1 <= ch, wc == w * ch,
    ;
    lemma_fundamental_div_mod(n, wc);
    lemma_mod_bound(n, wc);
    let y = n / wc;
    let m = n % wc;
    assert(0 <= y && y < h) by (nonlinear_arith)
        requires n == wc * y + m, 0 <= m < wc, 0 <= n < wc * h, wc >= 1,
    ;
    lemma_fundamental_div_mod(m, ch);
    lemma_mod_bound(m, ch);
    let x = m / ch;
    let c = m % ch;
    assert(0 <= x && x < w) by (nonlinear_arith)
        requires m == ch * x + c, 0 <= c < ch, 0 <= m < w * ch, ch >= 1,
    ;
    assert((y * w + x) * ch + c == n) by (nonlinear_arith)
        requires n == wc * y + m, m == ch * x + c, wc == w * ch,
    ;
    assert(n % ch == c) by {
        vstd::arithmetic::div_mod::lemma_fundamental_div_mod_converse_mod(n, ch, y * w + x, c);
    };
}

// ---------------------------------------------------------------------------
// Blur identity at the smallest accepted sigmas.
// ---------------------------------------------------------------------------

/// For sigma at most 0.204, the kernel degenerates to a single unit
/// weight: radius one, zero side weights.
proof fn lemma_kernel_delta(sigma_milli: int)
    requires
        1 <= sigma_milli <= 204,
    ensures
        radius_spec(sigma_milli) == 1,
        kernel_seq(sigma_milli).len() == 3,
        kernel_seq(sigma_milli)[0] == 0,
        kernel_seq(sigma_milli)[1] == W_ONE,
        kernel_seq(sigma_milli)[2] == 0,
        sum_weights(kernel_seq(sigma_milli)) == W_ONE,
{
    assert((3 * sigma_milli + 999) / 1000 == 1) by (nonlinear_arith)
        requires 1 <= sigma_milli <= 204,
    ;
    let ker = kernel_seq(sigma_milli);
    lemma_weight_spec_bounds(0, sigma_milli);
    lemma_weight_spec_bounds(1, sigma_milli);
    let u = sigma_milli * sigma_milli;
    assert(1 <= u <= 41616) by (nonlinear_arith)
        requires 1 <= sigma_milli <= 204, u == sigma_milli * sigma_milli,
    ;
    assert(32768000000int / u >= 786432) by (nonlinear_arith)
        requires 1 <= u <= 41616,
    ;
    assert(1 * 1 * (X_NUM as int) == 32768000000);
    assert(weight_spec(1, sigma_milli) == 0);
    assert(weight_spec(0, sigma_milli) == W_ONE);
    assert(ker[0] == 0 && ker[1] == W_ONE && ker[2] == 0);
    let d2 = ker.drop_last();
    let d1 = d2.drop_last();
    let d0 = d1.drop_last();
    assert(sum_weights(ker) == sum_weights(d2) + ker[2]);
    assert(d2[1] == ker[1] && d2.len() == 2);
    assert(sum_weights(d2) == sum_weights(d1) + d2[1]);
    assert(d1[0] == ker[0] && d1.len() == 1);
    assert(sum_weights(d1) == sum_weights(d0) + d1[0]);
    assert(d0.len() == 0);
    assert(sum_weights(d0) == 0);
}

/// With the degenerate kernel, a horizontal tap sum is just the center
/// sample at full weight.
proof fn lemma_hacc_delta(pix: Seq<u8>, w: int, ch: int, ker: Seq<u64>, x: int, y: int, c: int)
    requires
        ker.len() == 3,
        ker[0] == 0,
        ker[1] == W_ONE,
        ker[2] == 0,
        0 <= x < w,
    ensures
        hacc(pix, w, ch, ker, 1, x, y, c, 3) == W_ONE * sample(pix, w, ch, x, y, c),
{
    assert(hacc(pix, w, ch, ker, 1, x, y, c, 0) == 0);
    assert(clampi(x + 1 - 1, w - 1) == x);
    assert(hacc(pix, w, ch, ker, 1, x, y, c, 1) == 0);
    assert(hacc(pix, w, ch, ker, 1, x, y, c, 2) == W_ONE * sample(pix, w, ch, x, y, c));
    assert(hacc(pix, w, ch, ker, 1, x, y, c, 3) == W_ONE * sample(pix, w, ch, x, y, c));
}

/// Vertical analogue of `lemma_hacc_delta`.
proof fn lemma_vacc_delta(pix: Seq<u8>, w: int, h: int, ch: int, ker: Seq<u64>, x: int, y: int, c: int)
    requires
        ker.len() == 3,
        ker[0] == 0,
        ker[1] == W_ONE,
        ker[2] == 0,
        0 <= y < h,
    ensures
        vacc(pix, w, h, ch, ker, 1, x, y, c, 3) == W_ONE * sample(pix, w, ch, x, y, c),
{
    assert(vacc(pix, w, h, ch, ker, 1, x, y, c, 0) == 0);
    assert(clampi(y + 1 - 1, h - 1) == y);
    assert(vacc(pix, w, h, ch, ker, 1, x, y, c, 1) == 0);
    assert(vacc(pix, w, h, ch, ker, 1, x, y, c, 2) == W_ONE * sample(pix, w, ch, x, y, c));
    assert(vacc(pix, w, h, ch, ker, 1, x, y, c, 3) == W_ONE * sample(pix, w, ch, x, y, c));
}

/// At the smallest accepted sigmas (up to 0.204 pixels), the blur is the
/// exact identity: every side weight of the kernel rounds to zero, the
/// normalized center weight is one, and rounding returns each sample
/// unchanged.
pub proof fn lemma_blur_identity_small_sigma(pix: Seq<u8>, w: int, h: int, ch: int, sigma_milli: int)
    requires
        1 <= sigma_milli <= 204,
        1 <= w,
        1 <= h,
        1 <= ch,
        pix.len() == w * h * ch,
    ensures
        blur_bytes_spec(pix, w, h, ch, sigma_milli) == pix,
{
    lemma_kernel_delta(sigma_milli);
    let ker = kernel_seq(sigma_milli);
    let mid = pass_h_spec(pix, w, h, ch, ker, 1, W_ONE as int);
    assert forall|n: int| 0 <= n < w * h * ch implies mid[n] == pix[n] by {
        lemma_flat_recomp(w, h, ch, n);
        let y = n / (w * ch);
        let x = (n % (w * ch)) / ch;
        let c = n % ch;
        lemma_hacc_delta(pix, w, ch, ker, x, y, c);
        let sv = sample(pix, w, ch, x, y, c);
        assert(W_ONE * sv == sv * (W_ONE as int)) by (nonlinear_arith);
        lemma_round_div_exact(sv, W_ONE as int);
        assert(round_div(hacc(pix, w, ch, ker, 1, x, y, c, 3), W_ONE as int) == sv);
        assert(pix[flat(w, ch, x, y, c)] == pix[n]);
    };
    assert(mid =~= pix);
    let out = pass_v_spec(pix, w, h, ch, ker, 1, W_ONE as int);
    assert forall|n: int| 0 <= n < w * h * ch implies out[n] == pix[n] by {
        lemma_flat_recomp(w, h, ch, n);
        let y = n / (w * ch);
        let x = (n % (w * ch)) / ch;
        let c = n % ch;
        lemma_vacc_delta(pix, w, h, ch, ker, x, y, c);
        let sv = sample(pix, w, ch, x, y, c);
        assert(W_ONE * sv == sv * (W_ONE as int)) by (nonlinear_arith);
        lemma_round_div_exact(sv, W_ONE as int);
        assert(round_div(vacc(pix, w, h, ch, ker, 1, x, y, c, 3), W_ONE as int) == sv);
        assert(pix[flat(w, ch, x, y, c)] == pix[n]);
    };
    assert(out =~= pix);
}

// ---------------------------------------------------------------------------
// Blur of a constant image.
// ---------------------------------------------------------------------------

/// A tap sum over a constant image is the constant times the partial
/// weight sum.
proof fn lemma_hacc_const(pix: Seq<u8>, w: int, h: int, ch: int, ker: Seq<u64>, rad: int, x: int, y: int, c: int, k: int, v: u8)
    requires
        forall|i: int| 0 <= i < pix.len() ==> pix[i] == v,
        pix.len() == w * h * ch,
        1 <= w,
        1 <= h,
        1 <= ch,
        0 <= x < w,
        0 <= y < h,
        0 <= c < ch,
        0 <= k <= ker.len(),
    ensures
        hacc(pix, w, ch, ker, rad, x, y, c, k) == (v as int) * sum_weights(ker.take(k)),
    decreases k,
{
    if k == 0 {
        assert(ker.take(0).len() == 0);
    } else {
        lemma_hacc_const(pix, w, h, ch, ker, rad, x, y, c, k - 1, v);
        let sx = clampi(x + (k - 1) - rad, w - 1);
        assert(0 <= sx < w);
        lemma_flat_decomp(w, h, ch, sx, y, c);
        assert(sample(pix, w, ch, sx, y, c) == v as int);
        assert(ker.take(k).drop_last() =~= ker.take(k - 1));
        assert(sum_weights(ker.take(k)) == sum_weights(ker.take(k - 1)) + ker[k - 1]);
        let a = sum_weights(ker.take(k - 1));
        let b = ker[k - 1] as int;
        assert((v as int) * (a + b) == (v as int) * a + (v as int) * b && b * (v as int) == (v as int) * b) by (nonlinear_arith);
    }
}

/// Vertical analogue of `lemma_hacc_const`.
proof fn lemma_vacc_const(pix: Seq<u8>, w: int, h: int, ch: int, ker: Seq<u64>, rad: int, x: int, y: int, c: int, k: int, v: u8)
    requires
        forall|i: int| 0 <= i < pix.len() ==> pix[i] == v,
        pix.len() == w * h * ch,
        1 <= w,
        1 <= h,
        1 <= ch,
        0 <= x < w,
        0 <= y < h,
        0 <= c < ch,
        0 <= k <= ker.len(),
    ensures
        vacc(pix, w, h, ch, ker, rad, x, y, c, k) == (v as int) * sum_weights(ker.take(k)),
    decreases k,
{
    if k == 0 {
        assert(ker.take(0).len() == 0);
    } else {
        lemma_vacc_const(pix, w, h, ch, ker, rad, x, y, c, k - 1, v);
        let sy = clampi(y + (k - 1) - rad, h - 1);
        assert(0 <= sy < h);
        lemma_flat_decomp(w, h, ch, x, sy, c);
        assert(sample(pix, w, ch, x, sy, c) == v as int);
        assert(ker.take(k).drop_last() =~= ker.take(k - 1));
        assert(sum_weights(ker.take(k)) == sum_weights(ker.take(k - 1)) + ker[k - 1]);
        let a = sum_weights(ker.take(k - 1));
        let b = ker[k - 1] as int;
        assert((v as int) * (a + b) == (v as int) * a + (v as int) * b && b * (v as int) == (v as int) * b) by (nonlinear_arith);
    }
}

/// Blurring a solid-color image returns it unchanged, for every valid
/// sigma: the normalized kernel neither amplifies nor attenuates a
/// constant signal, and edge clamping reads the same color.  In
/// particular no border pixel wraps, darkens, or leaves the byte range.
pub proof fn lemma_blur_constant(pix: Seq<u8>, w: int, h: int, ch: int, sigma_milli: int, v: u8)
    requires
        1 <= sigma_milli <= 0xffff_ffff,
        1 <= w,
        1 <= h,
        1 <= ch,
        pix.len() == w * h * ch,
        forall|i: int| 0 <= i < pix.len() ==> pix[i] == v,
    ensures
        blur_bytes_spec(pix, w, h, ch, sigma_milli) == pix,
{
    let rad = radius_spec(sigma_milli);
    let ker = kernel_seq(sigma_milli);
    let s = sum_weights(ker);
    lemma_radius_bounds(sigma_milli);
    lemma_weight_spec_bounds(0, sigma_milli);
    assert(ker[rad] == W_ONE);
    lemma_sum_weights_element_le(ker, rad);
    assert(s >= 1);
    let kl = ker.len() as int;
    lemma_sum_weights_take(ker, kl);
    let mid = pass_h_spec(pix, w, h, ch, ker, rad, s);
    assert forall|n: int| 0 <= n < w * h * ch implies mid[n] == pix[n] by {
        lemma_flat_recomp(w, h, ch, n);
        let y = n / (w * ch);
        let x = (n % (w * ch)) / ch;
        let c = n % ch;
        lemma_hacc_const(pix, w, h, ch, ker, rad, x, y, c, kl, v);
        lemma_round_div_exact(v as int, s);
        assert(pix[flat(w, ch, x, y, c)] == pix[n]);
    };
    assert(mid =~= pix);
    let out = pass_v_spec(pix, w, h, ch, ker, rad, s);
    assert forall|n: int| 0 <= n < w * h * ch implies out[n] == pix[n] by {
        lemma_flat_recomp(w, h, ch, n);
        let y = n / (w * ch);
        let x = (n % (w * ch)) / ch;
        let c = n % ch;
        lemma_vacc_const(pix, w, h, ch, ker, rad, x, y, c, kl, v);
        lemma_round_div_exact(v as int, s);
        assert(pix[flat(w, ch, x, y, c)] == pix[n]);
    };
    assert(out =~= pix);
}

/// The kernel is symmetric about its center weight: both passes weigh the
/// left and right (or upper and lower) neighbors of a pixel equally.
pub proof fn lemma_kernel_symmetric(sigma_milli: int, j: int)
    requires
        1 <= sigma_milli <= 0xffff_ffff,
        0 <= j < kernel_seq(sigma_milli).len(),
    ensures
        kernel_seq(sigma_milli)[j] == kernel_seq(sigma_milli)[2 * radius_spec(sigma_milli) - j],
{
    lemma_radius_bounds(sigma_milli);
}

// ---------------------------------------------------------------------------
// Truncation detection.
// ---------------------------------------------------------------------------

/// A chunk walk that succeeds on the full stream fails on every proper
/// prefix that still reaches the walk: the final IEND chunk cannot survive
/// truncation, and every path through the shortened stream ends in a
/// structural error.
proof fn lemma_idat_prefix_none(s: Seq<u8>, l: int, off: int)
    requires
        33 <= off <= l < s.len(),
        idat_from(s, off) is Some,
    ensures
        idat_from(s.take(l), off) is None,
    decreases s.len() - off,
{
    let t = s.take(l);
    let sl = s.len() as int;
    if off + 12 > sl {
        assert(idat_from(s, off) is None);
    }
    let clen = be32(s, off);
    if off + 12 + clen > sl {
        assert(idat_from(s, off) is None);
    }
    if !chunk_crc_ok(s, off, clen) {
        assert(idat_from(s, off) is None);
    }
    if off + 12 > l {
        assert(idat_from(t, off) is None);
    } else {
        assert(be32(t, off) == be32(s, off));
        if off + 12 + clen > l {
            assert(idat_from(t, off) is None);
        } else {
            assert(t.subrange(off + 4, off + 8 + clen) =~= s.subrange(off + 4, off + 8 + clen));
            assert(be32(t, off + 8 + clen) == be32(s, off + 8 + clen));
            assert(chunk_crc_ok(t, off, clen));
            assert(is_ctype(t, off, 73, 69, 78, 68) == is_ctype(s, off, 73, 69, 78, 68));
            assert(is_ctype(t, off, 73, 68, 65, 84) == is_ctype(s, off, 73, 68, 65, 84));
            if is_ctype(s, off, 73, 69, 78, 68) {
                assert(!(clen == 0 && off + 12 == sl));
                assert(idat_from(s, off) is None);
            }
            let next = off + 12 + clen;
            if is_ctype(s, off, 73, 68, 65, 84) {
                if idat_from(s, next) is None {
                    assert(idat_from(s, off) is None);
                }
            } else {
                assert(idat_from(s, off) == idat_from(s, next));
            }
            assert(idat_from(s, next) is Some);
            lemma_idat_prefix_none(s, l, next);
            assert(idat_from(t, off) is None);
        }
    }
}

/// Cutting any number of final bytes off a stream that decodes
/// successfully turns it into `CorruptData`, as long as the signature
/// itself survives.
pub proof fn lemma_truncation_detected(s: Seq<u8>, n: int)
    requires
        decode_spec(s) is Ok,
        1 <= n <= s.len() - 8,
    ensures
        decode_spec(s.take(s.len() - n)) == Err::<(int, int, ChannelLayout, Seq<u8>), ImageError>(ImageError::CorruptData),
{
    let l = s.len() - n;
    let t = s.take(l);
    assert(has_sig(s));
    assert(has_sig(t));
    if l < 33 {
        assert(!ihdr_ok(t));
    } else {
        assert(t.subrange(12, 29) =~= s.subrange(12, 29));
        assert(ihdr_ok(s));
        assert(chunk_crc_ok(t, 8, 13));
        assert(ihdr_ok(t));
        assert(idat_from(s, 33) is Some);
        lemma_idat_prefix_none(s, l, 33);
    }
}

} // verus!

