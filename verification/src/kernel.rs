use vstd::prelude::*;

verus! {

// The blur kernel is computed entirely in integer fixed-point arithmetic so
// that its construction can be verified.  Weights live at scale `W_ONE`
// (65536 = one); the internal exponential approximation works at scale
// `F_ONE` (2^23 = one).
//
// `sigma` is supplied in thousandths (`sigma_milli`), so `sigma_milli ==
// 1500` means a standard deviation of 1.5 pixels.

/// Fixed-point one for kernel weights (2^16).
pub const W_ONE: u64 = 65536;

/// Fixed-point one for the internal exponential approximation (2^23).
pub const F_ONE: u64 = 8388608;

/// Arguments at weight scale at or above this bound (12.0) round to a zero
/// weight outright.
pub const X_CUT: u64 = 786432;

/// The largest radius any `u32` sigma-in-thousandths can produce:
/// `ceil(3 * (2^32 - 1) / 1000)`.
pub const MAX_RADIUS: u64 = 12884902;

/// First factor of the Gaussian exponent at weight scale:
/// `500000 * 65536`, so that `d*d*X_NUM / (sigma_milli^2)` is
/// `d^2 / (2*sigma^2)` at scale 2^16.
pub const X_NUM: u64 = 32768000000;

/// Three-term Taylor head of `exp(-t)` at scale 2^23, for small `t`.
pub open spec fn exp_taylor23(t: int) -> int {
    F_ONE - t + (t * t) / 16777216
}

/// One fixed-point squaring step at scale 2^23.
pub open spec fn sq23(f: int) -> int {
    (f * f) / (F_ONE as int)
}

/// Fixed-point approximation of `W_ONE * exp(-x / W_ONE)`: the Taylor head
/// of `exp(-x/(128*W_ONE))` squared seven times, rescaled to weight scale.
pub open spec fn exp_fp_spec(x: int) -> int {
    sq23(sq23(sq23(sq23(sq23(sq23(sq23(exp_taylor23(x)))))))) / 128
}

proof fn lemma_taylor_bounds(t: int)
    requires
        0 <= t < X_CUT,
    ensures
        0 <= exp_taylor23(t) <= F_ONE,
        t == 0 ==> exp_taylor23(t) == F_ONE,
{
    assert(0 <= (t * t) / 16777216 <= t) by (nonlinear_arith)
        requires 0 <= t < 786432,
    ;
}

proof fn lemma_sq23_bound(f: int)
    requires
        0 <= f <= F_ONE,
    ensures
        0 <= sq23(f) <= F_ONE,
        f * f <= F_ONE * F_ONE,
        f == F_ONE ==> sq23(f) == F_ONE,
{
    assert(0 <= (f * f) / 8388608 <= 8388608 && f * f <= 8388608 * 8388608) by (nonlinear_arith)
        requires 0 <= f <= 8388608,
    ;
}

/// The fixed-point exponential stays within weight scale and is exact at
/// zero.
pub proof fn lemma_exp_fp_spec_bounds(x: int)
    requires
        0 <= x < X_CUT,
    ensures
        0 <= exp_fp_spec(x) <= W_ONE,
        x == 0 ==> exp_fp_spec(x) == W_ONE,
{
    lemma_taylor_bounds(x);
    let f0 = exp_taylor23(x);
    lemma_sq23_bound(f0);
    lemma_sq23_bound(sq23(f0));
    lemma_sq23_bound(sq23(sq23(f0)));
    lemma_sq23_bound(sq23(sq23(sq23(f0))));
    lemma_sq23_bound(sq23(sq23(sq23(sq23(f0)))));
    lemma_sq23_bound(sq23(sq23(sq23(sq23(sq23(f0))))));
    lemma_sq23_bound(sq23(sq23(sq23(sq23(sq23(sq23(f0)))))));
}

/// Computes `exp_fp_spec` executably.
fn exp_fp(x: u64) -> (r: u64)
    requires
        x < X_CUT,
    ensures
        r == exp_fp_spec(x as int),
        r <= W_ONE,
        x == 0 ==> r == W_ONE,
{
    proof {
        lemma_taylor_bounds(x as int);
        lemma_exp_fp_spec_bounds(x as int);
    }
    let mut f: u64 = F_ONE - x + (x * x) / 16777216;
    assert(f == exp_taylor23(x as int));
    proof { lemma_sq23_bound(f as int); }
    f = (f * f) / F_ONE;
    proof { lemma_sq23_bound(f as int); }
    f = (f * f) / F_ONE;
    proof { lemma_sq23_bound(f as int); }
    f = (f * f) / F_ONE;
    proof { lemma_sq23_bound(f as int); }
    f = (f * f) / F_ONE;
    proof { lemma_sq23_bound(f as int); }
    f = (f * f) / F_ONE;
    proof { lemma_sq23_bound(f as int); }
    f = (f * f) / F_ONE;
    proof { lemma_sq23_bound(f as int); }
    f = (f * f) / F_ONE;
    f / 128
}

/// The kernel weight at distance `d` from the center, at scale `W_ONE`:
/// a fixed-point stand-in for `65536 * exp(-d^2 / (2*sigma^2))`, cut to an
/// exact zero once the exponent reaches 12.
pub open spec fn weight_spec(d: int, sigma_milli: int) -> int {
    let xq = d * d * X_NUM / (sigma_milli * sigma_milli);
    if xq >= X_CUT {
        0
    } else {
        exp_fp_spec(xq)
    }
}

/// Kernel weights are nonnegative, never above one at weight scale, and the
/// center weight is exactly one.
pub proof fn lemma_weight_spec_bounds(d: int, sigma_milli: int)
    requires
        d >= 0,
        sigma_milli >= 1,
    ensures
        0 <= weight_spec(d, sigma_milli) <= W_ONE,
        d == 0 ==> weight_spec(d, sigma_milli) == W_ONE,
{
    let s2 = sigma_milli * sigma_milli;
    assert(s2 >= 1) by (nonlinear_arith)
        requires sigma_milli >= 1, s2 == sigma_milli * sigma_milli,
    ;
    let xq = d * d * X_NUM / s2;
    assert(d * d * X_NUM >= 0) by (nonlinear_arith)
        requires d >= 0,
    ;
    assert(xq >= 0) by (nonlinear_arith)
        requires d * d * (X_NUM as int) >= 0, s2 >= 1, xq == d * d * (X_NUM as int) / s2,
    ;
    if xq < X_CUT {
        lemma_exp_fp_spec_bounds(xq);
    }
    if d == 0 {
        assert(d * d * X_NUM == 0);
        assert(0int / s2 == 0) by (nonlinear_arith)
            requires s2 >= 1,
        ;
        lemma_exp_fp_spec_bounds(0);
    }
}

/// The kernel half-width for a given sigma: `ceil(3 * sigma)`.
pub open spec fn radius_spec(sigma_milli: int) -> int {
    (3 * sigma_milli + 999) / 1000
}

/// The radius is at least one and bounded by `MAX_RADIUS`.
pub proof fn lemma_radius_bounds(sigma_milli: int)
    requires
        1 <= sigma_milli <= 0xffff_ffff,
    ensures
        1 <= radius_spec(sigma_milli) <= MAX_RADIUS,
{
    assert(1 <= (3 * sigma_milli + 999) / 1000 <= 12884902) by (nonlinear_arith)
        requires 1 <= sigma_milli <= 0xffff_ffff,
    ;
}

/// Executable radius.
pub fn radius_of(sigma_milli: u32) -> (r: u64)
    requires
        sigma_milli >= 1,
    ensures
        r == radius_spec(sigma_milli as int),
        1 <= r <= MAX_RADIUS,
{
    proof { lemma_radius_bounds(sigma_milli as int); }
    (3 * (sigma_milli as u64) + 999) / 1000
}

/// The full kernel for a given sigma: `2*radius + 1` weights, symmetric
/// about the center.
pub open spec fn kernel_seq(sigma_milli: int) -> Seq<u64> {
    let rad = radius_spec(sigma_milli);
    Seq::new((2 * rad + 1) as nat, |j: int| weight_spec(if j >= rad { j - rad } else { rad - j }, sigma_milli) as u64)
}

/// The sum of a sequence of weights.
pub open spec fn sum_weights(s: Seq<u64>) -> int
    decreases s.len(),
{
    if s.len() == 0 {
        0
    } else {
        sum_weights(s.drop_last()) + s.last()
    }
}

/// Weight sums are monotone in the prefix length and bounded by the
/// elementwise bound.
pub proof fn lemma_sum_weights_take(s: Seq<u64>, k: int)
    requires
        0 <= k <= s.len(),
    ensures
        sum_weights(s.take(k)) >= 0,
        sum_weights(s.take(k)) <= sum_weights(s),
        k == s.len() ==> sum_weights(s.take(k)) == sum_weights(s),
    decreases s.len() - k,
{
    if k == s.len() {
        assert(s.take(k) =~= s);
        lemma_sum_weights_nonneg(s);
    } else {
        lemma_sum_weights_take(s, k + 1);
        lemma_sum_weights_nonneg(s.take(k));
        assert(s.take(k + 1).drop_last() =~= s.take(k));
        assert(sum_weights(s.take(k + 1)) == sum_weights(s.take(k)) + s[k]);
    }
}

/// A weight sum is at least any single element.
pub proof fn lemma_sum_weights_element_le(s: Seq<u64>, i: int)
    requires
        0 <= i < s.len(),
    ensures
        sum_weights(s) >= s[i],
    decreases s.len(),
{
    if i == s.len() - 1 {
        lemma_sum_weights_nonneg(s.drop_last());
    } else {
        lemma_sum_weights_element_le(s.drop_last(), i);
    }
}

/// Weight sums are nonnegative.
pub proof fn lemma_sum_weights_nonneg(s: Seq<u64>)
    ensures
        sum_weights(s) >= 0,
    decreases s.len(),
{
    if s.len() > 0 {
        lemma_sum_weights_nonneg(s.drop_last());
    }
}

/// The weight of an executable weight lookup.
fn weight(d: u64, sigma_milli: u32) -> (r: u64)
    requires
        sigma_milli >= 1,
        d <= 2 * MAX_RADIUS,
    ensures
        r == weight_spec(d as int, sigma_milli as int),
        r <= W_ONE,
        d == 0 ==> r == W_ONE,
{
    proof {
        lemma_weight_spec_bounds(d as int, sigma_milli as int);
        assert((sigma_milli as int) * (sigma_milli as int) <= 0xffff_ffff * 0xffff_ffff) by (nonlinear_arith)
            requires 0 <= sigma_milli <= 0xffff_ffff,
        ;
    }
    let s2: u128 = (sigma_milli as u128) * (sigma_milli as u128);
    proof {
        assert((d as int) * (d as int) * (X_NUM as int) <= 25769804 * 25769804 * 32768000000) by (nonlinear_arith)
            requires 0 <= d <= 25769804,
        ;
        assert(s2 >= 1) by (nonlinear_arith)
            requires sigma_milli >= 1, s2 == (sigma_milli as int) * (sigma_milli as int),
        ;
        assert((d as int) * (d as int) * (X_NUM as int) / (s2 as int) <= 25769804 * 25769804 * 32768000000) by (nonlinear_arith)
            requires
                0 <= (d as int) * (d as int) * (X_NUM as int) <= 25769804 * 25769804 * 32768000000,
                s2 >= 1,
        ;
    }
    let xq: u128 = ((d as u128) * (d as u128) * (X_NUM as u128)) / s2;
    if xq >= X_CUT as u128 {
        0u64
    } else {
        exp_fp(xq as u64)
    }
}

/// Builds the kernel for `sigma_milli` and returns it with its exact weight
/// sum.  The sum is at least `W_ONE` (the center weight) and small enough
/// that a full accumulator of 255-valued samples fits a `u64`.
pub fn build_kernel(sigma_milli: u32) -> (r: (Vec<u64>, u64))
    requires
        sigma_milli >= 1,
    ensures
        r.0@ == kernel_seq(sigma_milli as int),
        r.0@.len() == 2 * radius_spec(sigma_milli as int) + 1,
        r.1 == sum_weights(r.0@),
        W_ONE <= r.1 <= (2 * MAX_RADIUS + 1) * W_ONE,
        forall|j: int| 0 <= j < r.0@.len() ==> r.0@[j] <= W_ONE,
{
    let rad: u64 = radius_of(sigma_milli);
    let n: u64 = 2 * rad + 1;
    let mut ker: Vec<u64> = Vec::new();
    let mut sum: u64 = 0;
    let mut j: u64 = 0;
    while j < n
        invariant
            sigma_milli >= 1,
            rad == radius_spec(sigma_milli as int),
            1 <= rad <= MAX_RADIUS,
            n == 2 * rad + 1,
            0 <= j <= n,
            ker@.len() == j,
            forall|q: int| 0 <= q < j ==> ker@[q] == weight_spec(if q >= rad { q - rad } else { rad - q }, sigma_milli as int),
            forall|q: int| 0 <= q < j ==> ker@[q] <= W_ONE,
            sum == sum_weights(ker@),
            sum <= j * W_ONE,
            j > rad ==> sum >= W_ONE,
        decreases n - j,
    {
        let d: u64 = if j >= rad { j - rad } else { rad - j };
        let w = weight(d, sigma_milli);
        proof {
            assert(ker@.push(w).drop_last() =~= ker@);
            lemma_weight_spec_bounds(d as int, sigma_milli as int);
        }
        ker.push(w);
        sum = sum + w;
        j = j + 1;
    }
    proof {
        assert(ker@ =~= kernel_seq(sigma_milli as int));
    }
    (ker, sum)
}

} // verus!
