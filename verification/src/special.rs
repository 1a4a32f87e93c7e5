//! Elementary functions on fixed-point numbers: square root, exponential,
//! natural logarithm, and the standard normal density and distribution.
//!
//! Each function's contract states the exact integer it returns: the value of
//! a truncated series (or, for the square root, the exact integer root), so a
//! caller's own contract can speak of the same quantity. The series lengths
//! and cut-offs are chosen so the results track the mathematical functions to
//! well under a billionth over the domain the pricing formulas use.

use vstd::prelude::*;
use vstd::arithmetic::div_mod::{
    lemma_div_is_ordered_by_denominator, lemma_div_denominator, lemma_div_basics,
    lemma_div_is_ordered, lemma_div_nonincreasing, lemma_div_pos_is_pos,
    lemma_fundamental_div_mod_converse,
};
use vstd::arithmetic::mul::lemma_mul_inequality;

use crate::fixed::{abs_mag, fx_abs, fx_in_range, fx_mul_v, fx_div_v, fx_sgn,
    lemma_div_sgn_cases, lemma_mul_v_abs, lemma_tz_div_abs, tz_div, Fx, FX_LIM, FX_SCALE};

verus! {

/// Mantissa of ln 2.
pub const LN2_FX: i128 = 693_147_180_560;

/// Mantissa of 1 / sqrt(2).
pub const INV_SQRT2_FX: i128 = 707_106_781_187;

/// Mantissa of 2 / sqrt(pi).
pub const TWO_OVER_SQRT_PI_FX: i128 = 1_128_379_167_096;

/// Mantissa of 1 / sqrt(2 pi).
pub const INV_SQRT_2PI_FX: i128 = 398_942_280_401;

/// Largest argument `Fx::exp` accepts (the value ten).
pub const EXP_ARG_MAX: i128 = 10_000_000_000_000;

/// Number of Taylor terms used on the reduced range of the exponential.
pub const EXP_TERMS: u32 = 19;

/// Two to the `k`-th power.
pub open spec fn pow2i(k: nat) -> int
    decreases k,
{
    if k == 0 {
        1
    } else {
        2 * pow2i((k - 1) as nat)
    }
}

/// `k`-th term of the fixed-point exponential series on the reduced range:
/// term zero is one, and each later term multiplies by the argument and
/// divides by the index, truncating after each step.
pub open spec fn exp_term(r: int, k: nat) -> int
    decreases k,
{
    if k == 0 {
        FX_SCALE as int
    } else {
        tz_div(fx_mul_v(exp_term(r, (k - 1) as nat), r), k as int)
    }
}

/// Sum of the first `n` terms of the fixed-point exponential series.
pub open spec fn exp_sum(r: int, n: nat) -> int
    decreases n,
{
    if n == 0 {
        0
    } else {
        exp_sum(r, (n - 1) as nat) + exp_term(r, (n - 1) as nat)
    }
}

/// Mantissa of the exponential of a mantissa in `[0, EXP_ARG_MAX]`:
/// the argument is split as `k ln 2 + r`, the series is summed on `r`,
/// and the sum is doubled `k` times.
pub open spec fn exp_pos_v(x: int) -> int {
    pow2i((x / (LN2_FX as int)) as nat) * exp_sum(x % (LN2_FX as int), EXP_TERMS as nat)
}

/// Mantissa of the exponential of a mantissa in `[-EXP_ARG_MAX, 0]`, given as
/// the magnitude `y` of the argument: the truncated reciprocal of `exp_pos_v`.
pub open spec fn exp_recip_v(y: int) -> int {
    (FX_SCALE as int) * (FX_SCALE as int) / exp_pos_v(y)
}

/// Mantissa of the exponential of any mantissa not above `EXP_ARG_MAX`.
/// Below twice `-EXP_ARG_MAX` the result underflows to zero; between once
/// and twice, the square of the exponential of the half is taken.
pub open spec fn exp_v(x: int) -> int {
    if x >= 0 {
        exp_pos_v(x)
    } else if -x <= EXP_ARG_MAX {
        exp_recip_v(-x)
    } else if -x <= 2 * EXP_ARG_MAX {
        fx_mul_v(exp_recip_v((-x) / 2), exp_recip_v((-x) / 2))
    } else {
        0
    }
}

/// Number of series terms for the logarithm.
pub const LN_TERMS: u32 = 16;

/// Reduced mantissa of `x` for the logarithm: `x` is halved or doubled
/// until it lies in `[FX_SCALE, 2 FX_SCALE)`.
pub open spec fn ln_msnt(x: int) -> int
    decreases (if x >= 2 * (FX_SCALE as int) {
        x
    } else {
        2 * (FX_SCALE as int) - x
    }) when x >= 1
{
    if x >= 2 * (FX_SCALE as int) {
        ln_msnt(x / 2)
    } else if x < FX_SCALE as int {
        ln_msnt(2 * x)
    } else {
        x
    }
}

/// Power of two taken out of `x` by the reduction of `ln_msnt`.
pub open spec fn ln_kexp(x: int) -> int
    decreases (if x >= 2 * (FX_SCALE as int) {
        x
    } else {
        2 * (FX_SCALE as int) - x
    }) when x >= 1
{
    if x >= 2 * (FX_SCALE as int) {
        1 + ln_kexp(x / 2)
    } else if x < FX_SCALE as int {
        ln_kexp(2 * x) - 1
    } else {
        0
    }
}

/// Odd powers of `t` for the logarithm series, with fixed-point rounding:
/// `ln_pow(t, 0) == t` and each later entry multiplies by `t` twice.
pub open spec fn ln_pow(t: int, j: nat) -> int
    decreases j,
{
    if j == 0 {
        t
    } else {
        fx_mul_v(fx_mul_v(ln_pow(t, (j - 1) as nat), t), t)
    }
}

/// Sum of the first `n` terms `ln_pow(t, j) / (2 j + 1)` of the series
/// for the half-logarithm of `(1 + t) / (1 - t)`.
pub open spec fn ln_series(t: int, n: nat) -> int
    decreases n,
{
    if n == 0 {
        0
    } else {
        ln_series(t, (n - 1) as nat) + tz_div(ln_pow(t, (n - 1) as nat), 2 * (n - 1) + 1)
    }
}

/// Mantissa of the natural logarithm of the positive number with mantissa
/// `x`: the power of two taken out contributes `ln 2` each, and the series
/// is summed on the reduced mantissa.
pub open spec fn ln_v(x: int) -> int {
    ln_kexp(x) * (LN2_FX as int) + 2 * ln_series(
        fx_div_v(ln_msnt(x) - (FX_SCALE as int), ln_msnt(x) + (FX_SCALE as int)),
        LN_TERMS as nat,
    )
}

/// Argument beyond which the error function is taken as plus or minus one
/// (the value 5 / sqrt 2, where the tail is below three parts in ten million).
pub const ERF_CUT: i128 = 3_535_533_905_933;

/// Cap kept on the running power term of the error-function series (the
/// value one hundred thousand; the true terms stay far below it).
pub const ERF_TERM_CAP: i128 = 100_000_000_000_000_000;

/// Number of terms of the error-function series.
pub const ERF_TERMS: u32 = 64;

/// Argument magnitude beyond which the normal density is taken as zero.
pub const PDF_CUT: i128 = 6_300_000_000_000;

/// Running power term of the error-function series: entry zero is `z`, and
/// entry `n` multiplies the previous entry by `z` squared and divides by `n`,
/// truncating at each step.
pub open spec fn erf_pow(z: int, n: nat) -> int
    decreases n,
{
    if n == 0 {
        z
    } else {
        tz_div(fx_mul_v(erf_pow(z, (n - 1) as nat), fx_mul_v(z, z)), n as int)
    }
}

/// All power terms up to entry `n` stay within `ERF_TERM_CAP`.
pub open spec fn erf_ok(z: int, n: nat) -> bool
    decreases n,
{
    if n == 0 {
        fx_abs(z) <= ERF_TERM_CAP
    } else {
        erf_ok(z, (n - 1) as nat) && fx_abs(erf_pow(z, n)) <= ERF_TERM_CAP
    }
}

/// Alternating sum of the first `n` series terms `erf_pow(z, k) / (2 k + 1)`.
pub open spec fn erf_sum(z: int, n: nat) -> int
    decreases n,
{
    if n == 0 {
        0
    } else {
        erf_sum(z, (n - 1) as nat) + (if (n - 1) % 2 == 0 {
            tz_div(erf_pow(z, (n - 1) as nat), 2 * (n - 1) + 1)
        } else {
            -tz_div(erf_pow(z, (n - 1) as nat), 2 * (n - 1) + 1)
        })
    }
}

/// Clamps a mantissa into `[-FX_SCALE, FX_SCALE]`.
pub open spec fn clamp_unit(x: int) -> int {
    if x > FX_SCALE as int {
        FX_SCALE as int
    } else if x < -(FX_SCALE as int) {
        -(FX_SCALE as int)
    } else {
        x
    }
}

/// Mantissa of the error function: plus or minus one beyond `ERF_CUT`, and
/// the clamped, scaled series sum inside.
pub open spec fn erf_v(z: int) -> int {
    if z >= ERF_CUT {
        FX_SCALE as int
    } else if z <= -ERF_CUT {
        -(FX_SCALE as int)
    } else {
        clamp_unit(fx_mul_v(TWO_OVER_SQRT_PI_FX as int, erf_sum(z, ERF_TERMS as nat)))
    }
}

/// Mantissa of the standard normal distribution function,
/// `(1 + erf(x / sqrt 2)) / 2`.
pub open spec fn norm_cdf_v(x: int) -> int {
    tz_div((FX_SCALE as int) + erf_v(fx_mul_v(x, INV_SQRT2_FX as int)), 2)
}

/// The series for the distribution function at `x` stays within the term
/// cap (its arguments in use keep the terms about a hundred times smaller).
pub open spec fn norm_cdf_ok(x: int) -> bool {
    fx_abs(fx_mul_v(x, INV_SQRT2_FX as int)) >= ERF_CUT || erf_ok(
        fx_mul_v(x, INV_SQRT2_FX as int),
        (ERF_TERMS - 1) as nat,
    )
}

/// Mantissa of the standard normal density,
/// `exp(-x^2 / 2) / sqrt(2 pi)`, zero beyond `PDF_CUT`.
pub open spec fn norm_pdf_v(x: int) -> int {
    if fx_abs(x) >= PDF_CUT {
        0
    } else {
        fx_mul_v(exp_v(-tz_div(fx_mul_v(x, x), 2)), INV_SQRT_2PI_FX as int)
    }
}

/// `r` is the integer square root of `n`.
pub open spec fn is_isqrt(n: int, r: int) -> bool {
    r >= 0 && r * r <= n && n < (r + 1) * (r + 1)
}

/// The integer square root of a non-negative integer.
pub open spec fn isqrt_v(n: int) -> int {
    choose|r: int| is_isqrt(n, r)
}

/// Mantissa of the square root of the number with mantissa `x`.
pub open spec fn fx_sqrt_v(x: int) -> int {
    isqrt_v(x * (FX_SCALE as int))
}

proof fn lemma_isqrt_unique(n: int, r1: int, r2: int)
    by (nonlinear_arith)
    requires
        is_isqrt(n, r1),
        is_isqrt(n, r2),
    ensures
        r1 == r2,
{
}

proof fn lemma_isqrt_is(n: int, r: int)
    requires
        is_isqrt(n, r),
    ensures
        isqrt_v(n) == r,
{
    assert(is_isqrt(n, isqrt_v(n)));
    lemma_isqrt_unique(n, isqrt_v(n), r);
}

/// Integer square root by bisection.
fn isqrt(n: u128) -> (r: u128)
    requires
        n <= 10_000_000_000_000_000_000 * (FX_SCALE as u128),
    ensures
        is_isqrt(n as int, r as int),
        r as int == isqrt_v(n as int),
        r <= 3_170_000_000_000_000,
{
    let mut lo: u128 = 0;
    let mut hi: u128 = 3_170_000_000_000_000;
    assert(hi * hi > n) by (nonlinear_arith)
        requires
            n <= 10_000_000_000_000_000_000 * (FX_SCALE as u128),
            hi == 3_170_000_000_000_000u128,
    ;
    while lo < hi
        invariant
            lo <= hi,
            hi <= 3_170_000_000_000_000,
            lo * lo <= n,
            (hi + 1) * (hi + 1) > n,
        decreases hi - lo,
    {
        let mid: u128 = lo + (hi - lo + 1) / 2;
        assert(mid * mid < u128::MAX) by (nonlinear_arith)
            requires
                mid <= 3_170_000_000_000_000u128,
        ;
        if mid * mid <= n {
            lo = mid;
        } else {
            hi = mid - 1;
        }
    }
    proof {
        lemma_isqrt_is(n as int, lo as int);
    }
    lo
}

proof fn lemma_erf_ok_mono(z: int, n1: nat, n2: nat)
    requires
        n1 <= n2,
        erf_ok(z, n2),
    ensures
        erf_ok(z, n1),
    decreases n2,
{
    if n1 < n2 {
        lemma_erf_ok_mono(z, n1, (n2 - 1) as nat);
    }
}

proof fn lemma_exp_sum_zero(n: nat)
    ensures
        n >= 1 ==> exp_sum(0, n) == FX_SCALE as int,
    decreases n,
{
    if n >= 1 {
        lemma_exp_sum_zero((n - 1) as nat);
        assert(exp_sum(0, 0nat) == 0);
        if n >= 2 {
            assert(exp_term(0, (n - 1) as nat) == tz_div(fx_mul_v(
                exp_term(0, (n - 2) as nat), 0), (n - 1) as int));
            assert(fx_mul_v(exp_term(0, (n - 2) as nat), 0) == 0);
            assert(tz_div(0, (n - 1) as int) == 0);
        }
    }
}

proof fn lemma_pow2i_pos(k: nat)
    ensures
        pow2i(k) >= 1,
    decreases k,
{
    if k > 0 {
        lemma_pow2i_pos((k - 1) as nat);
    }
}

proof fn lemma_pow2i_mono(a: nat, b: nat)
    requires
        a <= b,
    ensures
        pow2i(a) <= pow2i(b),
    decreases b,
{
    if a < b {
        lemma_pow2i_mono(a, (b - 1) as nat);
        lemma_pow2i_pos((b - 1) as nat);
    }
}

/// Exponential of a non-negative mantissa no greater than `EXP_ARG_MAX`.
fn exp_pos(x: i128) -> (r: i128)
    requires
        0 <= x <= EXP_ARG_MAX,
    ensures
        r == exp_pos_v(x as int),
        FX_SCALE <= r <= 330_000_000_000_000_000,
        x == 0 ==> r == FX_SCALE,
{
    let mut y: i128 = x;
    let mut k: u32 = 0;
    while y >= LN2_FX
        invariant
            0 <= y,
            x == k * LN2_FX + y,
            k <= 14,
            0 <= x <= EXP_ARG_MAX,
        decreases y,
    {
        y = y - LN2_FX;
        k = k + 1;
    }
    proof {
        lemma_fundamental_div_mod_converse(x as int, LN2_FX as int, k as int, y as int);
    }
    let mut acc: i128 = FX_SCALE;
    let mut t: i128 = FX_SCALE;
    let mut i: u32 = 1;
    proof {
        reveal_with_fuel(exp_sum, 2);
        assert(exp_sum(y as int, 1nat) == exp_term(y as int, 0nat));
    }
    while i < EXP_TERMS
        invariant
            1 <= i <= EXP_TERMS,
            0 <= y < LN2_FX,
            t == exp_term(y as int, (i - 1) as nat),
            acc == exp_sum(y as int, i as nat),
            0 <= t <= FX_SCALE,
            FX_SCALE <= acc,
            acc <= i * FX_SCALE,
        decreases EXP_TERMS - i,
    {
        let tu: u128 = t as u128;
        let yu: u128 = y as u128;
        assert(tu * yu <= (FX_SCALE as u128) * (FX_SCALE as u128)) by (nonlinear_arith)
            requires
                tu <= FX_SCALE as u128,
                yu <= FX_SCALE as u128,
        ;
        let p: u128 = (tu * yu) / (FX_SCALE as u128);
        let tn: u128 = p / (i as u128);
        proof {
            lemma_mul_inequality(yu as int, FX_SCALE as int, tu as int);
            lemma_div_is_ordered(tu as int * yu as int, tu as int * (FX_SCALE as int),
                FX_SCALE as int);
            assert(tu as int * (FX_SCALE as int) / (FX_SCALE as int) == tu as int)
                by (nonlinear_arith);
            lemma_div_nonincreasing(p as int, i as int);
            lemma_div_pos_is_pos(p as int, i as int);
            assert(t as int * y as int >= 0) by (nonlinear_arith)
                requires
                    t >= 0,
                    y >= 0,
            ;
            assert(fx_mul_v(t as int, y as int) == p as int);
            assert(exp_term(y as int, i as nat) == tz_div(fx_mul_v(
                exp_term(y as int, (i - 1) as nat), y as int), i as int));
        }
        t = tn as i128;
        acc = acc + t;
        i = i + 1;
    }
    let ghost acc0: int = acc as int;
    let mut j: u32 = 0;
    let mut res: i128 = acc;
    while j < k
        invariant
            j <= k <= 14,
            res == pow2i(j as nat) * acc0,
            FX_SCALE <= acc0 <= EXP_TERMS * FX_SCALE,
            FX_SCALE <= res <= 330_000_000_000_000_000,
        decreases k - j,
    {
        proof {
            lemma_pow2i_mono((j + 1) as nat, 14nat);
            lemma_pow2i_pos(j as nat);
            reveal_with_fuel(pow2i, 16);
            assert(pow2i(14nat) == 16384);
            assert(2 * (pow2i(j as nat) * acc0) == pow2i((j + 1) as nat) * acc0)
                by (nonlinear_arith)
                requires
                    pow2i((j + 1) as nat) == 2 * pow2i(j as nat),
            ;
            assert(pow2i((j + 1) as nat) * acc0 <= 16384 * acc0) by (nonlinear_arith)
                requires
                    pow2i((j + 1) as nat) <= 16384,
                    acc0 >= 0,
            ;
            assert(pow2i((j + 1) as nat) * acc0 >= acc0) by (nonlinear_arith)
                requires
                    pow2i((j + 1) as nat) >= 1,
                    acc0 >= 0,
            ;
        }
        res = res * 2;
        j = j + 1;
    }
    proof {
        if x == 0 {
            lemma_exp_sum_zero(EXP_TERMS as nat);
        }
    }
    res
}

/// Exponential of a mantissa in `[-EXP_ARG_MAX, 0]`, given by its magnitude.
fn exp_recip(y: i128) -> (r: i128)
    requires
        0 <= y <= EXP_ARG_MAX,
    ensures
        r == exp_recip_v(y as int),
        0 <= r <= FX_SCALE,
{
    let e = exp_pos(y);
    let q: u128 = ((FX_SCALE as u128) * (FX_SCALE as u128)) / (e as u128);
    proof {
        lemma_div_pos_is_pos((FX_SCALE as int) * (FX_SCALE as int), e as int);
        lemma_div_is_ordered_by_denominator((FX_SCALE as int) * (FX_SCALE as int),
            FX_SCALE as int, e as int);
        assert((FX_SCALE as int) * (FX_SCALE as int) / (FX_SCALE as int) == FX_SCALE as int)
            by (nonlinear_arith);
    }
    q as i128
}

impl Fx {
    /// Exponential, rounded as `exp_v` states. `None` exactly when the
    /// argument exceeds `EXP_ARG_MAX` (the value ten), where the result
    /// would near the edge of the representable range.
    pub fn exp(self) -> (r: Option<Fx>)
        requires
            self.wf(),
        ensures
            r is None <==> self.m > EXP_ARG_MAX,
            r matches Some(v) ==> {
                &&& v.m == exp_v(self.m as int)
                &&& v.wf()
                &&& 0 <= v.m <= 330_000_000_000_000_000
                &&& (self.m <= 0 ==> v.m <= FX_SCALE)
                &&& (self.m >= 0 ==> v.m >= FX_SCALE)
            },
    {
        if self.m > EXP_ARG_MAX {
            return None;
        }
        if self.m >= 0 {
            let e = exp_pos(self.m);
            Some(Fx { m: e })
        } else {
            let mag: i128 = -self.m;
            if mag <= EXP_ARG_MAX {
                Some(Fx { m: exp_recip(mag) })
            } else if mag <= 2 * EXP_ARG_MAX {
                let h = exp_recip(((mag as u128) / 2) as i128);
                let hu = h as u128;
                assert(hu * hu <= (FX_SCALE as u128) * (FX_SCALE as u128)) by (nonlinear_arith)
                    requires
                        hu <= FX_SCALE as u128,
                ;
                let q = (hu * hu) / (FX_SCALE as u128);
                proof {
                    lemma_mul_inequality(hu as int, FX_SCALE as int, hu as int);
                    lemma_div_is_ordered(hu as int * hu as int,
                        (FX_SCALE as int) * (FX_SCALE as int), FX_SCALE as int);
                    assert((FX_SCALE as int) * (FX_SCALE as int) / (FX_SCALE as int)
                        == FX_SCALE as int) by (nonlinear_arith);
                    lemma_div_pos_is_pos(hu as int * hu as int, FX_SCALE as int);
                    assert(hu as int * hu as int >= 0) by (nonlinear_arith);
                    assert(fx_mul_v(h as int, h as int) == q as int);
                }
                Some(Fx { m: q as i128 })
            } else {
                Some(Fx { m: 0 })
            }
        }
    }

    /// Standard normal distribution function, rounded as `norm_cdf_v`
    /// states; the result always lies in `[0, 1]`. `None` exactly when some
    /// series term would pass `ERF_TERM_CAP`, which the cut-off at `ERF_CUT`
    /// keeps far out of reach.
    pub fn norm_cdf(self) -> (r: Option<Fx>)
        requires
            self.wf(),
        ensures
            r is Some <==> norm_cdf_ok(self.m as int),
            r matches Some(v) ==> {
                &&& v.m == norm_cdf_v(self.m as int)
                &&& v.wf()
                &&& 0 <= v.m <= FX_SCALE
            },
    {
        proof {
            lemma_mul_v_abs(self.m as int, INV_SQRT2_FX as int);
            lemma_mul_inequality(fx_abs(self.m as int), FX_LIM as int, INV_SQRT2_FX as int);
            lemma_div_is_ordered(fx_abs(self.m as int) * (INV_SQRT2_FX as int),
                (FX_LIM as int) * (INV_SQRT2_FX as int), FX_SCALE as int);
        }
        let zo = self.cmul(Fx { m: INV_SQRT2_FX });
        let z = zo.unwrap();
        let zm: i128 = z.m;
        if zm >= ERF_CUT {
            proof {
                assert(norm_cdf_v(self.m as int) == tz_div(2 * (FX_SCALE as int), 2));
            }
            return Some(Fx { m: FX_SCALE });
        }
        if zm <= -ERF_CUT {
            proof {
                assert(norm_cdf_v(self.m as int) == tz_div(0, 2));
            }
            return Some(Fx { m: 0 });
        }
        let za: u128 = abs_mag(zm);
        assert(za * za < (ERF_CUT as u128) * (ERF_CUT as u128)) by (nonlinear_arith)
            requires
                za < ERF_CUT as u128,
        ;
        let z2: i128 = ((za * za) / (FX_SCALE as u128)) as i128;
        proof {
            lemma_mul_v_abs(zm as int, zm as int);
            assert(fx_abs(zm as int) * fx_abs(zm as int) == za as int * za as int)
                by (nonlinear_arith)
                requires
                    fx_abs(zm as int) == za as int,
            ;
            assert(fx_sgn(zm as int) * fx_sgn(zm as int) * (za as int * za as int
                / (FX_SCALE as int)) == za as int * za as int / (FX_SCALE as int))
                by (nonlinear_arith)
                requires
                    fx_abs(zm as int) == za as int,
            ;
            assert(z2 as int == fx_mul_v(zm as int, zm as int));
        }
        let mut e: i128 = zm;
        let mut sum: i128 = zm;
        let mut n: u32 = 1;
        proof {
            reveal_with_fuel(erf_sum, 2);
            lemma_tz_div_abs(zm as int, 1);
            assert(fx_abs(zm as int) / 1 == fx_abs(zm as int));
            assert(fx_sgn(zm as int) * fx_abs(zm as int) == zm as int) by (nonlinear_arith);
            assert(erf_sum(zm as int, 1nat) == zm as int);
        }
        while n < ERF_TERMS
            invariant
                1 <= n <= ERF_TERMS,
                zm as int == fx_mul_v(self.m as int, INV_SQRT2_FX as int),
                fx_abs(zm as int) < ERF_CUT,
                fx_in_range(zm as int),
                z2 as int == fx_mul_v(zm as int, zm as int),
                0 <= z2 <= 12_600_000_000_000,
                e == erf_pow(zm as int, (n - 1) as nat),
                fx_abs(e as int) <= ERF_TERM_CAP,
                sum == erf_sum(zm as int, n as nat),
                fx_abs(sum as int) <= n * ERF_TERM_CAP,
                erf_ok(zm as int, (n - 1) as nat),
            decreases ERF_TERMS - n,
        {
            let em: u128 = abs_mag(e);
            assert(em * (z2 as u128) <= (ERF_TERM_CAP as u128) * (13_000_000_000_000u128))
                by (nonlinear_arith)
                requires
                    em <= ERF_TERM_CAP as u128,
                    0 <= z2 <= 12_600_000_000_000,
            ;
            let p: u128 = (em * (z2 as u128)) / (FX_SCALE as u128);
            let q: u128 = p / (n as u128);
            proof {
                lemma_mul_v_abs(e as int, z2 as int);
                assert(fx_abs(e as int) * fx_abs(z2 as int) == em as int * z2 as int)
                    by (nonlinear_arith)
                    requires
                        fx_abs(e as int) == em as int,
                        z2 >= 0,
                ;
                lemma_tz_div_abs(fx_mul_v(e as int, z2 as int), n as int);
                lemma_div_is_ordered(p as int, em as int * z2 as int / (FX_SCALE as int),
                    n as int);
                // the power term keeps the sign of e, and its magnitude is q
                assert(fx_abs(erf_pow(zm as int, n as nat)) == q as int
                    && (e >= 0 ==> erf_pow(zm as int, n as nat) == q as int)
                    && (e < 0 ==> erf_pow(zm as int, n as nat) == -(q as int)))
                    by (nonlinear_arith)
                    requires
                        erf_pow(zm as int, n as nat) == fx_sgn(fx_mul_v(e as int, z2 as int))
                            * (fx_abs(fx_mul_v(e as int, z2 as int)) / (n as int)),
                        fx_mul_v(e as int, z2 as int) == fx_sgn(e as int) * fx_sgn(z2 as int)
                            * (em as int * z2 as int / (FX_SCALE as int)),
                        fx_abs(fx_mul_v(e as int, z2 as int)) == em as int * z2 as int
                            / (FX_SCALE as int),
                        p as int == em as int * z2 as int / (FX_SCALE as int),
                        q as int == p as int / (n as int),
                        fx_abs(e as int) == em as int,
                        z2 >= 0,
                        n >= 1,
                        q >= 0,
                        p >= 0,
                ;
            }
            if q > ERF_TERM_CAP as u128 {
                proof {
                    assert(!erf_ok(zm as int, n as nat));
                    if norm_cdf_ok(self.m as int) {
                        lemma_erf_ok_mono(zm as int, n as nat, (ERF_TERMS - 1) as nat);
                    }
                }
                return None;
            }
            let en: i128 = if e < 0 {
                -(q as i128)
            } else {
                q as i128
            };
            e = en;
            let cm: u128 = q / ((2 * n + 1) as u128);
            let c: i128 = if e < 0 {
                -(cm as i128)
            } else {
                cm as i128
            };
            proof {
                lemma_tz_div_abs(e as int, 2 * (n as int) + 1);
                assert(fx_sgn(e as int) * (fx_abs(e as int) / (2 * (n as int) + 1))
                    == c as int) by (nonlinear_arith)
                    requires
                        fx_abs(e as int) == q as int,
                        cm as int == q as int / (2 * (n as int) + 1),
                        (e < 0 ==> c as int == -(cm as int)),
                        (e >= 0 ==> c as int == cm as int),
                        cm >= 0,
                ;
                lemma_div_nonincreasing(q as int, 2 * (n as int) + 1);
                lemma_div_pos_is_pos(q as int, 2 * (n as int) + 1);
            }
            if n % 2 == 0 {
                sum = sum + c;
            } else {
                sum = sum - c;
            }
            n = n + 1;
        }
        let sa: u128 = abs_mag(sum);
        assert(sa * (TWO_OVER_SQRT_PI_FX as u128)
            <= (FX_LIM as u128) * (TWO_OVER_SQRT_PI_FX as u128)) by (nonlinear_arith)
            requires
                sa <= FX_LIM as u128,
        ;
        let mu: u128 = (sa * (TWO_OVER_SQRT_PI_FX as u128)) / (FX_SCALE as u128);
        proof {
            lemma_mul_v_abs(TWO_OVER_SQRT_PI_FX as int, sum as int);
            assert(fx_abs(TWO_OVER_SQRT_PI_FX as int) * fx_abs(sum as int)
                == sa as int * (TWO_OVER_SQRT_PI_FX as int)) by (nonlinear_arith)
                requires
                    fx_abs(sum as int) == sa as int,
            ;
        }
        let scaled: i128 = if sum < 0 {
            -(mu as i128)
        } else {
            mu as i128
        };
        proof {
            assert(fx_sgn(TWO_OVER_SQRT_PI_FX as int) * fx_sgn(sum as int)
                * (sa as int * (TWO_OVER_SQRT_PI_FX as int) / (FX_SCALE as int))
                == scaled as int) by (nonlinear_arith)
                requires
                    mu as int == sa as int * (TWO_OVER_SQRT_PI_FX as int) / (FX_SCALE as int),
                    (sum < 0 ==> scaled as int == -(mu as int)),
                    (sum >= 0 ==> scaled as int == mu as int),
                    (sum < 0 ==> fx_sgn(sum as int) == -1),
                    (sum > 0 ==> fx_sgn(sum as int) == 1),
                    (sum == 0 ==> fx_sgn(sum as int) == 0 && sa as int == 0),
                    sa as int == fx_abs(sum as int),
                    mu >= 0,
                ;
        }
        let erfm: i128 = if scaled > FX_SCALE {
            FX_SCALE
        } else if scaled < -FX_SCALE {
            -FX_SCALE
        } else {
            scaled
        };
        let num: i128 = FX_SCALE + erfm;
        let cdf: i128 = ((num as u128) / 2) as i128;
        Some(Fx { m: cdf })
    }

    /// Standard normal density, rounded as `norm_pdf_v` states; the result
    /// lies in `[0, 1 / sqrt(2 pi)]`.
    pub fn norm_pdf(self) -> (r: Fx)
        requires
            self.wf(),
        ensures
            r.wf(),
            r.m == norm_pdf_v(self.m as int),
            0 <= r.m <= INV_SQRT_2PI_FX,
    {
        let a: u128 = abs_mag(self.m);
        if a >= PDF_CUT as u128 {
            return Fx { m: 0 };
        }
        assert(a * a < (PDF_CUT as u128) * (PDF_CUT as u128)) by (nonlinear_arith)
            requires
                a < PDF_CUT as u128,
        ;
        let x2: u128 = (a * a) / (FX_SCALE as u128);
        proof {
            lemma_mul_v_abs(self.m as int, self.m as int);
            assert(fx_abs(self.m as int) * fx_abs(self.m as int) == a as int * a as int)
                by (nonlinear_arith)
                requires
                    fx_abs(self.m as int) == a as int,
            ;
            assert(fx_sgn(self.m as int) * fx_sgn(self.m as int) * (a as int * a as int
                / (FX_SCALE as int)) == a as int * a as int / (FX_SCALE as int))
                by (nonlinear_arith)
                requires
                    fx_abs(self.m as int) == a as int,
            ;
            assert(x2 as int == fx_mul_v(self.m as int, self.m as int));
            lemma_div_is_ordered(a as int * a as int,
                (PDF_CUT as int) * (PDF_CUT as int), FX_SCALE as int);
        }
        let h: u128 = x2 / 2;
        let eo = Fx { m: -(h as i128) }.exp();
        let ev = eo.unwrap();
        let p: u128 = ((ev.m as u128) * (INV_SQRT_2PI_FX as u128)) / (FX_SCALE as u128);
        proof {
            assert(tz_div(x2 as int, 2) == x2 as int / 2);
            lemma_mul_v_abs(ev.m as int, INV_SQRT_2PI_FX as int);
            assert(ev.m as int * (INV_SQRT_2PI_FX as int)
                <= (FX_SCALE as int) * (INV_SQRT_2PI_FX as int)) by (nonlinear_arith)
                requires
                    0 <= ev.m <= FX_SCALE,
            ;
            lemma_div_is_ordered(ev.m as int * (INV_SQRT_2PI_FX as int),
                (FX_SCALE as int) * (INV_SQRT_2PI_FX as int), FX_SCALE as int);
            assert(fx_sgn(ev.m as int) * fx_sgn(INV_SQRT_2PI_FX as int)
                * (fx_abs(ev.m as int) * fx_abs(INV_SQRT_2PI_FX as int) / (FX_SCALE as int))
                == p as int) by (nonlinear_arith)
                requires
                    p as int == ev.m as int * (INV_SQRT_2PI_FX as int) / (FX_SCALE as int),
                    ev.m >= 0,
                ;
        }
        Fx { m: p as i128 }
    }

    /// Natural logarithm of a positive number, rounded as `ln_v` states.
    pub fn ln(self) -> (r: Fx)
        requires
            self.wf(),
            self.m >= 1,
        ensures
            r.wf(),
            r.m == ln_v(self.m as int),
    {
        let mut m: i128 = self.m;
        let mut k: i64 = 0;
        while m >= 2 * FX_SCALE
            invariant
                1 <= m <= FX_LIM,
                ln_msnt(self.m as int) == ln_msnt(m as int),
                ln_kexp(self.m as int) == k + ln_kexp(m as int),
                pow2i(k as nat) * m <= FX_LIM,
                0 <= k <= 23,
                k > 0 ==> m >= FX_SCALE,
            decreases m,
        {
            proof {
                lemma_pow2i_pos(k as nat);
                assert(pow2i(k as nat) * (2 * FX_SCALE) <= pow2i(k as nat) * m)
                    by (nonlinear_arith)
                    requires
                        pow2i(k as nat) >= 1,
                        m >= 2 * FX_SCALE,
                ;
                reveal_with_fuel(pow2i, 24);
                assert(k < 23);
                assert(2 * (m as int / 2) <= m);
                assert(pow2i((k + 1) as nat) * (m as int / 2) <= pow2i(k as nat) * m)
                    by (nonlinear_arith)
                    requires
                        pow2i((k + 1) as nat) == 2 * pow2i(k as nat),
                        pow2i(k as nat) >= 1,
                        2 * (m as int / 2) <= m,
                ;
            }
            proof {
                lemma_div_is_ordered(2 * (FX_SCALE as int), m as int, 2);
            }
            m = ((m as u128) / 2) as i128;
            k = k + 1;
        }
        while m < FX_SCALE
            invariant
                1 <= m < 2 * FX_SCALE,
                ln_msnt(self.m as int) == ln_msnt(m as int),
                ln_kexp(self.m as int) == k + ln_kexp(m as int),
                -41 <= k <= 23,
                k > 0 ==> m >= FX_SCALE,
                k <= 0 ==> pow2i((-k) as nat) <= 2 * m,
            decreases 2 * FX_SCALE - m,
        {
            proof {
                assert(k <= 0);
                if k <= -41 {
                    lemma_pow2i_mono(41nat, (-k) as nat);
                    reveal_with_fuel(pow2i, 42);
                    assert(pow2i(41nat) == 2199023255552);
                    assert(false);
                }
                assert(pow2i((-(k - 1)) as nat) == 2 * pow2i((-k) as nat));
            }
            m = m * 2;
            k = k - 1;
        }
        assert(ln_msnt(m as int) == m);
        assert(ln_kexp(m as int) == 0);
        let num: i128 = m - FX_SCALE;
        let den: i128 = m + FX_SCALE;
        let t: i128 = (((num as u128) * (FX_SCALE as u128)) / (den as u128)) as i128;
        proof {
            lemma_div_is_ordered_by_denominator(num as int * (FX_SCALE as int),
                2 * (FX_SCALE as int), den as int);
            lemma_div_denominator(num as int * (FX_SCALE as int), FX_SCALE as int, 2);
            assert(num as int * (FX_SCALE as int) / (FX_SCALE as int) == num as int)
                by (nonlinear_arith);
            lemma_div_pos_is_pos(num as int * (FX_SCALE as int), den as int);
            assert(num as int * (FX_SCALE as int) >= 0) by (nonlinear_arith)
                requires
                    num >= 0,
            ;
            lemma_div_sgn_cases(num as int, den as int, t as int);
        }
        let mut sum: i128 = t;
        let mut p: i128 = t;
        let mut j: u32 = 1;
        proof {
            reveal_with_fuel(ln_series, 2);
            lemma_div_basics(t as int);
            assert(ln_series(t as int, 1nat) == tz_div(ln_pow(t as int, 0nat), 1));
        }
        while j < LN_TERMS
            invariant
                1 <= j <= LN_TERMS,
                0 <= t < FX_SCALE,
                p == ln_pow(t as int, (j - 1) as nat),
                sum == ln_series(t as int, j as nat),
                0 <= p <= t,
                0 <= sum <= j * FX_SCALE,
            decreases LN_TERMS - j,
        {
            let pu: u128 = p as u128;
            let tu: u128 = t as u128;
            assert(pu * tu <= (FX_SCALE as u128) * (FX_SCALE as u128)) by (nonlinear_arith)
                requires
                    pu <= FX_SCALE as u128,
                    tu <= FX_SCALE as u128,
            ;
            let q1: u128 = (pu * tu) / (FX_SCALE as u128);
            proof {
                assert(pu as int * tu as int <= pu as int * (FX_SCALE as int))
                    by (nonlinear_arith)
                    requires
                        0 <= pu,
                        tu <= FX_SCALE as u128,
                ;
                lemma_div_is_ordered(pu as int * tu as int, pu as int * (FX_SCALE as int),
                    FX_SCALE as int);
                assert(pu as int * (FX_SCALE as int) / (FX_SCALE as int) == pu as int)
                    by (nonlinear_arith);
                lemma_div_pos_is_pos(pu as int * tu as int, FX_SCALE as int);
                assert(pu as int * tu as int >= 0) by (nonlinear_arith);
                assert(fx_mul_v(p as int, t as int) == q1 as int);
            }
            assert(q1 * tu <= (FX_SCALE as u128) * (FX_SCALE as u128)) by (nonlinear_arith)
                requires
                    q1 <= FX_SCALE as u128,
                    tu <= FX_SCALE as u128,
            ;
            let q2: u128 = (q1 * tu) / (FX_SCALE as u128);
            proof {
                assert(q1 as int * tu as int <= q1 as int * (FX_SCALE as int))
                    by (nonlinear_arith)
                    requires
                        0 <= q1,
                        tu <= FX_SCALE as u128,
                ;
                lemma_div_is_ordered(q1 as int * tu as int, q1 as int * (FX_SCALE as int),
                    FX_SCALE as int);
                assert(q1 as int * (FX_SCALE as int) / (FX_SCALE as int) == q1 as int)
                    by (nonlinear_arith);
                lemma_div_pos_is_pos(q1 as int * tu as int, FX_SCALE as int);
                assert(q1 as int * tu as int >= 0) by (nonlinear_arith);
                assert(fx_mul_v(q1 as i128 as int, t as int) == q2 as int);
            }
            p = q2 as i128;
            let term: u128 = (p as u128) / ((2 * j + 1) as u128);
            proof {
                lemma_div_nonincreasing(p as int, (2 * j + 1) as int);
                lemma_div_pos_is_pos(p as int, (2 * j + 1) as int);
                assert(tz_div(ln_pow(t as int, j as nat), 2 * (j as int) + 1) == term as int);
            }
            sum = sum + (term as i128);
            j = j + 1;
        }
        let r: i128 = (k as i128) * LN2_FX + 2 * sum;
        Fx { m: r }
    }

    /// Square root, rounded down to the twelfth fractional digit.
    pub fn sqrt(self) -> (r: Fx)
        requires
            self.wf(),
            self.m >= 0,
        ensures
            r.wf(),
            r.m >= 0,
            r.m <= 3_170_000_000_000_000,
            r.m as int == fx_sqrt_v(self.m as int),
            is_isqrt(self.m * FX_SCALE, r.m as int),
    {
        let n: u128 = (self.m as u128) * (FX_SCALE as u128);
        let q: u128 = isqrt(n);
        assert(q * q <= n ==> q < 10_000_000_000_000_000_000u128) by (nonlinear_arith)
            requires
                n <= 10_000_000_000_000_000_000 * (FX_SCALE as u128),
        ;
        Fx { m: q as i128 }
    }
}

/// Terms and partial sums of the exponential series are non-negative for a
/// non-negative argument.
proof fn lemma_exp_sum_nonneg(r: int, n: nat)
    requires
        r >= 0,
    ensures
        exp_term(r, n) >= 0,
        exp_sum(r, n) >= 0,
    decreases n,
{
    if n > 0 {
        lemma_exp_sum_nonneg(r, (n - 1) as nat);
        crate::fixed::lemma_mul_v_nonneg(exp_term(r, (n - 1) as nat), r);
        assert(tz_div(fx_mul_v(exp_term(r, (n - 1) as nat), r), n as int) >= 0)
            by (nonlinear_arith)
            requires
                fx_mul_v(exp_term(r, (n - 1) as nat), r) >= 0,
                n >= 1,
        ;
    }
}

/// The partial sums of the exponential series reach one: the zeroth term
/// alone is one and the rest are non-negative.
proof fn lemma_exp_sum_ge_one(r: int, n: nat)
    requires
        r >= 0,
        n >= 1,
    ensures
        exp_sum(r, n) >= FX_SCALE as int,
    decreases n,
{
    lemma_exp_sum_nonneg(r, (n - 1) as nat);
    if n == 1 {
        reveal_with_fuel(exp_sum, 2);
    } else {
        lemma_exp_sum_ge_one(r, (n - 1) as nat);
    }
}

/// The exponential of a non-negative mantissa is at least one, and the
/// exponential of any mantissa is non-negative.
pub proof fn lemma_exp_v_nonneg(x: int)
    ensures
        exp_v(x) >= 0,
        x >= 0 ==> exp_v(x) >= FX_SCALE as int,
{
    lemma_exp_pos_bounds(x);
    if x >= 0 {
    } else if -x <= EXP_ARG_MAX {
        lemma_exp_pos_bounds(-x);
        vstd::arithmetic::div_mod::lemma_div_pos_is_pos((FX_SCALE as int) * (FX_SCALE as int),
            exp_pos_v(-x));
    } else if -x <= 2 * EXP_ARG_MAX {
        lemma_exp_pos_bounds((-x) / 2);
        vstd::arithmetic::div_mod::lemma_div_pos_is_pos((FX_SCALE as int) * (FX_SCALE as int),
            exp_pos_v((-x) / 2));
        crate::fixed::lemma_mul_v_nonneg(exp_recip_v((-x) / 2), exp_recip_v((-x) / 2));
    }
}

/// The reduced-range pieces of the exponential are positive: the series
/// sum is at least one and the power of two at least one, so their product
/// is at least one for a non-negative argument.
proof fn lemma_exp_pos_bounds(x: int)
    ensures
        x >= 0 ==> exp_pos_v(x) >= FX_SCALE as int,
        exp_pos_v(x) >= 0,
{
    let k = (x / (LN2_FX as int)) as nat;
    let y = x % (LN2_FX as int);
    vstd::arithmetic::div_mod::lemma_mod_bound(x, LN2_FX as int);
    lemma_exp_sum_ge_one(y, EXP_TERMS as nat);
    lemma_pow2i_pos(k);
    assert(pow2i(k) * exp_sum(y, EXP_TERMS as nat) >= exp_sum(y, EXP_TERMS as nat))
        by (nonlinear_arith)
        requires
            pow2i(k) >= 1,
            exp_sum(y, EXP_TERMS as nat) >= 0,
    ;
}

/// The exponential of zero is exactly one.
pub proof fn lemma_exp_pos_zero()
    ensures
        exp_pos_v(0) == FX_SCALE as int,
{
    lemma_exp_sum_zero(EXP_TERMS as nat);
    assert(0int / (LN2_FX as int) == 0 && 0int % (LN2_FX as int) == 0);
    assert(pow2i(0) == 1);
}

/// The power terms of the error-function series are odd in the argument.
proof fn lemma_erf_pow_odd(z: int, n: nat)
    ensures
        erf_pow(-z, n) == -erf_pow(z, n),
    decreases n,
{
    if n == 0 {
    } else {
        lemma_erf_pow_odd(z, (n - 1) as nat);
        assert((-z) * (-z) == z * z) by (nonlinear_arith);
        assert(fx_mul_v(-z, -z) == fx_mul_v(z, z));
        crate::fixed::lemma_mul_v_odd_left(erf_pow(z, (n - 1) as nat), fx_mul_v(z, z));
        crate::fixed::lemma_tz_div_odd(fx_mul_v(erf_pow(z, (n - 1) as nat), fx_mul_v(z, z)),
            n as int);
    }
}

/// The partial sums of the error-function series are odd in the argument.
proof fn lemma_erf_sum_odd(z: int, n: nat)
    ensures
        erf_sum(-z, n) == -erf_sum(z, n),
    decreases n,
{
    if n > 0 {
        lemma_erf_sum_odd(z, (n - 1) as nat);
        lemma_erf_pow_odd(z, (n - 1) as nat);
        crate::fixed::lemma_tz_div_odd(erf_pow(z, (n - 1) as nat), 2 * (n - 1) + 1);
    }
}

/// The error function is odd and bounded by one in magnitude.
pub proof fn lemma_erf_v_odd(z: int)
    ensures
        erf_v(-z) == -erf_v(z),
        -(FX_SCALE as int) <= erf_v(z) <= FX_SCALE as int,
{
    if z >= ERF_CUT {
    } else if z <= -ERF_CUT {
    } else {
        lemma_erf_sum_odd(z, ERF_TERMS as nat);
        crate::fixed::lemma_mul_v_odd_left(erf_sum(z, ERF_TERMS as nat),
            TWO_OVER_SQRT_PI_FX as int);
        assert(erf_sum(-z, ERF_TERMS as nat) * (TWO_OVER_SQRT_PI_FX as int) == (-erf_sum(z,
            ERF_TERMS as nat)) * (TWO_OVER_SQRT_PI_FX as int)) by (nonlinear_arith)
            requires
                erf_sum(-z, ERF_TERMS as nat) == -erf_sum(z, ERF_TERMS as nat),
        ;
        assert((TWO_OVER_SQRT_PI_FX as int) * erf_sum(-z, ERF_TERMS as nat) == erf_sum(-z,
            ERF_TERMS as nat) * (TWO_OVER_SQRT_PI_FX as int)) by (nonlinear_arith);
        assert((TWO_OVER_SQRT_PI_FX as int) * erf_sum(z, ERF_TERMS as nat) == erf_sum(z,
            ERF_TERMS as nat) * (TWO_OVER_SQRT_PI_FX as int)) by (nonlinear_arith);
        assert(fx_mul_v(TWO_OVER_SQRT_PI_FX as int, erf_sum(-z, ERF_TERMS as nat))
            == -fx_mul_v(TWO_OVER_SQRT_PI_FX as int, erf_sum(z, ERF_TERMS as nat))) by {
            crate::fixed::lemma_mul_v_odd_left(erf_sum(z, ERF_TERMS as nat),
                TWO_OVER_SQRT_PI_FX as int);
            assert(fx_mul_v(-erf_sum(z, ERF_TERMS as nat), TWO_OVER_SQRT_PI_FX as int)
                == -fx_mul_v(erf_sum(z, ERF_TERMS as nat), TWO_OVER_SQRT_PI_FX as int));
            assert(fx_mul_v(TWO_OVER_SQRT_PI_FX as int, erf_sum(-z, ERF_TERMS as nat))
                == fx_mul_v(erf_sum(-z, ERF_TERMS as nat), TWO_OVER_SQRT_PI_FX as int)) by {
                assert((TWO_OVER_SQRT_PI_FX as int) * erf_sum(-z, ERF_TERMS as nat)
                    == erf_sum(-z, ERF_TERMS as nat) * (TWO_OVER_SQRT_PI_FX as int))
                    by (nonlinear_arith);
            }
            assert(fx_mul_v(TWO_OVER_SQRT_PI_FX as int, erf_sum(z, ERF_TERMS as nat))
                == fx_mul_v(erf_sum(z, ERF_TERMS as nat), TWO_OVER_SQRT_PI_FX as int)) by {
                assert((TWO_OVER_SQRT_PI_FX as int) * erf_sum(z, ERF_TERMS as nat)
                    == erf_sum(z, ERF_TERMS as nat) * (TWO_OVER_SQRT_PI_FX as int))
                    by (nonlinear_arith);
            }
        }
        assert(clamp_unit(-fx_mul_v(TWO_OVER_SQRT_PI_FX as int, erf_sum(z, ERF_TERMS as nat)))
            == -clamp_unit(fx_mul_v(TWO_OVER_SQRT_PI_FX as int, erf_sum(z, ERF_TERMS as nat))));
    }
}

/// The distribution function at `x` and at `-x` sum to one, up to a single
/// truncation unit, and each lies in the unit interval.
pub proof fn lemma_cdf_pair(x: int)
    ensures
        (FX_SCALE as int) - 1 <= norm_cdf_v(x) + norm_cdf_v(-x) <= FX_SCALE as int,
        0 <= norm_cdf_v(x) <= FX_SCALE as int,
{
    let z = fx_mul_v(x, INV_SQRT2_FX as int);
    crate::fixed::lemma_mul_v_odd_left(x, INV_SQRT2_FX as int);
    assert(fx_mul_v(-x, INV_SQRT2_FX as int) == -z);
    lemma_erf_v_odd(z);
    let e = erf_v(z);
    let a = (FX_SCALE as int) + e;
    let b = (FX_SCALE as int) - e;
    assert(a >= 0 && b >= 0 && a + b == 2 * (FX_SCALE as int));
    assert(norm_cdf_v(x) == a / 2 && norm_cdf_v(-x) == b / 2);
    vstd::arithmetic::div_mod::lemma_fundamental_div_mod(a, 2);
    vstd::arithmetic::div_mod::lemma_fundamental_div_mod(b, 2);
    vstd::arithmetic::div_mod::lemma_mod_bound(a, 2);
    vstd::arithmetic::div_mod::lemma_mod_bound(b, 2);
    vstd::arithmetic::div_mod::lemma_div_pos_is_pos(a, 2);
    vstd::arithmetic::div_mod::lemma_div_pos_is_pos(b, 2);
    assert(a / 2 <= FX_SCALE as int && (FX_SCALE as int) - 1 <= a / 2 + b / 2 <= FX_SCALE as int)
        by (nonlinear_arith)
        requires
            a == 2 * (a / 2) + a % 2,
            b == 2 * (b / 2) + b % 2,
            0 <= a % 2 < 2,
            0 <= b % 2 < 2,
            a + b == 2 * (FX_SCALE as int),
            a <= 2 * (FX_SCALE as int),
    ;
}

} // verus!
