//! Signed fixed-point decimals with twelve fractional digits.
//!
//! An `Fx` with mantissa `m` stands for the rational number `m / FX_SCALE`.
//! Multiplication and division round toward zero; addition and subtraction
//! are exact. Every operation checks that its result stays within
//! `[-FX_LIM, FX_LIM]` and reports failure instead of wrapping.

use vstd::prelude::*;

verus! {

/// Scaling factor: an `Fx` with mantissa `m` stands for `m / FX_SCALE`.
pub const FX_SCALE: i128 = 1_000_000_000_000;

/// Largest mantissa magnitude the arithmetic accepts (ten million in value).
pub const FX_LIM: i128 = 10_000_000_000_000_000_000;

/// Fixed-point decimal number: `m` is the value times `FX_SCALE`.
#[derive(Clone, Copy, Debug, PartialEq, Eq, Structural)]
pub struct Fx {
    /// Mantissa: the represented value times `FX_SCALE`.
    pub m: i128,
}

/// Whether a mantissa lies within the representable range.
pub open spec fn fx_in_range(x: int) -> bool {
    -FX_LIM <= x && x <= FX_LIM
}

/// Magnitude of an integer.
pub open spec fn fx_abs(a: int) -> int {
    if a >= 0 {
        a
    } else {
        -a
    }
}

/// Sign of an integer: -1, 0 or 1.
pub open spec fn fx_sgn(a: int) -> int {
    if a > 0 {
        1
    } else if a == 0 {
        0
    } else {
        -1
    }
}

/// Quotient of `a` by a positive `b`, rounded toward zero.
pub open spec fn tz_div(a: int, b: int) -> int
    recommends
        b > 0,
{
    if a >= 0 {
        a / b
    } else {
        -((-a) / b)
    }
}

/// Mantissa of the product of two fixed-point numbers, rounded toward zero.
pub open spec fn fx_mul_v(a: int, b: int) -> int {
    tz_div(a * b, FX_SCALE as int)
}

/// Mantissa of the quotient of two fixed-point numbers, rounded toward zero.
/// The quotient is taken as zero when the divisor is zero.
pub open spec fn fx_div_v(a: int, b: int) -> int {
    if b == 0 {
        0
    } else {
        fx_sgn(a) * fx_sgn(b) * (fx_abs(a) * (FX_SCALE as int) / fx_abs(b))
    }
}

/// The magnitude of a product is the product of the magnitudes.
pub(crate) proof fn lemma_abs_mul(a: int, b: int)
    by (nonlinear_arith)
    ensures
        fx_abs(a * b) == fx_abs(a) * fx_abs(b),
        fx_sgn(a * b) == fx_sgn(a) * fx_sgn(b),
{
}

/// Rounding toward zero never grows the magnitude of the exact quotient.
pub(crate) proof fn lemma_tz_div_abs(a: int, b: int)
    by (nonlinear_arith)
    requires
        b > 0,
    ensures
        tz_div(a, b) == fx_sgn(a) * (fx_abs(a) / b),
        fx_abs(tz_div(a, b)) == fx_abs(a) / b,
        fx_abs(a) / b <= fx_abs(a),
{
}

impl Fx {
    /// The mantissa lies within the representable range.
    pub open spec fn wf(self) -> bool {
        fx_in_range(self.m as int)
    }

    /// Mathematical value of the mantissa.
    pub open spec fn v(self) -> int {
        self.m as int
    }

    /// The fixed-point zero.
    pub fn zero() -> (r: Fx)
        ensures
            r.m == 0,
            r.wf(),
    {
        Fx { m: 0 }
    }

    /// The fixed-point one.
    pub fn one() -> (r: Fx)
        ensures
            r.m == FX_SCALE,
            r.wf(),
    {
        Fx { m: FX_SCALE }
    }

    /// Builds the number `units + frac / FX_SCALE`; `frac` carries the
    /// twelve fractional digits. The sign is taken from `neg`.
    pub fn from_parts(neg: bool, units: u32, frac: u64) -> (r: Fx)
        requires
            units < 10_000_000,
            frac < FX_SCALE,
        ensures
            r.wf(),
            r.m == (if neg {
                -(units * FX_SCALE + frac)
            } else {
                units * FX_SCALE + frac
            }),
    {
        let mag: i128 = (units as i128) * FX_SCALE + (frac as i128);
        if neg {
            Fx { m: -mag }
        } else {
            Fx { m: mag }
        }
    }

    /// Builds the whole number `units`.
    pub fn from_int(units: i64) -> (r: Fx)
        requires
            -1_000_000 <= units <= 1_000_000,
        ensures
            r.wf(),
            r.m == units * FX_SCALE,
    {
        Fx { m: (units as i128) * FX_SCALE }
    }

    /// Exact negation.
    pub fn neg(self) -> (r: Fx)
        requires
            self.wf(),
        ensures
            r.wf(),
            r.m == -self.m,
    {
        Fx { m: -self.m }
    }

    /// Exact magnitude.
    pub fn abs(self) -> (r: Fx)
        requires
            self.wf(),
        ensures
            r.wf(),
            r.m == fx_abs(self.m as int),
    {
        if self.m < 0 {
            Fx { m: -self.m }
        } else {
            self
        }
    }

    /// Exact addition; `None` when the sum leaves the representable range.
    pub fn cadd(self, o: Fx) -> (r: Option<Fx>)
        requires
            self.wf(),
            o.wf(),
        ensures
            match r {
                Some(v) => v.wf() && v.m == self.m + o.m,
                None => !fx_in_range(self.m + o.m),
            },
    {
        let s: i128 = self.m + o.m;
        if -FX_LIM <= s && s <= FX_LIM {
            Some(Fx { m: s })
        } else {
            None
        }
    }

    /// Exact subtraction; `None` when the difference leaves the range.
    pub fn csub(self, o: Fx) -> (r: Option<Fx>)
        requires
            self.wf(),
            o.wf(),
        ensures
            match r {
                Some(v) => v.wf() && v.m == self.m - o.m,
                None => !fx_in_range(self.m - o.m),
            },
    {
        let s: i128 = self.m - o.m;
        if -FX_LIM <= s && s <= FX_LIM {
            Some(Fx { m: s })
        } else {
            None
        }
    }

    /// Product rounded toward zero; `None` when it leaves the range.
    pub fn cmul(self, o: Fx) -> (r: Option<Fx>)
        requires
            self.wf(),
            o.wf(),
        ensures
            match r {
                Some(v) => v.wf() && v.m == fx_mul_v(self.m as int, o.m as int),
                None => !fx_in_range(fx_mul_v(self.m as int, o.m as int)),
            },
    {
        let ma: u128 = abs_mag(self.m);
        let mb: u128 = abs_mag(o.m);
        assert(ma * mb <= (FX_LIM as u128) * (FX_LIM as u128)) by (nonlinear_arith)
            requires
                ma <= FX_LIM as u128,
                mb <= FX_LIM as u128,
        ;
        let p: u128 = ma * mb;
        let q: u128 = p / (FX_SCALE as u128);
        proof {
            lemma_abs_mul(self.m as int, o.m as int);
            lemma_tz_div_abs(self.m as int * o.m as int, FX_SCALE as int);
        }
        if q > FX_LIM as u128 {
            None
        } else {
            let neg = (self.m < 0) != (o.m < 0);
            let mm: i128 = if neg {
                -(q as i128)
            } else {
                q as i128
            };
            Some(Fx { m: mm })
        }
    }

    /// Quotient rounded toward zero; `None` when the divisor is zero or the
    /// quotient leaves the range.
    pub fn cdiv(self, o: Fx) -> (r: Option<Fx>)
        requires
            self.wf(),
            o.wf(),
        ensures
            match r {
                Some(v) => o.m != 0 && v.wf() && v.m == fx_div_v(self.m as int, o.m as int),
                None => o.m == 0 || !fx_in_range(fx_div_v(self.m as int, o.m as int)),
            },
    {
        if o.m == 0 {
            return None;
        }
        let ma: u128 = abs_mag(self.m);
        let mb: u128 = abs_mag(o.m);
        assert(ma * (FX_SCALE as u128) <= (FX_LIM as u128) * (FX_SCALE as u128))
            by (nonlinear_arith)
            requires
                ma <= FX_LIM as u128,
        ;
        let p: u128 = ma * (FX_SCALE as u128);
        let q: u128 = p / mb;
        proof {
            lemma_abs_mul(self.m as int, FX_SCALE as int);
            assert(fx_abs(self.m as int) * (FX_SCALE as int) / fx_abs(o.m as int) == q as int);
            lemma_div_sgn_cases(self.m as int, o.m as int, q as int);
        }
        if q > FX_LIM as u128 {
            None
        } else {
            let neg = (self.m < 0) != (o.m < 0);
            let mm: i128 = if neg {
                -(q as i128)
            } else {
                q as i128
            };
            Some(Fx { m: mm })
        }
    }
}

/// Relates the signed quotient to the quotient of magnitudes.
pub(crate) proof fn lemma_div_sgn_cases(a: int, b: int, q: int)
    requires
        b != 0,
        q == fx_abs(a) * (FX_SCALE as int) / fx_abs(b),
        q >= 0,
    ensures
        (a < 0) != (b < 0) ==> fx_div_v(a, b) == -q,
        !((a < 0) != (b < 0)) ==> fx_div_v(a, b) == q,
{
    if a == 0 {
        assert(q == 0 && fx_div_v(a, b) == 0) by (nonlinear_arith)
            requires
                a == 0,
                b != 0,
                q == fx_abs(a) * (FX_SCALE as int) / fx_abs(b),
        ;
    } else {
        assert({
            &&& fx_div_v(a, b) == fx_sgn(a) * fx_sgn(b) * q
            &&& ((a < 0) != (b < 0) ==> fx_sgn(a) * fx_sgn(b) * q == -q)
            &&& (!((a < 0) != (b < 0)) ==> fx_sgn(a) * fx_sgn(b) * q == q)
        }) by (nonlinear_arith)
            requires
                a != 0,
                b != 0,
                q == fx_abs(a) * (FX_SCALE as int) / fx_abs(b),
                q >= 0,
        ;
    }
}

/// The magnitude of a fixed-point product is the quotient of the product
/// of the magnitudes, and its sign is the product of the signs.
pub(crate) proof fn lemma_mul_v_abs(a: int, b: int)
    ensures
        fx_abs(fx_mul_v(a, b)) == fx_abs(a) * fx_abs(b) / (FX_SCALE as int),
        fx_mul_v(a, b) == fx_sgn(a) * fx_sgn(b) * (fx_abs(a) * fx_abs(b) / (FX_SCALE as int)),
{
    lemma_abs_mul(a, b);
    lemma_tz_div_abs(a * b, FX_SCALE as int);
}

/// A product of non-negative values is non-negative, and no bigger than
/// the exact product scaled down.
pub(crate) proof fn lemma_mul_v_nonneg(a: int, b: int)
    by (nonlinear_arith)
    requires
        a >= 0,
        b >= 0,
    ensures
        fx_mul_v(a, b) >= 0,
{
}

/// A quotient of non-negative values is non-negative.
pub(crate) proof fn lemma_div_v_nonneg(a: int, b: int)
    by (nonlinear_arith)
    requires
        a >= 0,
        b >= 0,
    ensures
        fx_div_v(a, b) >= 0,
{
}

/// Multiplying by a factor of magnitude at most one never grows the
/// magnitude.
pub(crate) proof fn lemma_mul_v_small(a: int, b: int)
    requires
        fx_abs(b) <= FX_SCALE,
    ensures
        fx_abs(fx_mul_v(a, b)) <= fx_abs(a),
{
    lemma_mul_v_abs(a, b);
    vstd::arithmetic::mul::lemma_mul_inequality(fx_abs(b), FX_SCALE as int, fx_abs(a));
    vstd::arithmetic::div_mod::lemma_div_is_ordered(fx_abs(a) * fx_abs(b),
        fx_abs(a) * (FX_SCALE as int), FX_SCALE as int);
    assert(fx_abs(a) * fx_abs(b) == fx_abs(b) * fx_abs(a)) by (nonlinear_arith);
    assert(fx_abs(a) * (FX_SCALE as int) / (FX_SCALE as int) == fx_abs(a)) by (nonlinear_arith);
    vstd::arithmetic::div_mod::lemma_div_pos_is_pos(fx_abs(a) * fx_abs(b), FX_SCALE as int);
    assert(fx_abs(a) * fx_abs(b) >= 0) by (nonlinear_arith);
}

/// Dividing by a value of magnitude at least one never grows the
/// magnitude.
pub(crate) proof fn lemma_div_v_small(a: int, b: int)
    requires
        fx_abs(b) >= FX_SCALE,
    ensures
        fx_abs(fx_div_v(a, b)) <= fx_abs(a),
{
    let q = fx_abs(a) * (FX_SCALE as int) / fx_abs(b);
    vstd::arithmetic::div_mod::lemma_div_is_ordered_by_denominator(
        fx_abs(a) * (FX_SCALE as int), FX_SCALE as int, fx_abs(b));
    assert(fx_abs(a) * (FX_SCALE as int) / (FX_SCALE as int) == fx_abs(a)) by (nonlinear_arith);
    assert(fx_abs(a) * (FX_SCALE as int) >= 0) by (nonlinear_arith);
    vstd::arithmetic::div_mod::lemma_div_pos_is_pos(fx_abs(a) * (FX_SCALE as int), fx_abs(b));
    assert(fx_abs(fx_sgn(a) * fx_sgn(b) * q) <= q) by (nonlinear_arith)
        requires
            q >= 0,
    ;
}

/// The product is monotone in a non-negative second factor.
pub(crate) proof fn lemma_mul_v_mono_right(a: int, b1: int, b2: int)
    requires
        0 <= a,
        0 <= b1 <= b2,
    ensures
        fx_mul_v(a, b1) <= fx_mul_v(a, b2),
{
    assert(fx_mul_v(a, b1) == a * b1 / (FX_SCALE as int) && fx_mul_v(a, b2) == a * b2
        / (FX_SCALE as int) && a * b1 >= 0 && a * b1 <= a * b2) by (nonlinear_arith)
        requires
            0 <= a,
            0 <= b1 <= b2,
    ;
    vstd::arithmetic::div_mod::lemma_div_is_ordered(a * b1, a * b2, FX_SCALE as int);
}

/// Multiplying a non-negative value by a factor of at least one never
/// shrinks it.
pub(crate) proof fn lemma_mul_v_ge_one(x: int, u: int)
    requires
        0 <= x,
        u >= FX_SCALE,
    ensures
        fx_mul_v(x, u) >= x,
{
    assert(fx_mul_v(x, u) == x * u / (FX_SCALE as int) && x * u >= x * (FX_SCALE as int))
        by (nonlinear_arith)
        requires
            0 <= x,
            u >= FX_SCALE,
    ;
    vstd::arithmetic::div_mod::lemma_div_is_ordered(x * (FX_SCALE as int), x * u,
        FX_SCALE as int);
    assert(x * (FX_SCALE as int) / (FX_SCALE as int) == x) by (nonlinear_arith);
}

/// A convex combination with fixed-point weights never passes the larger
/// operand: with `p + pp == FX_SCALE`, the weighted sum of two values in
/// `[0, vmax]` stays in `[0, vmax]`.
pub(crate) proof fn lemma_convex_bound(p: int, pp: int, v1: int, v2: int, vmax: int)
    requires
        0 <= p <= FX_SCALE,
        pp == (FX_SCALE as int) - p,
        0 <= v1 <= vmax,
        0 <= v2 <= vmax,
    ensures
        0 <= fx_mul_v(p, v1) + fx_mul_v(pp, v2) <= vmax,
{
    assert(fx_mul_v(p, v1) == p * v1 / (FX_SCALE as int) && fx_mul_v(pp, v2) == pp * v2
        / (FX_SCALE as int) && p * v1 >= 0 && pp * v2 >= 0) by (nonlinear_arith)
        requires
            0 <= p,
            0 <= pp,
            0 <= v1,
            0 <= v2,
    ;
    vstd::arithmetic::div_mod::lemma_div_pos_is_pos(p * v1, FX_SCALE as int);
    vstd::arithmetic::div_mod::lemma_div_pos_is_pos(pp * v2, FX_SCALE as int);
    // the sum of the two quotients is at most the quotient of the sum
    assert(p * v1 / (FX_SCALE as int) + pp * v2 / (FX_SCALE as int) <= (p * v1 + pp * v2)
        / (FX_SCALE as int)) by {
        vstd::arithmetic::div_mod::lemma_fundamental_div_mod(p * v1, FX_SCALE as int);
        vstd::arithmetic::div_mod::lemma_fundamental_div_mod(pp * v2, FX_SCALE as int);
        vstd::arithmetic::div_mod::lemma_mod_bound(p * v1, FX_SCALE as int);
        vstd::arithmetic::div_mod::lemma_mod_bound(pp * v2, FX_SCALE as int);
        let q1 = p * v1 / (FX_SCALE as int);
        let q2 = pp * v2 / (FX_SCALE as int);
        assert((p * v1 + pp * v2) / (FX_SCALE as int) >= q1 + q2) by (nonlinear_arith)
            requires
                p * v1 == (FX_SCALE as int) * q1 + p * v1 % (FX_SCALE as int),
                pp * v2 == (FX_SCALE as int) * q2 + pp * v2 % (FX_SCALE as int),
                0 <= p * v1 % (FX_SCALE as int),
                0 <= pp * v2 % (FX_SCALE as int),
        ;
    }
    assert(p * v1 + pp * v2 <= (FX_SCALE as int) * vmax) by (nonlinear_arith)
        requires
            0 <= p <= FX_SCALE,
            pp == (FX_SCALE as int) - p,
            0 <= v1 <= vmax,
            0 <= v2 <= vmax,
    ;
    vstd::arithmetic::div_mod::lemma_div_is_ordered(p * v1 + pp * v2,
        (FX_SCALE as int) * vmax, FX_SCALE as int);
    assert((FX_SCALE as int) * vmax / (FX_SCALE as int) == vmax) by (nonlinear_arith);
}

/// Negating the first factor negates the product.
pub(crate) proof fn lemma_mul_v_odd_left(a: int, b: int)
    ensures
        fx_mul_v(-a, b) == -fx_mul_v(a, b),
{
    lemma_mul_v_abs(a, b);
    lemma_mul_v_abs(-a, b);
    assert(fx_abs(-a) == fx_abs(a) && fx_sgn(-a) == -fx_sgn(a)) by (nonlinear_arith);
    assert(fx_sgn(-a) * fx_sgn(b) * (fx_abs(a) * fx_abs(b) / (FX_SCALE as int)) == -(fx_sgn(a)
        * fx_sgn(b) * (fx_abs(a) * fx_abs(b) / (FX_SCALE as int)))) by (nonlinear_arith)
        requires
            fx_sgn(-a) == -fx_sgn(a),
    ;
}

/// Negating the dividend negates the truncated quotient.
pub(crate) proof fn lemma_tz_div_odd(a: int, b: int)
    requires
        b > 0,
    ensures
        tz_div(-a, b) == -tz_div(a, b),
{
    if a == 0 {
    } else if a > 0 {
        assert(tz_div(-a, b) == -((a) / b));
    } else {
        assert(tz_div(a, b) == -((-a) / b));
    }
}

/// Magnitude of an in-range mantissa, as an unsigned integer.
pub(crate) fn abs_mag(x: i128) -> (r: u128)
    requires
        fx_in_range(x as int),
    ensures
        r as int == fx_abs(x as int),
        r <= FX_LIM as u128,
{
    if x < 0 {
        (-x) as u128
    } else {
        x as u128
    }
}

} // verus!
