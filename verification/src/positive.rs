//! Non-negative fixed-point numbers.
//!
//! `Positive` wraps an `Fx` whose value is known to be at least zero:
//! volatilities, times to expiration, strikes, prices and quantities are
//! carried by it. Construction rejects negative values, and arithmetic
//! either preserves non-negativity or reports failure; nothing is clamped.

use vstd::prelude::*;

use crate::fixed::{fx_div_v, fx_in_range, fx_mul_v, lemma_div_v_nonneg, lemma_mul_v_nonneg, Fx,
    FX_SCALE};

verus! {

/// A fixed-point number constrained to be non-negative.
#[derive(Clone, Copy, Debug, PartialEq, Eq, Structural)]
pub struct Positive {
    /// The underlying fixed-point value.
    pub fx: Fx,
}

impl Positive {
    /// The value is in range and not negative.
    pub open spec fn wf(self) -> bool {
        self.fx.wf() && self.fx.m >= 0
    }

    /// Mathematical value of the mantissa.
    pub open spec fn v(self) -> int {
        self.fx.m as int
    }

    /// Wraps a fixed-point value; `None` exactly when it is negative.
    pub fn new(v: Fx) -> (r: Option<Positive>)
        requires
            v.wf(),
        ensures
            r is Some <==> v.m >= 0,
            r matches Some(p) ==> p.fx == v && p.wf(),
    {
        if v.m >= 0 {
            Some(Positive { fx: v })
        } else {
            None
        }
    }

    /// The value zero.
    pub fn zero() -> (r: Positive)
        ensures
            r.wf(),
            r.fx.m == 0,
    {
        Positive { fx: Fx { m: 0 } }
    }

    /// The value one.
    pub fn one() -> (r: Positive)
        ensures
            r.wf(),
            r.fx.m == FX_SCALE,
    {
        Positive { fx: Fx { m: FX_SCALE } }
    }

    /// Builds `units + frac / FX_SCALE` from its decimal parts.
    pub fn from_parts(units: u32, frac: u64) -> (r: Positive)
        requires
            units < 10_000_000,
            frac < FX_SCALE,
        ensures
            r.wf(),
            r.fx.m == units * FX_SCALE + frac,
    {
        Positive { fx: Fx::from_parts(false, units, frac) }
    }

    /// Exact addition of non-negative values; `None` when out of range.
    pub fn cadd(self, o: Positive) -> (r: Option<Positive>)
        requires
            self.wf(),
            o.wf(),
        ensures
            match r {
                Some(p) => p.wf() && p.fx.m == self.fx.m + o.fx.m,
                None => !fx_in_range(self.fx.m + o.fx.m),
            },
    {
        match self.fx.cadd(o.fx) {
            Some(v) => Some(Positive { fx: v }),
            None => None,
        }
    }

    /// Exact subtraction; `None` exactly when the difference is negative.
    pub fn csub(self, o: Positive) -> (r: Option<Positive>)
        requires
            self.wf(),
            o.wf(),
        ensures
            r is Some <==> self.fx.m >= o.fx.m,
            r matches Some(p) ==> p.wf() && p.fx.m == self.fx.m - o.fx.m,
    {
        if self.fx.m >= o.fx.m {
            Some(Positive { fx: Fx { m: self.fx.m - o.fx.m } })
        } else {
            None
        }
    }

    /// Product rounded toward zero; `None` when out of range.
    pub fn cmul(self, o: Positive) -> (r: Option<Positive>)
        requires
            self.wf(),
            o.wf(),
        ensures
            match r {
                Some(p) => p.wf() && p.fx.m == fx_mul_v(self.fx.m as int, o.fx.m as int),
                None => !fx_in_range(fx_mul_v(self.fx.m as int, o.fx.m as int)),
            },
    {
        proof {
            lemma_mul_v_nonneg(self.fx.m as int, o.fx.m as int);
        }
        match self.fx.cmul(o.fx) {
            Some(v) => Some(Positive { fx: v }),
            None => None,
        }
    }

    /// Quotient rounded toward zero; `None` when the divisor is zero or the
    /// quotient leaves the range.
    pub fn cdiv(self, o: Positive) -> (r: Option<Positive>)
        requires
            self.wf(),
            o.wf(),
        ensures
            match r {
                Some(p) => o.fx.m != 0 && p.wf() && p.fx.m == fx_div_v(self.fx.m as int,
                    o.fx.m as int),
                None => o.fx.m == 0 || !fx_in_range(fx_div_v(self.fx.m as int, o.fx.m as int)),
            },
    {
        proof {
            lemma_div_v_nonneg(self.fx.m as int, o.fx.m as int);
        }
        match self.fx.cdiv(o.fx) {
            Some(v) => Some(Positive { fx: v }),
            None => None,
        }
    }
}

} // verus!
