//! Deterministic pseudo-random numbers for the simulation pricers.
//!
//! The generator is an explicit, seedable value handed to the pricers, so
//! every simulation is reproducible given its seed. The contracts give the
//! exact state transition and the exact value drawn, so a caller's
//! contract can speak of the whole simulated sequence.

use vstd::prelude::*;
use vstd::wrapping::u64_specs;

use crate::fixed::{Fx, FX_SCALE};

verus! {

/// Multiplier of the linear congruential step.
pub const LCG_MUL: u64 = 6_364_136_223_846_793_005;

/// Increment of the linear congruential step.
pub const LCG_INC: u64 = 1_442_695_040_888_963_407;

/// The state that follows `s`: a 64-bit linear congruential step.
pub open spec fn lcg_next_v(s: u64) -> u64 {
    u64_specs::wrapping_add(u64_specs::wrapping_mul(s, LCG_MUL), LCG_INC)
}

/// Mantissa of the uniform draw carried by state `s`: the top thirty-one
/// bits, scaled into `[0, 1)`.
pub open spec fn unif_of(s: u64) -> int {
    ((s >> 33) as int) * (FX_SCALE as int) / 0x8000_0000
}

/// Running sum of `k` uniform draws starting after state `s`: the summed
/// mantissas and the state left behind.
pub open spec fn unif_sum_v(s: u64, k: nat) -> (int, u64)
    decreases k,
{
    if k == 0 {
        (0int, s)
    } else {
        let p = unif_sum_v(s, (k - 1) as nat);
        let ns = lcg_next_v(p.1);
        (p.0 + unif_of(ns), ns)
    }
}

/// Mantissa of the normal draw taken from state `s`: twelve uniform draws
/// summed, minus six, which has mean zero and unit variance.
#[verifier::opaque]
pub open spec fn normal_of(s: u64) -> int {
    unif_sum_v(s, 12).0 - 6 * (FX_SCALE as int)
}

/// The state after a normal draw from state `s`.
#[verifier::opaque]
pub open spec fn normal_state_of(s: u64) -> u64 {
    unif_sum_v(s, 12).1
}

/// A seedable linear congruential generator.
#[derive(Clone, Copy, Debug, PartialEq, Eq, Structural)]
pub struct LcgRng {
    /// Current state; the next draw is a pure function of it.
    pub state: u64,
}

impl LcgRng {
    /// A generator starting from `seed`.
    pub fn new(seed: u64) -> (r: LcgRng)
        ensures
            r.state == seed,
    {
        LcgRng { state: seed }
    }

    /// Advances the state one congruential step and returns it.
    pub fn next_u64(&mut self) -> (r: u64)
        ensures
            final(self).state == lcg_next_v(old(self).state),
            r == final(self).state,
    {
        self.state = self.state.wrapping_mul(LCG_MUL).wrapping_add(LCG_INC);
        self.state
    }

    /// Draws a uniform value in `[0, 1)`.
    pub fn next_unif(&mut self) -> (r: Fx)
        ensures
            final(self).state == lcg_next_v(old(self).state),
            r.m == unif_of(final(self).state),
            0 <= r.m < FX_SCALE,
            r.wf(),
    {
        let x = self.next_u64();
        let hi: u64 = x >> 33;
        assert(hi < 0x8000_0000) by (bit_vector)
            requires
                hi == x >> 33,
        ;
        let scaled: u128 = (hi as u128) * (FX_SCALE as u128);
        let q: u128 = scaled / 0x8000_0000;
        proof {
            vstd::arithmetic::div_mod::lemma_div_is_ordered(hi as int * (FX_SCALE as int),
                0x7FFF_FFFF * (FX_SCALE as int), 0x8000_0000);
            vstd::arithmetic::mul::lemma_mul_inequality(hi as int, 0x7FFF_FFFF,
                FX_SCALE as int);
            vstd::arithmetic::div_mod::lemma_div_pos_is_pos(hi as int * (FX_SCALE as int),
                0x8000_0000);
            assert(hi as int * (FX_SCALE as int) >= 0) by (nonlinear_arith);
        }
        Fx { m: q as i128 }
    }

    /// Draws a normal value: twelve uniforms summed, minus six. The result
    /// lies in `[-6, 6]`, with mean zero and unit variance.
    pub fn next_normal(&mut self) -> (r: Fx)
        ensures
            final(self).state == normal_state_of(old(self).state),
            r.m == normal_of(old(self).state),
            r.wf(),
            -6 * FX_SCALE <= r.m < 6 * FX_SCALE + 12,
    {
        proof {
            reveal(normal_of);
            reveal(normal_state_of);
        }
        let ghost s0: u64 = self.state;
        let mut acc: i128 = 0;
        let mut i: u32 = 0;
        while i < 12
            invariant
                0 <= i <= 12,
                acc == unif_sum_v(s0, i as nat).0,
                self.state == unif_sum_v(s0, i as nat).1,
                0 <= acc <= i * FX_SCALE,
            decreases 12 - i,
        {
            let u = self.next_unif();
            acc = acc + u.m;
            i = i + 1;
        }
        Fx { m: acc - 6 * FX_SCALE }
    }
}

} // verus!
