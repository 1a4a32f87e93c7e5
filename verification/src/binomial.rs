//! Binomial-lattice pricing with early exercise.
//!
//! The tree is recombining: an up factor `u = e^(sigma sqrt(dt))`, its
//! reciprocal as the down factor, the risk-neutral probability
//! `p = (e^((r - q) dt) - d) / (u - d)`, and backward induction that
//! discounts by `e^(-r dt)` at each level; an American-style contract
//! keeps the larger of the continuation value and the intrinsic value at
//! every node. A probability outside the unit interval is rejected as an
//! invalid domain, and a lattice step so small that `u` and `d` coincide
//! is rejected as a division by zero.

use vstd::prelude::*;

use crate::error::{GreeksError, MathErrorKind};
use crate::fixed::{
    fx_div_v, fx_in_range, fx_mul_v, lemma_convex_bound, lemma_div_v_nonneg, lemma_div_v_small,
    lemma_mul_v_ge_one, lemma_mul_v_mono_right, lemma_mul_v_nonneg, lemma_mul_v_small, Fx,
    FX_SCALE,
};
use crate::model::{
    expiry_days_v, expiry_ok, intrinsic_v, years_v, ExpirationDate, Options, OptionStyle,
    OptionType,
};
use crate::positive::Positive;
use crate::special::{exp_v, fx_sqrt_v, EXP_ARG_MAX};

verus! {

/// Largest number of lattice steps the fixed-point step width carries.
pub const MAX_BINOMIAL_STEPS: usize = 1_000_000;

/// `x` to the `j`-th power under fixed-point multiplication, truncating at
/// each step.
pub open spec fn fx_pow_v(x: int, j: nat) -> int
    decreases j,
{
    if j == 0 {
        FX_SCALE as int
    } else {
        fx_mul_v(fx_pow_v(x, (j - 1) as nat), x)
    }
}

/// Mantissa of the lattice step width: the year fraction over the step
/// count.
pub open spec fn bin_dt_v(t: int, steps: int) -> int {
    fx_div_v(t, steps * (FX_SCALE as int))
}

/// Mantissa of the up factor `e^(sigma sqrt(dt))`.
pub open spec fn bin_u_v(sig: int, dt: int) -> int {
    exp_v(fx_mul_v(sig, fx_sqrt_v(dt)))
}

/// Mantissa of the down factor, the truncated reciprocal of the up factor.
pub open spec fn bin_d_v(sig: int, dt: int) -> int {
    fx_div_v(FX_SCALE as int, bin_u_v(sig, dt))
}

/// Mantissa of the per-step growth factor `e^((r - q) dt)`.
pub open spec fn bin_growth_v(r: int, q: int, dt: int) -> int {
    exp_v(fx_mul_v(r - q, dt))
}

/// Mantissa of the risk-neutral probability
/// `(e^((r - q) dt) - d) / (u - d)`.
pub open spec fn bin_p_v(sig: int, r: int, q: int, dt: int) -> int {
    fx_div_v(bin_growth_v(r, q, dt) - bin_d_v(sig, dt), bin_u_v(sig, dt) - bin_d_v(sig, dt))
}

/// Mantissa of the per-step discount factor `e^(-r dt)`.
pub open spec fn bin_disc_v(r: int, dt: int) -> int {
    exp_v(-fx_mul_v(r, dt))
}

/// Mantissa of the spot price at the node with `j` up moves on `level`.
pub open spec fn bin_spot_v(s: int, u: int, d: int, level: nat, j: nat) -> int {
    fx_mul_v(fx_mul_v(s, fx_pow_v(u, j)), fx_pow_v(d, (level - j) as nat))
}

/// Mantissa of the option value at the node with `j` up moves on `level`:
/// the intrinsic value at the last level, and otherwise the discounted
/// expectation over the two children, floored by the intrinsic value for
/// an American-style contract.
pub open spec fn bin_node_v(style: OptionStyle, ot: OptionType, s: int, k: int, u: int, d: int,
    p: int, disc: int, n: nat, level: nat, j: nat) -> int
    decreases n - level,
{
    if level >= n {
        intrinsic_v(style, bin_spot_v(s, u, d, n, j), k)
    } else {
        let cont = fx_mul_v(disc, fx_mul_v(p, bin_node_v(style, ot, s, k, u, d, p, disc, n,
            (level + 1) as nat, (j + 1) as nat)) + fx_mul_v((FX_SCALE as int) - p, bin_node_v(
            style, ot, s, k, u, d, p, disc, n, (level + 1) as nat, j)));
        match ot {
            OptionType::American => {
                let iv = intrinsic_v(style, bin_spot_v(s, u, d, level, j), k);
                if iv > cont {
                    iv
                } else {
                    cont
                }
            },
            OptionType::European => cont,
        }
    }
}

/// The lattice parameters stay representable: the up exponent is
/// acceptable, the growth and discount exponents are acceptable, the
/// probability quotient is in range, and the largest spot in the tree is
/// representable.
pub open spec fn bin_setup_ok(s: int, sig: int, r: int, q: int, t: int, steps: int) -> bool {
    let dt = bin_dt_v(t, steps);
    let su = fx_mul_v(sig, fx_sqrt_v(dt));
    let u = bin_u_v(sig, dt);
    let rq = fx_mul_v(r - q, dt);
    let rdt = fx_mul_v(r, dt);
    &&& fx_in_range(su)
    &&& su <= EXP_ARG_MAX
    &&& fx_in_range(r - q)
    &&& fx_in_range(rq)
    &&& rq <= EXP_ARG_MAX
    &&& fx_in_range(rdt)
    &&& -rdt <= EXP_ARG_MAX
    &&& fx_in_range(bin_p_v(sig, r, q, dt))
    &&& fx_in_range(fx_pow_v(u, steps as nat))
    &&& fx_in_range(fx_mul_v(s, fx_pow_v(u, steps as nat)))
}

/// Powers of a factor of at least one grow with the exponent and stay
/// non-negative.
proof fn lemma_pow_mono(u: int, j1: nat, j2: nat)
    requires
        u >= FX_SCALE,
        j1 <= j2,
    ensures
        0 <= fx_pow_v(u, j1) <= fx_pow_v(u, j2),
    decreases j2,
{
    if j2 == 0 {
    } else if j1 == j2 {
        lemma_pow_mono(u, (j1 - 1) as nat, (j2 - 1) as nat);
        lemma_mul_v_ge_one(fx_pow_v(u, (j2 - 1) as nat), u);
    } else {
        lemma_pow_mono(u, j1, (j2 - 1) as nat);
        lemma_mul_v_ge_one(fx_pow_v(u, (j2 - 1) as nat), u);
    }
}

/// Powers of a non-negative factor of at most one shrink from one and stay
/// non-negative.
proof fn lemma_pow_le_one(d: int, j: nat)
    requires
        0 <= d <= FX_SCALE,
    ensures
        0 <= fx_pow_v(d, j) <= FX_SCALE,
    decreases j,
{
    if j > 0 {
        lemma_pow_le_one(d, (j - 1) as nat);
        lemma_mul_v_small(fx_pow_v(d, (j - 1) as nat), d);
        lemma_mul_v_nonneg(fx_pow_v(d, (j - 1) as nat), d);
    }
}

/// Price of one contract on a binomial lattice with `steps` levels, seen
/// from instant `now`. The price is per contract, like the closed form:
/// not scaled by the quantity and not signed by the side.
///
/// At zero time to expiration the price is the intrinsic value. A zero
/// step count, or one beyond `MAX_BINOMIAL_STEPS`, is an invalid domain.
/// Success is promised whenever the lattice parameters are representable,
/// the probability lies in the unit interval, the factors do not coincide,
/// and the rate is not negative; with a negative rate the per-step
/// discount exceeds one and a node value may leave the representable
/// range, which is reported as an overflow.
#[verifier::rlimit(100)]
#[verifier::loop_isolation(false)]
pub fn price_binomial_at(o: &Options, steps: usize, now: i64) -> (r: Result<Fx, GreeksError>)
    requires
        o.wf(),
    ensures
        ({
            let s = o.underlying_price.v();
            let k = o.strike_price.v();
            let t = years_v(expiry_days_v(o.expiration_date, now as int));
            let sig = o.implied_volatility.v();
            let rr = o.risk_free_rate.m as int;
            let q = o.dividend_yield.v();
            let dt = bin_dt_v(t, steps as int);
            let u = bin_u_v(sig, dt);
            let d = bin_d_v(sig, dt);
            let p = bin_p_v(sig, rr, q, dt);
            let disc = bin_disc_v(rr, dt);
            &&& (steps == 0 || steps > MAX_BINOMIAL_STEPS ==> (r matches Err(
                GreeksError::MathError(MathErrorKind::InvalidDomain { .. }))))
            &&& (0 < steps <= MAX_BINOMIAL_STEPS && expiry_ok(o.expiration_date, now as int)
                && t == 0 ==> (r matches Ok(v) && v.m == intrinsic_v(o.option_style, s, k)))
            &&& (t != 0 ==> (r matches Ok(v) ==> {
                &&& 0 < steps <= MAX_BINOMIAL_STEPS
                &&& expiry_ok(o.expiration_date, now as int)
                &&& bin_setup_ok(s, sig, rr, q, t, steps as int)
                &&& u != d
                &&& 0 <= p <= FX_SCALE
                &&& v.m == bin_node_v(o.option_style, o.option_type, s, k, u, d, p, disc,
                    steps as nat, 0, 0)
                &&& v.wf()
            }))
            &&& (0 < steps <= MAX_BINOMIAL_STEPS && expiry_ok(o.expiration_date, now as int)
                && t != 0 && bin_setup_ok(s, sig, rr, q, t, steps as int) && u == d ==> r
                == Err::<Fx, GreeksError>(GreeksError::MathError(MathErrorKind::DivisionByZero)))
            &&& (0 < steps <= MAX_BINOMIAL_STEPS && expiry_ok(o.expiration_date, now as int)
                && t != 0 && bin_setup_ok(s, sig, rr, q, t, steps as int) && u != d
                && !(0 <= p <= FX_SCALE) ==> (r matches Err(GreeksError::MathError(
                MathErrorKind::InvalidDomain { .. }))))
            &&& (0 < steps <= MAX_BINOMIAL_STEPS && expiry_ok(o.expiration_date, now as int)
                && t != 0 && bin_setup_ok(s, sig, rr, q, t, steps as int) && u != d
                && 0 <= p <= FX_SCALE && rr >= 0 ==> r is Ok)
        }),
        r matches Ok(v) ==> v.wf(),
        r matches Err(e) ==> e.wf(),
{
    let ghost sv: int = o.underlying_price.v();
    let ghost kv: int = o.strike_price.v();
    let ghost sigv: int = o.implied_volatility.v();
    let ghost rv: int = o.risk_free_rate.m as int;
    let ghost qv: int = o.dividend_yield.v();
    if steps == 0 || steps > MAX_BINOMIAL_STEPS {
        return Err(GreeksError::MathError(MathErrorKind::InvalidDomain {
            value: Fx { m: 0 },
            reason: String::from_str("Step count outside the supported range"),
        }));
    }
    let t = match o.time_years_at(now) {
        Ok(v) => v,
        Err(e) => {
            return Err(e);
        },
    };
    if t.fx.m == 0 {
        let iv = o.intrinsic(o.underlying_price);
        return Ok(iv.fx);
    }
    let ghost tv: int = t.v();
    // step width
    let steps_fx = Fx { m: (steps as i128) * FX_SCALE };
    proof {
        lemma_div_v_small(t.v(), steps as int * (FX_SCALE as int));
        lemma_div_v_nonneg(t.v(), steps as int * (FX_SCALE as int));
    }
    let dt = match t.fx.cdiv(steps_fx) {
        Some(v) => v,
        None => {
            proof {
                assert(false);
            }
            Fx { m: 0 }
        },
    };
    let ghost dtv: int = dt.m as int;
    // up and down factors
    let sqdt = dt.sqrt();
    let su = match o.implied_volatility.fx.cmul(sqdt) {
        Some(v) => v,
        None => {
            return Err(GreeksError::MathError(MathErrorKind::Overflow));
        },
    };
    proof {
        lemma_mul_v_nonneg(sigv, sqdt.m as int);
    }
    let u = match su.exp() {
        Some(v) => v,
        None => {
            return Err(GreeksError::MathError(MathErrorKind::Overflow));
        },
    };
    let d = match (Fx { m: FX_SCALE }).cdiv(u) {
        Some(v) => v,
        None => {
            proof {
                lemma_div_v_small(FX_SCALE as int, u.m as int);
                assert(false);
            }
            Fx { m: 0 }
        },
    };
    proof {
        lemma_div_v_small(FX_SCALE as int, u.m as int);
        lemma_div_v_nonneg(FX_SCALE as int, u.m as int);
    }
    // risk-neutral probability
    let rq = match o.risk_free_rate.csub(o.dividend_yield.fx) {
        Some(v) => v,
        None => {
            return Err(GreeksError::MathError(MathErrorKind::Overflow));
        },
    };
    let rqdt = match rq.cmul(dt) {
        Some(v) => v,
        None => {
            return Err(GreeksError::MathError(MathErrorKind::Overflow));
        },
    };
    let growth = match rqdt.exp() {
        Some(v) => v,
        None => {
            return Err(GreeksError::MathError(MathErrorKind::Overflow));
        },
    };
    if u.m == d.m {
        return Err(GreeksError::MathError(MathErrorKind::DivisionByZero));
    }
    let num = Fx { m: growth.m - d.m };
    let den = Fx { m: u.m - d.m };
    let p = match num.cdiv(den) {
        Some(v) => v,
        None => {
            return Err(GreeksError::MathError(MathErrorKind::Overflow));
        },
    };
    if p.m < 0 || p.m > FX_SCALE {
        return Err(GreeksError::MathError(MathErrorKind::InvalidDomain {
            value: p,
            reason: String::from_str("Risk-neutral probability outside the unit interval"),
        }));
    }
    let pp = Fx { m: FX_SCALE - p.m };
    // per-step discount
    let rdt = match o.risk_free_rate.cmul(dt) {
        Some(v) => v,
        None => {
            return Err(GreeksError::MathError(MathErrorKind::Overflow));
        },
    };
    let disc = match rdt.neg().exp() {
        Some(v) => v,
        None => {
            return Err(GreeksError::MathError(MathErrorKind::Overflow));
        },
    };
    proof {
        if o.risk_free_rate.m >= 0 {
            lemma_mul_v_nonneg(rv, dt.m as int);
        }
    }
    let n: usize = steps;
    // powers of the up and down factors
    let mut ups: Vec<Fx> = Vec::new();
    ups.push(Fx { m: FX_SCALE });
    let mut j: usize = 0;
    while j < n
        invariant
            0 <= j <= n,
            n <= MAX_BINOMIAL_STEPS,
            ups@.len() == j + 1,
            u.wf(),
            u.m >= FX_SCALE,
            forall|i: int| 0 <= i <= j ==> (#[trigger] ups@[i]).m == fx_pow_v(u.m as int,
                i as nat) && ups@[i].wf(),
        decreases n - j,
    {
        let last = ups[j];
        let nextp = match last.cmul(u) {
            Some(v) => v,
            None => {
                proof {
                    if fx_in_range(fx_pow_v(u.m as int, n as nat)) {
                        lemma_pow_mono(u.m as int, (j + 1) as nat, n as nat);
                        lemma_pow_mono(u.m as int, 0, (j + 1) as nat);
                    }
                }
                return Err(GreeksError::MathError(MathErrorKind::Overflow));
            },
        };
        ups.push(nextp);
        j = j + 1;
    }
    let ucap = ups[n];
    let smax = match o.underlying_price.fx.cmul(ucap) {
        Some(v) => v,
        None => {
            return Err(GreeksError::MathError(MathErrorKind::Overflow));
        },
    };
    proof {
        lemma_pow_mono(u.m as int, 0, n as nat);
        lemma_mul_v_nonneg(sv, ucap.m as int);
    }
    let mut dps: Vec<Fx> = Vec::new();
    dps.push(Fx { m: FX_SCALE });
    let mut i: usize = 0;
    while i < n
        invariant
            0 <= i <= n,
            dps@.len() == i + 1,
            d.wf(),
            0 <= d.m <= FX_SCALE,
            forall|ii: int| 0 <= ii <= i ==> (#[trigger] dps@[ii]).m == fx_pow_v(d.m as int,
                ii as nat) && 0 <= dps@[ii].m <= FX_SCALE,
        decreases n - i,
    {
        let last = dps[i];
        let nextp = match last.cmul(d) {
            Some(v) => v,
            None => {
                proof {
                    lemma_mul_v_small(last.m as int, d.m as int);
                    assert(false);
                }
                Fx { m: 0 }
            },
        };
        proof {
            lemma_mul_v_small(last.m as int, d.m as int);
            lemma_mul_v_nonneg(last.m as int, d.m as int);
        }
        dps.push(nextp);
        i = i + 1;
    }
    let ghost vmax: int = if smax.m >= o.strike_price.fx.m {
        smax.m as int
    } else {
        o.strike_price.v()
    };
    // terminal values
    let mut vals: Vec<Fx> = Vec::new();
    let mut j2: usize = 0;
    while j2 <= n
        invariant
            0 <= j2 <= n + 1,
            n <= MAX_BINOMIAL_STEPS,
            o.wf(),
            u.wf() && u.m >= FX_SCALE,
            0 <= d.m <= FX_SCALE,
            ups@.len() == n + 1,
            dps@.len() == n + 1,
            forall|ii: int| 0 <= ii <= n ==> (#[trigger] ups@[ii]).m == fx_pow_v(u.m as int,
                ii as nat) && ups@[ii].wf(),
            forall|ii: int| 0 <= ii <= n ==> (#[trigger] dps@[ii]).m == fx_pow_v(d.m as int,
                ii as nat) && 0 <= dps@[ii].m <= FX_SCALE,
            smax.m as int == fx_mul_v(sv, fx_pow_v(u.m as int, n as nat)),
            smax.m >= 0,
            sv == o.underlying_price.v(),
            kv == o.strike_price.v(),
            vmax == (if smax.m >= o.strike_price.fx.m {
                smax.m as int
            } else {
                o.strike_price.v()
            }),
            vals@.len() == j2,
            forall|jj: int| 0 <= jj < j2 ==> (#[trigger] vals@[jj]).m == bin_node_v(
                o.option_style, o.option_type, sv, kv, u.m as int, d.m as int, 0, 0, n as nat,
                n as nat, jj as nat) && 0 <= vals@[jj].m <= vmax,
        decreases n + 1 - j2,
    {
        proof {
            lemma_pow_mono(u.m as int, j2 as nat, n as nat);
            lemma_mul_v_mono_right(sv, fx_pow_v(u.m as int, j2 as nat), fx_pow_v(u.m as int,
                n as nat));
            lemma_mul_v_nonneg(sv, fx_pow_v(u.m as int, j2 as nat));
        }
        let su2 = match o.underlying_price.fx.cmul(ups[j2]) {
            Some(v) => v,
            None => {
                proof {
                    assert(false);
                }
                Fx { m: 0 }
            },
        };
        proof {
            lemma_mul_v_small(su2.m as int, dps@[n - j2].m as int);
            lemma_mul_v_nonneg(su2.m as int, dps@[n - j2].m as int);
        }
        let spot = match su2.cmul(dps[n - j2]) {
            Some(v) => v,
            None => {
                proof {
                    assert(false);
                }
                Fx { m: 0 }
            },
        };
        let iv = o.intrinsic(Positive { fx: spot });
        vals.push(iv.fx);
        j2 = j2 + 1;
    }
    // backward induction
    let mut level: usize = n;
    while level > 0
        invariant
            0 <= level <= n,
            n <= MAX_BINOMIAL_STEPS,
            o.wf(),
            u.wf() && u.m >= FX_SCALE,
            0 <= d.m <= FX_SCALE,
            p.wf() && 0 <= p.m <= FX_SCALE,
            pp.m == FX_SCALE - p.m,
            disc.wf() && disc.m >= 0,
            ups@.len() == n + 1,
            dps@.len() == n + 1,
            forall|ii: int| 0 <= ii <= n ==> (#[trigger] ups@[ii]).m == fx_pow_v(u.m as int,
                ii as nat) && ups@[ii].wf(),
            forall|ii: int| 0 <= ii <= n ==> (#[trigger] dps@[ii]).m == fx_pow_v(d.m as int,
                ii as nat) && 0 <= dps@[ii].m <= FX_SCALE,
            smax.m as int == fx_mul_v(sv, fx_pow_v(u.m as int, n as nat)),
            smax.m >= 0,
            sv == o.underlying_price.v(),
            kv == o.strike_price.v(),
            vmax == (if smax.m >= o.strike_price.fx.m {
                smax.m as int
            } else {
                o.strike_price.v()
            }),
            vals@.len() == n + 1,
            forall|jj: int| 0 <= jj <= level ==> (#[trigger] vals@[jj]).m == bin_node_v(
                o.option_style, o.option_type, sv, kv, u.m as int, d.m as int, p.m as int,
                disc.m as int, n as nat, level as nat, jj as nat) && vals@[jj].wf(),
            disc.m <= FX_SCALE ==> forall|jj: int| 0 <= jj <= level ==> 0 <= (#[trigger]
                vals@[jj]).m <= vmax,
        decreases level,
    {
        level = level - 1;
        let mut j3: usize = 0;
        while j3 <= level
            invariant
                0 <= j3 <= level + 1,
                level < n <= MAX_BINOMIAL_STEPS,
                o.wf(),
                u.wf() && u.m >= FX_SCALE,
                0 <= d.m <= FX_SCALE,
                p.wf() && 0 <= p.m <= FX_SCALE,
                pp.m == FX_SCALE - p.m,
                disc.wf() && disc.m >= 0,
                ups@.len() == n + 1,
                dps@.len() == n + 1,
                forall|ii: int| 0 <= ii <= n ==> (#[trigger] ups@[ii]).m == fx_pow_v(
                    u.m as int, ii as nat) && ups@[ii].wf(),
                forall|ii: int| 0 <= ii <= n ==> (#[trigger] dps@[ii]).m == fx_pow_v(
                    d.m as int, ii as nat) && 0 <= dps@[ii].m <= FX_SCALE,
                smax.m as int == fx_mul_v(sv, fx_pow_v(u.m as int, n as nat)),
                smax.m >= 0,
                sv == o.underlying_price.v(),
                kv == o.strike_price.v(),
                vmax == (if smax.m >= o.strike_price.fx.m {
                    smax.m as int
                } else {
                    o.strike_price.v()
                }),
                vals@.len() == n + 1,
                forall|jj: int| 0 <= jj < j3 ==> (#[trigger] vals@[jj]).m == bin_node_v(
                    o.option_style, o.option_type, sv, kv, u.m as int, d.m as int, p.m as int,
                    disc.m as int, n as nat, level as nat, jj as nat) && vals@[jj].wf(),
                forall|jj: int| j3 <= jj <= level + 1 ==> (#[trigger] vals@[jj]).m
                    == bin_node_v(o.option_style, o.option_type, sv, kv, u.m as int,
                    d.m as int, p.m as int, disc.m as int, n as nat, (level + 1) as nat,
                    jj as nat) && vals@[jj].wf(),
                disc.m <= FX_SCALE ==> forall|jj: int| 0 <= jj <= level + 1 ==> 0 <= (
                    #[trigger] vals@[jj]).m <= vmax,
            decreases level + 1 - j3,
        {
            let vup = vals[j3 + 1];
            let vdn = vals[j3];
            proof {
                if disc.m <= FX_SCALE {
                    lemma_convex_bound(p.m as int, pp.m as int, vup.m as int, vdn.m as int,
                        vmax);
                    lemma_mul_v_small(vup.m as int, p.m as int);
                    lemma_mul_v_small(vdn.m as int, pp.m as int);
                }
            }
            let t1 = match p.cmul(vup) {
                Some(v) => v,
                None => {
                    proof {
                        if disc.m <= FX_SCALE {
                            assert(false);
                        }
                    }
                    return Err(GreeksError::MathError(MathErrorKind::Overflow));
                },
            };
            let t2 = match pp.cmul(vdn) {
                Some(v) => v,
                None => {
                    proof {
                        if disc.m <= FX_SCALE {
                            assert(false);
                        }
                    }
                    return Err(GreeksError::MathError(MathErrorKind::Overflow));
                },
            };
            proof {
                crate::fixed::lemma_mul_v_abs(p.m as int, vup.m as int);
                crate::fixed::lemma_mul_v_abs(pp.m as int, vdn.m as int);
            }
            let sum = match t1.cadd(t2) {
                Some(v) => v,
                None => {
                    proof {
                        if disc.m <= FX_SCALE {
                            assert(0 <= t1.m + t2.m <= vmax);
                            assert(false);
                        }
                    }
                    return Err(GreeksError::MathError(MathErrorKind::Overflow));
                },
            };
            let cont = match disc.cmul(sum) {
                Some(v) => v,
                None => {
                    proof {
                        if disc.m <= FX_SCALE {
                            lemma_mul_v_small(sum.m as int, disc.m as int);
                            crate::fixed::lemma_mul_v_abs(disc.m as int, sum.m as int);
                            crate::fixed::lemma_mul_v_abs(sum.m as int, disc.m as int);
                            assert(false);
                        }
                    }
                    return Err(GreeksError::MathError(MathErrorKind::Overflow));
                },
            };
            proof {
                if disc.m <= FX_SCALE {
                    lemma_mul_v_small(sum.m as int, disc.m as int);
                    crate::fixed::lemma_mul_v_abs(disc.m as int, sum.m as int);
                    lemma_mul_v_nonneg(disc.m as int, sum.m as int);
                }
            }
            let newv = match o.option_type {
                OptionType::American => {
                    proof {
                        lemma_pow_mono(u.m as int, j3 as nat, n as nat);
                        lemma_mul_v_mono_right(sv, fx_pow_v(u.m as int, j3 as nat), fx_pow_v(
                            u.m as int, n as nat));
                        lemma_mul_v_nonneg(sv, fx_pow_v(u.m as int, j3 as nat));
                    }
                    let su3 = match o.underlying_price.fx.cmul(ups[j3]) {
                        Some(v) => v,
                        None => {
                            proof {
                                assert(false);
                            }
                            Fx { m: 0 }
                        },
                    };
                    proof {
                        lemma_mul_v_small(su3.m as int, dps@[level - j3].m as int);
                        lemma_mul_v_nonneg(su3.m as int, dps@[level - j3].m as int);
                    }
                    let spot = match su3.cmul(dps[level - j3]) {
                        Some(v) => v,
                        None => {
                            proof {
                                assert(false);
                            }
                            Fx { m: 0 }
                        },
                    };
                    let iv = o.intrinsic(Positive { fx: spot });
                    if iv.fx.m > cont.m {
                        iv.fx
                    } else {
                        cont
                    }
                },
                OptionType::European => cont,
            };
            vals.set(j3, newv);
            j3 = j3 + 1;
        }
    }
    let result = vals[0];
    Ok(result)
}

/// Price of one contract on a binomial lattice, resolving a timestamp
/// expiration against the clock. On a day-count expiration the clock
/// decides nothing and the result is the one `price_binomial_at` states,
/// whatever the instant.
pub fn price_binomial(o: &Options, steps: usize) -> (r: Result<Fx, GreeksError>)
    requires
        o.wf(),
    ensures
        ({
            let s = o.underlying_price.v();
            let k = o.strike_price.v();
            let sig = o.implied_volatility.v();
            let rr = o.risk_free_rate.m as int;
            let q = o.dividend_yield.v();
            o.expiration_date matches ExpirationDate::Days(dexp) ==> {
                let t = years_v(dexp.v());
                let dt = bin_dt_v(t, steps as int);
                let u = bin_u_v(sig, dt);
                let d = bin_d_v(sig, dt);
                let p = bin_p_v(sig, rr, q, dt);
                let disc = bin_disc_v(rr, dt);
                &&& (steps == 0 || steps > MAX_BINOMIAL_STEPS ==> (r matches Err(
                    GreeksError::MathError(MathErrorKind::InvalidDomain { .. }))))
                &&& (0 < steps <= MAX_BINOMIAL_STEPS && t == 0 ==> (r matches Ok(v) && v.m
                    == intrinsic_v(o.option_style, s, k)))
                &&& (t != 0 ==> (r matches Ok(v) ==> {
                    &&& 0 < steps <= MAX_BINOMIAL_STEPS
                    &&& bin_setup_ok(s, sig, rr, q, t, steps as int)
                    &&& u != d
                    &&& 0 <= p <= FX_SCALE
                    &&& v.m == bin_node_v(o.option_style, o.option_type, s, k, u, d, p, disc,
                        steps as nat, 0, 0)
                }))
                &&& (0 < steps <= MAX_BINOMIAL_STEPS && t != 0 && bin_setup_ok(s, sig, rr, q,
                    t, steps as int) && u == d ==> r == Err::<Fx, GreeksError>(
                    GreeksError::MathError(MathErrorKind::DivisionByZero)))
                &&& (0 < steps <= MAX_BINOMIAL_STEPS && t != 0 && bin_setup_ok(s, sig, rr, q,
                    t, steps as int) && u != d && !(0 <= p <= FX_SCALE) ==> (r matches Err(
                    GreeksError::MathError(MathErrorKind::InvalidDomain { .. }))))
                &&& (0 < steps <= MAX_BINOMIAL_STEPS && t != 0 && bin_setup_ok(s, sig, rr, q,
                    t, steps as int) && u != d && 0 <= p <= FX_SCALE && rr >= 0 ==> r is Ok)
            }
        }),
        r matches Ok(v) ==> v.wf(),
        r matches Err(e) ==> e.wf(),
{
    let now = crate::model::now_secs();
    price_binomial_at(o, steps, now)
}

} // verus!
