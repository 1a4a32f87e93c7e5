//! Implied volatility by Newton-Raphson with a halving fallback.
//!
//! Each step moves the volatility by the price error over the raw vega.
//! When a step would drive the volatility to zero or below, the solver
//! falls back to halving the current volatility, a simple bracketing move
//! that keeps the iterate positive. Vega below `VEGA_EPS` fails fast with
//! a zero-vega error rather than diverging; exhausting the iteration
//! budget fails with a convergence-failure error carrying the budget and
//! the tolerance asked for.

use vstd::prelude::*;

use crate::black_scholes::{
    bs_call_price_v, bs_core, bs_core_ok, bs_d1_v, bs_disc_q_v, bs_disc_r_v, bs_price_ok,
    bs_price_v, bs_put_price_v,
};
use crate::error::{GreeksError, InputErrorKind, MathErrorKind, VolatilityError};
use crate::fixed::{fx_abs, fx_in_range, fx_mul_v, Fx};
use crate::model::{expiry_days_v, expiry_ok, intrinsic_v, years_v, Options, OptionStyle};
use crate::positive::Positive;
use crate::special::{fx_sqrt_v, norm_pdf_v};

verus! {

/// Mantissa below which vega counts as zero (the value one millionth).
pub const VEGA_EPS: i128 = 1_000_000;

/// Mantissa of the starting volatility used when the option carries none.
pub const IV_START: i128 = 200_000_000_000;

/// Mantissa of the raw vega `s e^(-q t) n(d1) sqrt(t)`, the price
/// derivative in volatility that the Newton step divides by.
pub open spec fn bs_vega_raw_v(s: int, k: int, t: int, sig: int, r: int, q: int) -> int {
    fx_mul_v(fx_mul_v(fx_mul_v(s, bs_disc_q_v(q, t)), norm_pdf_v(bs_d1_v(s, k, t, sig, r, q))),
        fx_sqrt_v(t))
}

/// Price of one contract at the given volatility, by style: the general
/// closed form, as the solver evaluates it.
pub open spec fn iv_price_v(style: OptionStyle, s: int, k: int, t: int, sig: int, r: int,
    q: int) -> int {
    match style {
        OptionStyle::Call => bs_call_price_v(s, k, t, sig, r, q),
        OptionStyle::Put => bs_put_price_v(s, k, t, sig, r, q),
    }
}

/// The volatility the iteration starts from: the leg's own, or the default
/// where the leg carries none.
pub open spec fn iv_start_v(o: Options) -> int {
    if o.implied_volatility.v() < 1 {
        IV_START as int
    } else {
        o.implied_volatility.v()
    }
}

/// Both the price and the raw vega stay representable.
pub open spec fn price_and_vega_ok(s: int, k: int, t: int, sig: int, r: int, q: int) -> bool {
    &&& bs_core_ok(s, k, t, sig, r, q)
    &&& fx_in_range(fx_mul_v(k, bs_disc_r_v(r, t)))
    &&& fx_in_range(bs_vega_raw_v(s, k, t, sig, r, q))
}

/// Price of one contract and raw vega at the given volatility.
fn price_and_vega(style: OptionStyle, s: Positive, k: Positive, t: Positive, sig: Positive,
    r: Fx, q: Positive) -> (res: Result<(Fx, Fx), GreeksError>)
    requires
        s.wf(),
        k.wf(),
        t.wf(),
        sig.wf(),
        r.wf(),
        q.wf(),
        t.fx.m >= 1,
        sig.fx.m >= 1,
    ensures
        res is Ok <==> price_and_vega_ok(s.v(), k.v(), t.v(), sig.v(), r.m as int, q.v()),
        res matches Ok(pv) ==> {
            &&& pv.0.wf()
            &&& pv.1.wf()
            &&& pv.0.m == (match style {
                OptionStyle::Call => bs_call_price_v(s.v(), k.v(), t.v(), sig.v(), r.m as int,
                    q.v()),
                OptionStyle::Put => bs_put_price_v(s.v(), k.v(), t.v(), sig.v(), r.m as int,
                    q.v()),
            })
            &&& pv.1.m == bs_vega_raw_v(s.v(), k.v(), t.v(), sig.v(), r.m as int, q.v())
            &&& pv.1.m >= 0
        },
        res matches Err(e) ==> e.wf() && !(e matches GreeksError::MathError(
            MathErrorKind::ConvergenceFailure { .. })),
{
    let core = match bs_core(s, k, t, sig, r, q) {
        Ok(c) => c,
        Err(e) => {
            return Err(e);
        },
    };
    let se = match s.fx.cmul(core.eqt) {
        Some(v) => v,
        None => {
            proof {
                crate::fixed::lemma_mul_v_small(s.v(), core.eqt.m as int);
                assert(false);
            }
            Fx { m: 0 }
        },
    };
    let ke = match k.fx.cmul(core.ert) {
        Some(v) => v,
        None => {
            return Err(GreeksError::MathError(MathErrorKind::Overflow));
        },
    };
    let sepd = match se.cmul(core.pd1) {
        Some(v) => v,
        None => {
            proof {
                crate::fixed::lemma_mul_v_small(se.m as int, core.pd1.m as int);
                assert(false);
            }
            Fx { m: 0 }
        },
    };
    let vega = match sepd.cmul(core.sqt) {
        Some(v) => v,
        None => {
            return Err(GreeksError::MathError(MathErrorKind::Overflow));
        },
    };
    proof {
        crate::fixed::lemma_mul_v_nonneg(s.v(), core.eqt.m as int);
        crate::fixed::lemma_mul_v_nonneg(k.v(), core.ert.m as int);
        crate::fixed::lemma_mul_v_nonneg(se.m as int, core.pd1.m as int);
        crate::fixed::lemma_mul_v_nonneg(sepd.m as int, core.sqt.m as int);
        crate::fixed::lemma_mul_v_small(se.m as int, core.nd1.m as int);
        crate::fixed::lemma_mul_v_small(se.m as int, core.nmd1.m as int);
        crate::fixed::lemma_mul_v_small(ke.m as int, core.nd2.m as int);
        crate::fixed::lemma_mul_v_small(ke.m as int, core.nmd2.m as int);
        crate::fixed::lemma_mul_v_nonneg(se.m as int, core.nd1.m as int);
        crate::fixed::lemma_mul_v_nonneg(se.m as int, core.nmd1.m as int);
        crate::fixed::lemma_mul_v_nonneg(ke.m as int, core.nd2.m as int);
        crate::fixed::lemma_mul_v_nonneg(ke.m as int, core.nmd2.m as int);
    }
    let price = match style {
        OptionStyle::Call => {
            let a = se.cmul(core.nd1).unwrap();
            let b = ke.cmul(core.nd2).unwrap();
            Fx { m: a.m - b.m }
        },
        OptionStyle::Put => {
            let a = ke.cmul(core.nmd2).unwrap();
            let b = se.cmul(core.nmd1).unwrap();
            Fx { m: a.m - b.m }
        },
    };
    Ok((price, vega))
}

/// Recovers the volatility that reprices the leg at `market_price`, seen
/// from instant `now`, to within `tolerance`, in at most `max_iterations`
/// Newton-Raphson steps.
///
/// On success the returned volatility reproduces the market price: the
/// Black-Scholes price of the leg at the returned volatility differs from
/// `market_price` by less than `tolerance`. At zero time to expiration the
/// price does not respond to volatility at all, so unless the intrinsic
/// value already matches, the solver fails fast with a zero-vega error, as
/// it does when vega falls below `VEGA_EPS` during the iteration.
pub fn implied_volatility_at(o: &Options, market_price: Fx, tolerance: Fx, max_iterations: usize,
    now: i64) -> (r: Result<Positive, GreeksError>)
    requires
        o.wf(),
        market_price.wf(),
        tolerance.wf(),
    ensures
        ({
            let s = o.underlying_price.v();
            let k = o.strike_price.v();
            let t = years_v(expiry_days_v(o.expiration_date, now as int));
            let rr = o.risk_free_rate.m as int;
            let q = o.dividend_yield.v();
            let intr = intrinsic_v(o.option_style, s, k);
            let sig0 = iv_start_v(*o);
            let p0 = iv_price_v(o.option_style, s, k, t, sig0, rr, q);
            &&& (r matches Ok(sig) ==> {
                &&& sig.wf()
                &&& expiry_ok(o.expiration_date, now as int)
                &&& bs_price_ok(s, k, t, sig.v(), rr, q)
                &&& fx_abs(bs_price_v(o.option_style, s, k, t, sig.v(), rr, q)
                    - market_price.m) < tolerance.m
            })
            &&& (expiry_ok(o.expiration_date, now as int) && t == 0 && fx_in_range(intr
                - market_price.m) && fx_abs(intr - market_price.m) < tolerance.m ==> r is Ok)
            &&& (expiry_ok(o.expiration_date, now as int) && t == 0 && fx_in_range(intr
                - market_price.m) && fx_abs(intr - market_price.m) >= tolerance.m ==> (
                r matches Err(GreeksError::InputError(InputErrorKind::InvalidVolatility {
                    .. }))))
            &&& (expiry_ok(o.expiration_date, now as int) && t != 0 && max_iterations >= 1
                && price_and_vega_ok(s, k, t, sig0, rr, q) && fx_in_range(p0 - market_price.m)
                && fx_abs(p0 - market_price.m) < tolerance.m ==> r is Ok)
        }),
        r matches Err(e) ==> e.wf() && (e matches GreeksError::MathError(
            MathErrorKind::ConvergenceFailure { iterations, tolerance: tol }) ==> iterations
            == max_iterations && tol == tolerance),
{
    let ghost sv: int = o.underlying_price.v();
    let ghost kv: int = o.strike_price.v();
    let ghost rv: int = o.risk_free_rate.m as int;
    let ghost qv: int = o.dividend_yield.v();
    let t = match o.time_years_at(now) {
        Ok(v) => v,
        Err(e) => {
            return Err(e);
        },
    };
    if t.fx.m == 0 {
        // the price is the intrinsic value whatever the volatility
        let iv = o.intrinsic(o.underlying_price);
        let diff = match iv.fx.csub(market_price) {
            Some(v) => v,
            None => {
                return Err(GreeksError::MathError(MathErrorKind::Overflow));
            },
        };
        let da = diff.abs();
        if da.m < tolerance.m {
            let sig0 = o.implied_volatility;
            return Ok(sig0);
        }
        return Err(GreeksError::from_volatility(VolatilityError::ZeroVega));
    }
    let mut sig: Positive = if o.implied_volatility.fx.m < 1 {
        Positive { fx: Fx { m: IV_START } }
    } else {
        o.implied_volatility
    };
    let ghost sig0v: int = iv_start_v(*o);
    let ghost p0v: int = iv_price_v(o.option_style, sv, kv, t.v(), sig0v, rv, qv);
    let ghost fast: bool = price_and_vega_ok(sv, kv, t.v(), sig0v, rv, qv) && fx_in_range(p0v
        - market_price.m) && fx_abs(p0v - market_price.m) < tolerance.m;
    proof {
        assert(sig.v() == sig0v);
    }
    let mut iter: usize = 0;
    while iter < max_iterations
        invariant
            sig0v == iv_start_v(*o),
            p0v == iv_price_v(o.option_style, sv, kv, t.v(), sig0v, rv, qv),
            fast == (price_and_vega_ok(sv, kv, t.v(), sig0v, rv, qv) && fx_in_range(p0v
                - market_price.m) && fx_abs(p0v - market_price.m) < tolerance.m),
            iter == 0 ==> sig.v() == sig0v,
            iter > 0 ==> !fast,
            sig.wf(),
            sig.fx.m >= 1,
            t.wf(),
            t.fx.m >= 1,
            o.wf(),
            market_price.wf(),
            tolerance.wf(),
            t.v() == years_v(expiry_days_v(o.expiration_date, now as int)),
            expiry_ok(o.expiration_date, now as int),
            sv == o.underlying_price.v(),
            kv == o.strike_price.v(),
            rv == o.risk_free_rate.m as int,
            qv == o.dividend_yield.v(),
        decreases max_iterations - iter,
    {
        let pv = match price_and_vega(o.option_style, o.underlying_price, o.strike_price, t,
            sig, o.risk_free_rate, o.dividend_yield) {
            Ok(v) => v,
            Err(e) => {
                proof {
                    // the fast path cannot reach here: its conditions make
                    // this call succeed
                    assert(!fast);
                }
                return Err(e);
            },
        };
        let price = pv.0;
        let vega = pv.1;
        let diff = match price.csub(market_price) {
            Some(v) => v,
            None => {
                proof {
                    assert(!fast);
                }
                return Err(GreeksError::MathError(MathErrorKind::Overflow));
            },
        };
        let da = diff.abs();
        if da.m < tolerance.m {
            return Ok(sig);
        }
        proof {
            // past the tolerance check, the starting point did not already
            // reprice the market, so the fast path is settled for good
            if iter == 0 {
                assert(!fast);
            }
        }
        if vega.m < VEGA_EPS {
            return Err(GreeksError::from_volatility(VolatilityError::ZeroVega));
        }
        let step = match diff.cdiv(vega) {
            Some(v) => v,
            None => {
                return Err(GreeksError::MathError(MathErrorKind::Overflow));
            },
        };
        let next = match sig.fx.csub(step) {
            Some(v) => v,
            None => {
                return Err(GreeksError::MathError(MathErrorKind::Overflow));
            },
        };
        if next.m < 1 {
            // the step left the domain: halve instead, keeping a bracket
            sig = Positive { fx: Fx { m: ((sig.fx.m as u128) / 2) as i128 } };
            if sig.fx.m < 1 {
                return Err(GreeksError::from_volatility(VolatilityError::ZeroVega));
            }
        } else {
            sig = Positive { fx: next };
        }
        iter = iter + 1;
    }
    Err(GreeksError::MathError(MathErrorKind::ConvergenceFailure {
        iterations: max_iterations,
        tolerance,
    }))
}

/// Recovers the implied volatility, resolving a timestamp expiration
/// against the clock. On a day-count expiration the clock decides nothing
/// and the result is the one `implied_volatility_at` states, whatever the
/// instant.
pub fn implied_volatility(o: &Options, market_price: Fx, tolerance: Fx, max_iterations: usize)
    -> (r: Result<Positive, GreeksError>)
    requires
        o.wf(),
        market_price.wf(),
        tolerance.wf(),
    ensures
        ({
            let s = o.underlying_price.v();
            let k = o.strike_price.v();
            let rr = o.risk_free_rate.m as int;
            let q = o.dividend_yield.v();
            let intr = intrinsic_v(o.option_style, s, k);
            let sig0 = iv_start_v(*o);
            o.expiration_date matches crate::model::ExpirationDate::Days(dexp) ==> {
                let t = years_v(dexp.v());
                let p0 = iv_price_v(o.option_style, s, k, t, sig0, rr, q);
                &&& (r matches Ok(sig) ==> {
                    &&& bs_price_ok(s, k, t, sig.v(), rr, q)
                    &&& fx_abs(bs_price_v(o.option_style, s, k, t, sig.v(), rr, q)
                        - market_price.m) < tolerance.m
                })
                &&& (t == 0 && fx_in_range(intr - market_price.m) && fx_abs(intr
                    - market_price.m) < tolerance.m ==> r is Ok)
                &&& (t == 0 && fx_in_range(intr - market_price.m) && fx_abs(intr
                    - market_price.m) >= tolerance.m ==> (r matches Err(
                    GreeksError::InputError(InputErrorKind::InvalidVolatility { .. }))))
                &&& (t != 0 && max_iterations >= 1 && price_and_vega_ok(s, k, t, sig0, rr, q)
                    && fx_in_range(p0 - market_price.m) && fx_abs(p0 - market_price.m)
                    < tolerance.m ==> r is Ok)
            }
        }),
        r matches Ok(sig) ==> sig.wf(),
        r matches Err(e) ==> e.wf() && (e matches GreeksError::MathError(
            MathErrorKind::ConvergenceFailure { iterations, tolerance: tol }) ==> iterations
            == max_iterations && tol == tolerance),
{
    let now = crate::model::now_secs();
    implied_volatility_at(o, market_price, tolerance, max_iterations, now)
}

} // verus!
