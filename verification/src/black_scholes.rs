//! Closed-form Black-Scholes pricing and Greeks for European options.
//!
//! The moneyness terms `d1` and `d2`, the discount factors, and the normal
//! distribution values are computed once in a shared core whose contract
//! gives the exact fixed-point value of each quantity; prices and Greeks
//! are stated on top of those.
//!
//! Edge cases follow the contract model's conventions: at zero time to
//! expiration the price collapses to the intrinsic value and every Greek
//! but delta is zero; at zero volatility with positive time the price is
//! the discounted intrinsic forward value, computed before the general
//! formula so the division by sigma times the square root of time is never
//! reached with a zero volatility. A positive volatility so small that the
//! product still rounds to zero is reported as a division by zero.

use vstd::prelude::*;

use crate::error::{GreeksError, MathErrorKind};
use crate::fixed::{
    fx_abs, fx_div_v, fx_in_range, fx_mul_v, lemma_mul_v_small, tz_div, Fx, FX_LIM, FX_SCALE,
};
use crate::model::{intrinsic_v, side_sign, ExpirationDate, Options, OptionStyle, Side};
use crate::positive::Positive;
use crate::special::{
    exp_pos_v, exp_v, fx_sqrt_v, is_isqrt, ln_v, norm_cdf_ok, norm_cdf_v, norm_pdf_v,
    EXP_ARG_MAX,
};

verus! {

/// Mantissa of the year fraction for a day count: days over 365.
pub open spec fn bs_years_v(days: int) -> int {
    fx_div_v(days, 365 * (FX_SCALE as int))
}

/// Mantissa of `sigma sqrt(t)`.
pub open spec fn bs_sigsqt_v(sig: int, t: int) -> int {
    fx_mul_v(sig, fx_sqrt_v(t))
}

/// Mantissa of the `d1` moneyness term:
/// `(ln(s / k) + (r - q + sigma^2 / 2) t) / (sigma sqrt(t))`.
pub open spec fn bs_d1_v(s: int, k: int, t: int, sig: int, r: int, q: int) -> int {
    let ratio = fx_div_v(s, k);
    let sig2h = tz_div(fx_mul_v(sig, sig), 2);
    let drift = r - q + sig2h;
    let num = ln_v(ratio) + fx_mul_v(drift, t);
    fx_div_v(num, bs_sigsqt_v(sig, t))
}

/// Mantissa of the `d2` term: `d1 - sigma sqrt(t)`.
pub open spec fn bs_d2_v(s: int, k: int, t: int, sig: int, r: int, q: int) -> int {
    bs_d1_v(s, k, t, sig, r, q) - bs_sigsqt_v(sig, t)
}

/// Mantissa of the dividend discount factor `exp(-q t)`.
pub open spec fn bs_disc_q_v(q: int, t: int) -> int {
    exp_v(-fx_mul_v(q, t))
}

/// Mantissa of the rate discount factor `exp(-r t)`.
pub open spec fn bs_disc_r_v(r: int, t: int) -> int {
    exp_v(-fx_mul_v(r, t))
}

/// Every intermediate of the shared core stays representable: the
/// log-moneyness ratio exists and is positive, `sigma sqrt(t)` is not
/// zero, the drift terms stay in range, the rate discount exponent is
/// acceptable, and the distribution series stay within their term cap.
pub open spec fn bs_core_ok(s: int, k: int, t: int, sig: int, r: int, q: int) -> bool {
    let ratio = fx_div_v(s, k);
    let sig2 = fx_mul_v(sig, sig);
    let sig2h = tz_div(sig2, 2);
    let drift = r - q + sig2h;
    let driftt = fx_mul_v(drift, t);
    let num = ln_v(ratio) + driftt;
    let sigsqt = bs_sigsqt_v(sig, t);
    let d1 = fx_div_v(num, sigsqt);
    let d2 = d1 - sigsqt;
    let qt = fx_mul_v(q, t);
    let rt = fx_mul_v(r, t);
    &&& k != 0
    &&& fx_in_range(ratio)
    &&& ratio >= 1
    &&& fx_in_range(sig2)
    &&& fx_in_range(r - q)
    &&& fx_in_range(drift)
    &&& fx_in_range(driftt)
    &&& fx_in_range(num)
    &&& sigsqt != 0
    &&& fx_in_range(sigsqt)
    &&& fx_in_range(d1)
    &&& fx_in_range(d2)
    &&& fx_in_range(qt)
    &&& fx_in_range(rt)
    &&& -rt <= EXP_ARG_MAX
    &&& norm_cdf_ok(d1)
    &&& norm_cdf_ok(d2)
    &&& norm_cdf_ok(-d1)
    &&& norm_cdf_ok(-d2)
}

/// The shared quantities of the Black-Scholes formulas, with their exact
/// values given by the specification functions above.
pub(crate) struct BsCore {
    /// Year fraction.
    pub t: Positive,
    /// Square root of the year fraction.
    pub sqt: Fx,
    /// Sigma times the square root of time.
    pub sigsqt: Fx,
    /// The `d1` moneyness term.
    pub d1: Fx,
    /// The `d2` term.
    pub d2: Fx,
    /// Dividend discount factor.
    pub eqt: Fx,
    /// Rate discount factor.
    pub ert: Fx,
    /// `N(d1)`.
    pub nd1: Fx,
    /// `N(d2)`.
    pub nd2: Fx,
    /// `N(-d1)`.
    pub nmd1: Fx,
    /// `N(-d2)`.
    pub nmd2: Fx,
    /// Normal density at `d1`.
    pub pd1: Fx,
}

/// Computes the shared core of the Black-Scholes formulas.
///
/// Fails with an invalid-domain error when the strike is zero or the
/// log-moneyness ratio rounds to zero or below; with a division by zero
/// when `sigma sqrt(t)` rounds to zero; and with an overflow when any
/// other intermediate leaves the representable range.
pub(crate) fn bs_core(s: Positive, k: Positive, t: Positive, sig: Positive, r: Fx, q: Positive)
    -> (res: Result<BsCore, GreeksError>)
    requires
        s.wf(),
        k.wf(),
        t.wf(),
        sig.wf(),
        r.wf(),
        q.wf(),
        t.fx.m >= 1,
        sig.fx.m >= 1,
    ensures
        res is Ok <==> bs_core_ok(s.v(), k.v(), t.v(), sig.v(), r.m as int, q.v()),
        res matches Ok(c) ==> {
            &&& c.t == t
            &&& c.sqt.m == fx_sqrt_v(t.v())
            &&& c.sigsqt.m == bs_sigsqt_v(sig.v(), t.v())
            &&& c.d1.m == bs_d1_v(s.v(), k.v(), t.v(), sig.v(), r.m as int, q.v())
            &&& c.d2.m == bs_d2_v(s.v(), k.v(), t.v(), sig.v(), r.m as int, q.v())
            &&& c.eqt.m == bs_disc_q_v(q.v(), t.v())
            &&& c.ert.m == bs_disc_r_v(r.m as int, t.v())
            &&& c.nd1.m == norm_cdf_v(c.d1.m as int)
            &&& c.nd2.m == norm_cdf_v(c.d2.m as int)
            &&& c.nmd1.m == norm_cdf_v(-c.d1.m as int)
            &&& c.nmd2.m == norm_cdf_v(-c.d2.m as int)
            &&& c.pd1.m == norm_pdf_v(c.d1.m as int)
            &&& c.sqt.wf() && c.sigsqt.wf() && c.d1.wf() && c.d2.wf()
            &&& 0 <= c.eqt.m <= FX_SCALE
            &&& 0 <= c.ert.m && c.ert.wf()
            &&& 0 <= c.nd1.m <= FX_SCALE && 0 <= c.nd2.m <= FX_SCALE
            &&& 0 <= c.nmd1.m <= FX_SCALE && 0 <= c.nmd2.m <= FX_SCALE
            &&& 0 <= c.pd1.m <= FX_SCALE
            &&& 1_000_000 <= c.sqt.m <= 3_170_000_000_000_000
            &&& c.sigsqt.m > 0
        },
        res matches Err(e) ==> e.wf() && !(e matches GreeksError::MathError(
            MathErrorKind::ConvergenceFailure { .. })),
        k.fx.m == 0 ==> (res matches Err(GreeksError::MathError(
            MathErrorKind::InvalidDomain { .. }))),
    {
    let ghost sv: int = s.v();
    let ghost kv: int = k.v();
    let ghost tv: int = t.v();
    let ghost sigv: int = sig.v();
    let ghost rv: int = r.m as int;
    let ghost qv: int = q.v();
    // log-moneyness
    let ratio = match s.fx.cdiv(k.fx) {
        Some(v) => v,
        None => {
            if k.fx.m == 0 {
                return Err(GreeksError::MathError(MathErrorKind::InvalidDomain {
                    value: k.fx,
                    reason: String::from_str("Strike must be positive"),
                }));
            }
            return Err(GreeksError::MathError(MathErrorKind::Overflow));
        },
    };
    if ratio.m < 1 {
        return Err(GreeksError::MathError(MathErrorKind::InvalidDomain {
            value: ratio,
            reason: String::from_str("Log of a non-positive moneyness ratio"),
        }));
    }
    let lnratio = ratio.ln();
    // square root of time and sigma sqrt(t)
    let sqt = t.fx.sqrt();
    proof {
        // t >= 1 makes the integer root at least a million
        assert(sqt.m >= 1_000_000) by (nonlinear_arith)
            requires
                is_isqrt(t.fx.m * FX_SCALE, sqt.m as int),
                t.fx.m >= 1,
        ;
    }
    let sigsqt = match sig.fx.cmul(sqt) {
        Some(v) => v,
        None => {
            return Err(GreeksError::MathError(MathErrorKind::Overflow));
        },
    };
    // drift term (r - q + sigma^2 / 2)
    let sig2 = match sig.fx.cmul(sig.fx) {
        Some(v) => v,
        None => {
            return Err(GreeksError::MathError(MathErrorKind::Overflow));
        },
    };
    let sig2h = Fx { m: sig2.m / 2 };
    proof {
        assert(sig2.m >= 0);
        assert(sig2h.m as int == tz_div(sig2.m as int, 2));
    }
    let drift = match r.csub(q.fx) {
        Some(v) => match v.cadd(sig2h) {
            Some(w) => w,
            None => {
                return Err(GreeksError::MathError(MathErrorKind::Overflow));
            },
        },
        None => {
            return Err(GreeksError::MathError(MathErrorKind::Overflow));
        },
    };
    let driftt = match drift.cmul(t.fx) {
        Some(v) => v,
        None => {
            return Err(GreeksError::MathError(MathErrorKind::Overflow));
        },
    };
    let num = match lnratio.cadd(driftt) {
        Some(v) => v,
        None => {
            return Err(GreeksError::MathError(MathErrorKind::Overflow));
        },
    };
    if sigsqt.m == 0 {
        return Err(GreeksError::MathError(MathErrorKind::DivisionByZero));
    }
    let d1 = match num.cdiv(sigsqt) {
        Some(v) => v,
        None => {
            return Err(GreeksError::MathError(MathErrorKind::Overflow));
        },
    };
    let d2 = match d1.csub(sigsqt) {
        Some(v) => v,
        None => {
            return Err(GreeksError::MathError(MathErrorKind::Overflow));
        },
    };
    // discount factors
    let qt = match q.fx.cmul(t.fx) {
        Some(v) => v,
        None => {
            return Err(GreeksError::MathError(MathErrorKind::Overflow));
        },
    };
    proof {
        crate::fixed::lemma_mul_v_nonneg(qv, tv);
    }
    let eqt = match qt.neg().exp() {
        Some(v) => v,
        None => {
            proof {
                assert(false);
            }
            Fx { m: 0 }
        },
    };
    let rt = match r.cmul(t.fx) {
        Some(v) => v,
        None => {
            return Err(GreeksError::MathError(MathErrorKind::Overflow));
        },
    };
    let ert = match rt.neg().exp() {
        Some(v) => v,
        None => {
            return Err(GreeksError::MathError(MathErrorKind::Overflow));
        },
    };
    // distribution values
    let nd1 = match d1.norm_cdf() {
        Some(v) => v,
        None => {
            return Err(GreeksError::MathError(MathErrorKind::Overflow));
        },
    };
    let nd2 = match d2.norm_cdf() {
        Some(v) => v,
        None => {
            return Err(GreeksError::MathError(MathErrorKind::Overflow));
        },
    };
    let nmd1 = match d1.neg().norm_cdf() {
        Some(v) => v,
        None => {
            return Err(GreeksError::MathError(MathErrorKind::Overflow));
        },
    };
    let nmd2 = match d2.neg().norm_cdf() {
        Some(v) => v,
        None => {
            return Err(GreeksError::MathError(MathErrorKind::Overflow));
        },
    };
    let pd1 = d1.norm_pdf();
    Ok(BsCore { t, sqt, sigsqt, d1, d2, eqt, ert, nd1, nd2, nmd1, nmd2, pd1 })
}


/// The zero-volatility shortcut stays representable: both discount
/// exponents are in range, the rate exponent is acceptable, and the
/// discounted strike is representable.
pub open spec fn bs_zero_vol_ok(s: int, k: int, t: int, r: int, q: int) -> bool {
    let qt = fx_mul_v(q, t);
    let rt = fx_mul_v(r, t);
    &&& fx_in_range(qt)
    &&& fx_in_range(rt)
    &&& -rt <= EXP_ARG_MAX
    &&& fx_in_range(fx_mul_v(k, exp_v(-rt)))
}

/// Mantissa of the zero-volatility price: the discounted intrinsic forward
/// value `max(s e^(-q t) - k e^(-r t), 0)` for a call and its mirror for a
/// put.
pub open spec fn bs_zero_vol_price_v(style: OptionStyle, s: int, k: int, t: int, r: int, q: int)
    -> int {
    let se = fx_mul_v(s, bs_disc_q_v(q, t));
    let ke = fx_mul_v(k, bs_disc_r_v(r, t));
    match style {
        OptionStyle::Call => if se >= ke {
            se - ke
        } else {
            0
        },
        OptionStyle::Put => if ke >= se {
            ke - se
        } else {
            0
        },
    }
}

/// Mantissa of the Black-Scholes call price
/// `s e^(-q t) N(d1) - k e^(-r t) N(d2)`.
pub open spec fn bs_call_price_v(s: int, k: int, t: int, sig: int, r: int, q: int) -> int {
    fx_mul_v(fx_mul_v(s, bs_disc_q_v(q, t)), norm_cdf_v(bs_d1_v(s, k, t, sig, r, q)))
        - fx_mul_v(fx_mul_v(k, bs_disc_r_v(r, t)), norm_cdf_v(bs_d2_v(s, k, t, sig, r, q)))
}

/// Mantissa of the Black-Scholes put price
/// `k e^(-r t) N(-d2) - s e^(-q t) N(-d1)`.
pub open spec fn bs_put_price_v(s: int, k: int, t: int, sig: int, r: int, q: int) -> int {
    fx_mul_v(fx_mul_v(k, bs_disc_r_v(r, t)), norm_cdf_v(-bs_d2_v(s, k, t, sig, r, q)))
        - fx_mul_v(fx_mul_v(s, bs_disc_q_v(q, t)), norm_cdf_v(-bs_d1_v(s, k, t, sig, r, q)))
}

/// The price computation succeeds: immediately at zero time, under
/// `bs_zero_vol_ok` at zero volatility, and otherwise under the core
/// conditions with a representable discounted strike.
pub open spec fn bs_price_ok(s: int, k: int, t: int, sig: int, r: int, q: int) -> bool {
    if t == 0 {
        true
    } else if sig == 0 {
        bs_zero_vol_ok(s, k, t, r, q)
    } else {
        bs_core_ok(s, k, t, sig, r, q) && fx_in_range(fx_mul_v(k, bs_disc_r_v(r, t)))
    }
}

/// Mantissa of the price of one contract: the intrinsic value at zero time
/// to expiration, the discounted intrinsic forward value at zero
/// volatility, and the closed form otherwise.
pub open spec fn bs_price_v(style: OptionStyle, s: int, k: int, t: int, sig: int, r: int, q: int)
    -> int {
    if t == 0 {
        intrinsic_v(style, s, k)
    } else if sig == 0 {
        bs_zero_vol_price_v(style, s, k, t, r, q)
    } else {
        match style {
            OptionStyle::Call => bs_call_price_v(s, k, t, sig, r, q),
            OptionStyle::Put => bs_put_price_v(s, k, t, sig, r, q),
        }
    }
}

/// Black-Scholes price of one contract of the leg, seen from instant
/// `now`. The price is per contract: it is not scaled by the quantity and
/// not signed by the side.
///
/// At zero time to expiration the price equals the intrinsic value.
pub fn price_black_scholes_at(o: &Options, now: i64) -> (r: Result<Fx, GreeksError>)
    requires
        o.wf(),
    ensures
        ({
            let s = o.underlying_price.v();
            let k = o.strike_price.v();
            let t = crate::model::years_v(crate::model::expiry_days_v(o.expiration_date,
                now as int));
            let sig = o.implied_volatility.v();
            let rr = o.risk_free_rate.m as int;
            let q = o.dividend_yield.v();
            &&& (r is Ok <==> crate::model::expiry_ok(o.expiration_date, now as int)
                && bs_price_ok(s, k, t, sig, rr, q))
            &&& (r matches Ok(v) ==> v.wf() && v.m == bs_price_v(o.option_style, s, k, t, sig,
                rr, q))
            &&& (crate::model::expiry_ok(o.expiration_date, now as int) && t == 0 ==> (
                r matches Ok(v) && v.m == intrinsic_v(o.option_style, s, k)))
        }),
        r matches Err(e) ==> e.wf(),
{
    let t = match o.time_years_at(now) {
        Ok(v) => v,
        Err(e) => {
            return Err(e);
        },
    };
    if t.fx.m == 0 {
        let iv = o.intrinsic(o.underlying_price);
        return Ok(iv.fx);
    }
    if o.implied_volatility.fx.m == 0 {
        let qt = match o.dividend_yield.cmul(t) {
            Some(v) => v,
            None => {
                return Err(GreeksError::MathError(MathErrorKind::Overflow));
            },
        };
        let eqt = match qt.fx.neg().exp() {
            Some(v) => v,
            None => {
                proof {
                    assert(false);
                }
                Fx { m: 0 }
            },
        };
        let rt = match o.risk_free_rate.cmul(t.fx) {
            Some(v) => v,
            None => {
                return Err(GreeksError::MathError(MathErrorKind::Overflow));
            },
        };
        let ert = match rt.neg().exp() {
            Some(v) => v,
            None => {
                return Err(GreeksError::MathError(MathErrorKind::Overflow));
            },
        };
        let se = match o.underlying_price.fx.cmul(eqt) {
            Some(v) => v,
            None => {
                proof {
                    lemma_mul_v_small(o.underlying_price.v(), eqt.m as int);
                    assert(false);
                }
                Fx { m: 0 }
            },
        };
        let ke = match o.strike_price.fx.cmul(ert) {
            Some(v) => v,
            None => {
                return Err(GreeksError::MathError(MathErrorKind::Overflow));
            },
        };
        proof {
            crate::fixed::lemma_mul_v_nonneg(o.underlying_price.v(), eqt.m as int);
            crate::fixed::lemma_mul_v_nonneg(o.strike_price.v(), ert.m as int);
        }
        return match o.option_style {
            OptionStyle::Call => {
                if se.m >= ke.m {
                    Ok(Fx { m: se.m - ke.m })
                } else {
                    Ok(Fx { m: 0 })
                }
            },
            OptionStyle::Put => {
                if ke.m >= se.m {
                    Ok(Fx { m: ke.m - se.m })
                } else {
                    Ok(Fx { m: 0 })
                }
            },
        };
    }
    let core = match bs_core(o.underlying_price, o.strike_price, t, o.implied_volatility,
        o.risk_free_rate, o.dividend_yield) {
        Ok(c) => c,
        Err(e) => {
            return Err(e);
        },
    };
    let se = match o.underlying_price.fx.cmul(core.eqt) {
        Some(v) => v,
        None => {
            proof {
                lemma_mul_v_small(o.underlying_price.v(), core.eqt.m as int);
                assert(false);
            }
            Fx { m: 0 }
        },
    };
    let ke = match o.strike_price.fx.cmul(core.ert) {
        Some(v) => v,
        None => {
            return Err(GreeksError::MathError(MathErrorKind::Overflow));
        },
    };
    proof {
        crate::fixed::lemma_mul_v_nonneg(o.underlying_price.v(), core.eqt.m as int);
        crate::fixed::lemma_mul_v_nonneg(o.strike_price.v(), core.ert.m as int);
        lemma_mul_v_small(se.m as int, core.nd1.m as int);
        lemma_mul_v_small(se.m as int, core.nmd1.m as int);
        lemma_mul_v_small(ke.m as int, core.nd2.m as int);
        lemma_mul_v_small(ke.m as int, core.nmd2.m as int);
        crate::fixed::lemma_mul_v_nonneg(se.m as int, core.nd1.m as int);
        crate::fixed::lemma_mul_v_nonneg(se.m as int, core.nmd1.m as int);
        crate::fixed::lemma_mul_v_nonneg(ke.m as int, core.nd2.m as int);
        crate::fixed::lemma_mul_v_nonneg(ke.m as int, core.nmd2.m as int);
    }
    match o.option_style {
        OptionStyle::Call => {
            let a = se.cmul(core.nd1).unwrap();
            let b = ke.cmul(core.nd2).unwrap();
            Ok(Fx { m: a.m - b.m })
        },
        OptionStyle::Put => {
            let a = ke.cmul(core.nmd2).unwrap();
            let b = se.cmul(core.nmd1).unwrap();
            Ok(Fx { m: a.m - b.m })
        },
    }
}

/// Black-Scholes price of one contract of the leg, resolving a timestamp
/// expiration against the clock. For a day-count expiration the result is
/// exactly that of `price_black_scholes_at`, whatever the instant.
pub fn price_black_scholes(o: &Options) -> (r: Result<Fx, GreeksError>)
    requires
        o.wf(),
    ensures
        ({
            let s = o.underlying_price.v();
            let k = o.strike_price.v();
            let sig = o.implied_volatility.v();
            let rr = o.risk_free_rate.m as int;
            let q = o.dividend_yield.v();
            o.expiration_date matches ExpirationDate::Days(d) ==> {
                let t = crate::model::years_v(d.v());
                &&& (r is Ok <==> bs_price_ok(s, k, t, sig, rr, q))
                &&& (r matches Ok(v) ==> v.wf() && v.m == bs_price_v(o.option_style, s, k, t,
                    sig, rr, q))
            }
        }),
        r matches Ok(v) ==> v.wf(),
        r matches Err(e) ==> e.wf(),
{
    let now = crate::model::now_secs();
    price_black_scholes_at(o, now)
}

/// Delta of one contract at zero time to expiration: the step function,
/// one past the strike for a call and minus one below it for a put, zero
/// at the strike itself.
pub open spec fn bs_zero_t_delta_unit_v(style: OptionStyle, s: int, k: int) -> int {
    match style {
        OptionStyle::Call => if s > k {
            FX_SCALE as int
        } else {
            0
        },
        OptionStyle::Put => if s < k {
            -(FX_SCALE as int)
        } else {
            0
        },
    }
}

/// Mantissa of the delta of one contract: `e^(-q t) N(d1)` for a call and
/// `-e^(-q t) N(-d1)` for a put.
pub open spec fn bs_delta_unit_v(style: OptionStyle, s: int, k: int, t: int, sig: int, r: int,
    q: int) -> int {
    match style {
        OptionStyle::Call => fx_mul_v(bs_disc_q_v(q, t), norm_cdf_v(bs_d1_v(s, k, t, sig, r, q))),
        OptionStyle::Put => -fx_mul_v(bs_disc_q_v(q, t), norm_cdf_v(-bs_d1_v(s, k, t, sig, r,
            q))),
    }
}

/// Mantissa of the gamma of one contract:
/// `e^(-q t) n(d1) / (s sigma sqrt(t))`; the style plays no part.
pub open spec fn bs_gamma_unit_v(s: int, k: int, t: int, sig: int, r: int, q: int) -> int {
    fx_div_v(fx_mul_v(bs_disc_q_v(q, t), norm_pdf_v(bs_d1_v(s, k, t, sig, r, q))), fx_mul_v(s,
        bs_sigsqt_v(sig, t)))
}

/// Mantissa of the vega of one contract, per percentage point:
/// `s e^(-q t) n(d1) sqrt(t) / 100`.
pub open spec fn bs_vega_unit_v(s: int, k: int, t: int, sig: int, r: int, q: int) -> int {
    tz_div(fx_mul_v(fx_mul_v(fx_mul_v(s, bs_disc_q_v(q, t)), norm_pdf_v(bs_d1_v(s, k, t, sig, r,
        q))), fx_sqrt_v(t)), 100)
}

/// Mantissa of the yearly theta of one contract: the time-decay term
/// `-s e^(-q t) n(d1) sigma / (2 sqrt(t))`, the rate carry on the strike,
/// and the dividend carry on the underlying, with the carry signs of the
/// style.
pub open spec fn bs_theta_year_v(style: OptionStyle, s: int, k: int, t: int, sig: int, r: int,
    q: int) -> int {
    let d1 = bs_d1_v(s, k, t, sig, r, q);
    let d2 = bs_d2_v(s, k, t, sig, r, q);
    let eqt = bs_disc_q_v(q, t);
    let ert = bs_disc_r_v(r, t);
    let core = fx_div_v(fx_mul_v(fx_mul_v(fx_mul_v(s, eqt), norm_pdf_v(d1)), sig), fx_mul_v(2
        * (FX_SCALE as int), fx_sqrt_v(t)));
    let rk = fx_mul_v(r, k);
    let qs = fx_mul_v(q, s);
    match style {
        OptionStyle::Call => -core - fx_mul_v(rk, fx_mul_v(ert, norm_cdf_v(d2))) + fx_mul_v(qs,
            fx_mul_v(eqt, norm_cdf_v(d1))),
        OptionStyle::Put => -core + fx_mul_v(rk, fx_mul_v(ert, norm_cdf_v(-d2))) - fx_mul_v(qs,
            fx_mul_v(eqt, norm_cdf_v(-d1))),
    }
}

/// Mantissa of the rho of one contract, per percentage point:
/// `k t e^(-r t) N(d2) / 100` for a call, minus the mirror for a put.
pub open spec fn bs_rho_unit_v(style: OptionStyle, s: int, k: int, t: int, sig: int, r: int,
    q: int) -> int {
    let kt = fx_mul_v(k, t);
    let ert = bs_disc_r_v(r, t);
    match style {
        OptionStyle::Call => tz_div(fx_mul_v(kt, fx_mul_v(ert, norm_cdf_v(bs_d2_v(s, k, t, sig,
            r, q)))), 100),
        OptionStyle::Put => -tz_div(fx_mul_v(kt, fx_mul_v(ert, norm_cdf_v(-bs_d2_v(s, k, t, sig,
            r, q)))), 100),
    }
}

/// Mantissa of the dividend rho of one contract, per percentage point:
/// `-s t e^(-q t) N(d1) / 100` for a call, plus the mirror for a put.
pub open spec fn bs_rho_d_unit_v(style: OptionStyle, s: int, k: int, t: int, sig: int, r: int,
    q: int) -> int {
    let st = fx_mul_v(s, t);
    let eqt = bs_disc_q_v(q, t);
    match style {
        OptionStyle::Call => -tz_div(fx_mul_v(st, fx_mul_v(eqt, norm_cdf_v(bs_d1_v(s, k, t, sig,
            r, q)))), 100),
        OptionStyle::Put => tz_div(fx_mul_v(st, fx_mul_v(eqt, norm_cdf_v(-bs_d1_v(s, k, t, sig,
            r, q)))), 100),
    }
}

/// Every Greek intermediate stays representable, on top of the core
/// conditions.
pub open spec fn bs_greeks_ok(style: OptionStyle, qty: int, s: int, k: int, t: int, sig: int,
    r: int, q: int) -> bool {
    let d1 = bs_d1_v(s, k, t, sig, r, q);
    let d2 = bs_d2_v(s, k, t, sig, r, q);
    let eqt = bs_disc_q_v(q, t);
    let ert = bs_disc_r_v(r, t);
    let sigsqt = bs_sigsqt_v(sig, t);
    let se = fx_mul_v(s, eqt);
    let sepd = fx_mul_v(se, norm_pdf_v(d1));
    let gden = fx_mul_v(s, sigsqt);
    let core = fx_div_v(fx_mul_v(sepd, sig), fx_mul_v(2 * (FX_SCALE as int), fx_sqrt_v(t)));
    let rk = fx_mul_v(r, k);
    let qs = fx_mul_v(q, s);
    let rkd = match style {
        OptionStyle::Call => fx_mul_v(rk, fx_mul_v(ert, norm_cdf_v(d2))),
        OptionStyle::Put => fx_mul_v(rk, fx_mul_v(ert, norm_cdf_v(-d2))),
    };
    let sum1 = match style {
        OptionStyle::Call => -core - rkd,
        OptionStyle::Put => -core + rkd,
    };
    let kt = fx_mul_v(k, t);
    let st = fx_mul_v(s, t);
    let rnum = match style {
        OptionStyle::Call => fx_mul_v(kt, fx_mul_v(ert, norm_cdf_v(d2))),
        OptionStyle::Put => fx_mul_v(kt, fx_mul_v(ert, norm_cdf_v(-d2))),
    };
    &&& bs_core_ok(s, k, t, sig, r, q)
    &&& fx_in_range(gden)
    &&& gden != 0
    &&& fx_in_range(bs_gamma_unit_v(s, k, t, sig, r, q))
    &&& fx_in_range(fx_mul_v(qty, bs_gamma_unit_v(s, k, t, sig, r, q)))
    &&& fx_in_range(fx_mul_v(sepd, fx_sqrt_v(t)))
    &&& fx_in_range(fx_mul_v(qty, bs_vega_unit_v(s, k, t, sig, r, q)))
    &&& fx_in_range(fx_mul_v(sepd, sig))
    &&& fx_in_range(core)
    &&& fx_in_range(rk)
    &&& fx_in_range(rkd)
    &&& fx_in_range(qs)
    &&& fx_in_range(sum1)
    &&& fx_in_range(bs_theta_year_v(style, s, k, t, sig, r, q))
    &&& fx_in_range(fx_mul_v(qty, bs_theta_year_v(style, s, k, t, sig, r, q)))
    &&& fx_in_range(kt)
    &&& fx_in_range(rnum)
    &&& fx_in_range(fx_mul_v(qty, bs_rho_unit_v(style, s, k, t, sig, r, q)))
    &&& fx_in_range(st)
    &&& fx_in_range(fx_mul_v(qty, bs_rho_d_unit_v(style, s, k, t, sig, r, q)))
}

/// The sensitivities of one leg. Delta carries the quantity and the sign
/// of the side; gamma, theta, vega, rho and the dividend rho carry the
/// quantity and are reported for the position as if held long. Theta is
/// per calendar day; vega, rho and the dividend rho are per percentage
/// point.
#[derive(Clone, Copy, Debug, PartialEq, Eq, Structural)]
pub struct Greeks {
    /// Sensitivity to the underlying price, quantity scaled and side
    /// signed.
    pub delta: Fx,
    /// Sensitivity of delta to the underlying price, quantity scaled.
    pub gamma: Fx,
    /// Time decay per calendar day, quantity scaled.
    pub theta: Fx,
    /// Sensitivity to volatility per percentage point, quantity scaled.
    pub vega: Fx,
    /// Sensitivity to the risk-free rate per percentage point, quantity
    /// scaled.
    pub rho: Fx,
    /// Sensitivity to the dividend yield per percentage point, quantity
    /// scaled.
    pub rho_d: Fx,
}

impl Greeks {
    /// All six values are in range.
    pub open spec fn wf(self) -> bool {
        &&& self.delta.wf()
        &&& self.gamma.wf()
        &&& self.theta.wf()
        &&& self.vega.wf()
        &&& self.rho.wf()
        &&& self.rho_d.wf()
    }

    /// The all-zero sensitivities.
    pub fn zero() -> (r: Greeks)
        ensures
            r.wf(),
            r == (Greeks {
                delta: Fx { m: 0 },
                gamma: Fx { m: 0 },
                theta: Fx { m: 0 },
                vega: Fx { m: 0 },
                rho: Fx { m: 0 },
                rho_d: Fx { m: 0 },
            }),
    {
        Greeks {
            delta: Fx { m: 0 },
            gamma: Fx { m: 0 },
            theta: Fx { m: 0 },
            vega: Fx { m: 0 },
            rho: Fx { m: 0 },
            rho_d: Fx { m: 0 },
        }
    }
}

/// Mantissa of the leg delta: the per-contract delta scaled by the
/// quantity and signed by the side; the step function at zero time.
pub open spec fn bs_delta_v(style: OptionStyle, side: Side, qty: int, s: int, k: int, t: int,
    sig: int, r: int, q: int) -> int {
    if t == 0 {
        side_sign(side) * fx_mul_v(qty, bs_zero_t_delta_unit_v(style, s, k))
    } else {
        side_sign(side) * fx_mul_v(qty, bs_delta_unit_v(style, s, k, t, sig, r, q))
    }
}

/// The Greeks of one leg, with the exact value of each field; every field
/// but delta is zero at zero time to expiration.
pub open spec fn bs_greeks_v(style: OptionStyle, side: Side, qty: int, s: int, k: int, t: int,
    sig: int, r: int, q: int) -> Greeks {
    Greeks {
        delta: Fx { m: bs_delta_v(style, side, qty, s, k, t, sig, r, q) as i128 },
        gamma: Fx { m: (if t == 0 {
            0
        } else {
            fx_mul_v(qty, bs_gamma_unit_v(s, k, t, sig, r, q))
        }) as i128 },
        theta: Fx { m: (if t == 0 {
            0
        } else {
            tz_div(fx_mul_v(qty, bs_theta_year_v(style, s, k, t, sig, r, q)), 365)
        }) as i128 },
        vega: Fx { m: (if t == 0 {
            0
        } else {
            fx_mul_v(qty, bs_vega_unit_v(s, k, t, sig, r, q))
        }) as i128 },
        rho: Fx { m: (if t == 0 {
            0
        } else {
            fx_mul_v(qty, bs_rho_unit_v(style, s, k, t, sig, r, q))
        }) as i128 },
        rho_d: Fx { m: (if t == 0 {
            0
        } else {
            fx_mul_v(qty, bs_rho_d_unit_v(style, s, k, t, sig, r, q))
        }) as i128 },
    }
}

/// Black-Scholes Greeks of one leg, seen from instant `now`.
///
/// At zero time to expiration delta is the step function and every other
/// Greek is zero. At zero volatility with positive time the general
/// formula's division by `sigma sqrt(t)` is undefined and the call fails
/// with a division by zero. Otherwise each field carries the exact value
/// that `bs_greeks_v` states.
#[verifier::rlimit(80)]
pub fn greeks_black_scholes_at(o: &Options, now: i64) -> (r: Result<Greeks, GreeksError>)
    requires
        o.wf(),
    ensures
        ({
            let s = o.underlying_price.v();
            let k = o.strike_price.v();
            let t = crate::model::years_v(crate::model::expiry_days_v(o.expiration_date,
                now as int));
            let sig = o.implied_volatility.v();
            let rr = o.risk_free_rate.m as int;
            let q = o.dividend_yield.v();
            let qty = o.quantity.v();
            &&& (r is Ok <==> crate::model::expiry_ok(o.expiration_date, now as int) && (t == 0
                || (sig != 0 && bs_greeks_ok(o.option_style, qty, s, k, t, sig, rr, q))))
            &&& (r matches Ok(g) ==> g.wf() && g == bs_greeks_v(o.option_style, o.side, qty, s,
                k, t, sig, rr, q))
            &&& (crate::model::expiry_ok(o.expiration_date, now as int) && t == 0 ==> (r matches
                Ok(g) && g.gamma.m == 0 && g.theta.m == 0 && g.vega.m == 0 && g.rho.m == 0
                && g.rho_d.m == 0))
            &&& (crate::model::expiry_ok(o.expiration_date, now as int) && t != 0 && sig == 0
                ==> r == Err::<Greeks, GreeksError>(GreeksError::MathError(
                MathErrorKind::DivisionByZero)))
        }),
        r matches Err(e) ==> e.wf(),
{
    let ghost sv: int = o.underlying_price.v();
    let ghost kv: int = o.strike_price.v();
    let ghost sigv: int = o.implied_volatility.v();
    let ghost rv: int = o.risk_free_rate.m as int;
    let ghost qv: int = o.dividend_yield.v();
    let ghost qtyv: int = o.quantity.v();
    let t = match o.time_years_at(now) {
        Ok(v) => v,
        Err(e) => {
            return Err(e);
        },
    };
    if t.fx.m == 0 {
        let unit: Fx = match o.option_style {
            OptionStyle::Call => {
                if o.underlying_price.fx.m > o.strike_price.fx.m {
                    Fx { m: FX_SCALE }
                } else {
                    Fx { m: 0 }
                }
            },
            OptionStyle::Put => {
                if o.underlying_price.fx.m < o.strike_price.fx.m {
                    Fx { m: -FX_SCALE }
                } else {
                    Fx { m: 0 }
                }
            },
        };
        let scaled = match o.quantity.fx.cmul(unit) {
            Some(v) => v,
            None => {
                proof {
                    lemma_mul_v_small(qtyv, unit.m as int);
                    assert(false);
                }
                Fx { m: 0 }
            },
        };
        let delta = match o.side {
            Side::Long => scaled,
            Side::Short => scaled.neg(),
        };
        let mut g = Greeks::zero();
        g.delta = delta;
        proof {
            let tv = crate::model::years_v(crate::model::expiry_days_v(o.expiration_date,
                now as int));
            assert(tv == 0);
            assert(unit.m as int == bs_zero_t_delta_unit_v(o.option_style, sv, kv));
            assert(scaled.m as int == fx_mul_v(qtyv, unit.m as int));
            assert(delta.m as int == side_sign(o.side) * fx_mul_v(qtyv, unit.m as int))
                by (nonlinear_arith)
                requires
                    (o.side matches Side::Long && delta.m == scaled.m) || (o.side matches
                        Side::Short && delta.m as int == -(scaled.m as int)),
                    scaled.m as int == fx_mul_v(qtyv, unit.m as int),
                    side_sign(o.side) == (match o.side {
                        Side::Long => 1int,
                        Side::Short => -1int,
                    }),
            ;
            assert(g == bs_greeks_v(o.option_style, o.side, qtyv, sv, kv, tv, sigv, rv, qv));
        }
        return Ok(g);
    }
    if o.implied_volatility.fx.m == 0 {
        return Err(GreeksError::MathError(MathErrorKind::DivisionByZero));
    }
    let core = match bs_core(o.underlying_price, o.strike_price, t, o.implied_volatility,
        o.risk_free_rate, o.dividend_yield) {
        Ok(c) => c,
        Err(e) => {
            return Err(e);
        },
    };
    // delta
    let nd_delta = match o.option_style {
        OptionStyle::Call => core.nd1,
        OptionStyle::Put => core.nmd1,
    };
    let delta_unit_mag = match core.eqt.cmul(nd_delta) {
        Some(v) => v,
        None => {
            proof {
                lemma_mul_v_small(core.eqt.m as int, nd_delta.m as int);
                assert(fx_abs(core.eqt.m as int) <= FX_LIM);
                assert(false);
            }
            Fx { m: 0 }
        },
    };
    proof {
        lemma_mul_v_small(core.eqt.m as int, nd_delta.m as int);
    }
    let delta_unit = match o.option_style {
        OptionStyle::Call => delta_unit_mag,
        OptionStyle::Put => delta_unit_mag.neg(),
    };
    let delta_scaled = match o.quantity.fx.cmul(delta_unit) {
        Some(v) => v,
        None => {
            proof {
                lemma_mul_v_small(qtyv, delta_unit.m as int);
                assert(false);
            }
            Fx { m: 0 }
        },
    };
    let delta = match o.side {
        Side::Long => delta_scaled,
        Side::Short => delta_scaled.neg(),
    };
    // gamma
    let gnum = match core.eqt.cmul(core.pd1) {
        Some(v) => v,
        None => {
            proof {
                lemma_mul_v_small(core.eqt.m as int, core.pd1.m as int);
                assert(false);
            }
            Fx { m: 0 }
        },
    };
    let gden = match o.underlying_price.fx.cmul(core.sigsqt) {
        Some(v) => v,
        None => {
            return Err(GreeksError::MathError(MathErrorKind::Overflow));
        },
    };
    if gden.m == 0 {
        return Err(GreeksError::MathError(MathErrorKind::DivisionByZero));
    }
    let gamma_unit = match gnum.cdiv(gden) {
        Some(v) => v,
        None => {
            return Err(GreeksError::MathError(MathErrorKind::Overflow));
        },
    };
    let gamma = match o.quantity.fx.cmul(gamma_unit) {
        Some(v) => v,
        None => {
            return Err(GreeksError::MathError(MathErrorKind::Overflow));
        },
    };
    // shared pieces
    let se = match o.underlying_price.fx.cmul(core.eqt) {
        Some(v) => v,
        None => {
            proof {
                lemma_mul_v_small(sv, core.eqt.m as int);
                assert(false);
            }
            Fx { m: 0 }
        },
    };
    let sepd = match se.cmul(core.pd1) {
        Some(v) => v,
        None => {
            proof {
                lemma_mul_v_small(se.m as int, core.pd1.m as int);
                assert(false);
            }
            Fx { m: 0 }
        },
    };
    // vega
    let vnum = match sepd.cmul(core.sqt) {
        Some(v) => v,
        None => {
            return Err(GreeksError::MathError(MathErrorKind::Overflow));
        },
    };
    let vega_unit = tz_div_100(vnum);
    let vega = match o.quantity.fx.cmul(vega_unit) {
        Some(v) => v,
        None => {
            return Err(GreeksError::MathError(MathErrorKind::Overflow));
        },
    };
    // theta
    let tnum = match sepd.cmul(o.implied_volatility.fx) {
        Some(v) => v,
        None => {
            return Err(GreeksError::MathError(MathErrorKind::Overflow));
        },
    };
    proof {
        assert(fx_mul_v(2 * (FX_SCALE as int), core.sqt.m as int) == 2 * (core.sqt.m as int))
            by (nonlinear_arith)
            requires
                0 <= core.sqt.m,
        ;
    }
    let tden = match (Fx { m: 2 * FX_SCALE }).cmul(core.sqt) {
        Some(v) => v,
        None => {
            proof {
                assert(false);
            }
            Fx { m: 0 }
        },
    };
    let core_term = match tnum.cdiv(tden) {
        Some(v) => v,
        None => {
            return Err(GreeksError::MathError(MathErrorKind::Overflow));
        },
    };
    let rk = match o.risk_free_rate.cmul(o.strike_price.fx) {
        Some(v) => v,
        None => {
            return Err(GreeksError::MathError(MathErrorKind::Overflow));
        },
    };
    let nd_theta = match o.option_style {
        OptionStyle::Call => core.nd2,
        OptionStyle::Put => core.nmd2,
    };
    let ertnd = match core.ert.cmul(nd_theta) {
        Some(v) => v,
        None => {
            proof {
                lemma_mul_v_small(core.ert.m as int, nd_theta.m as int);
                assert(false);
            }
            Fx { m: 0 }
        },
    };
    let rkd = match rk.cmul(ertnd) {
        Some(v) => v,
        None => {
            return Err(GreeksError::MathError(MathErrorKind::Overflow));
        },
    };
    let qs = match o.dividend_yield.fx.cmul(o.underlying_price.fx) {
        Some(v) => v,
        None => {
            return Err(GreeksError::MathError(MathErrorKind::Overflow));
        },
    };
    let nd_carry = match o.option_style {
        OptionStyle::Call => core.nd1,
        OptionStyle::Put => core.nmd1,
    };
    let eqtnd = match core.eqt.cmul(nd_carry) {
        Some(v) => v,
        None => {
            proof {
                lemma_mul_v_small(core.eqt.m as int, nd_carry.m as int);
                assert(false);
            }
            Fx { m: 0 }
        },
    };
    proof {
        lemma_mul_v_small(core.eqt.m as int, nd_carry.m as int);
    }
    let qsd = match qs.cmul(eqtnd) {
        Some(v) => v,
        None => {
            proof {
                lemma_mul_v_small(qs.m as int, eqtnd.m as int);
                assert(false);
            }
            Fx { m: 0 }
        },
    };
    let sum1 = match o.option_style {
        OptionStyle::Call => match core_term.neg().csub(rkd) {
            Some(v) => v,
            None => {
                return Err(GreeksError::MathError(MathErrorKind::Overflow));
            },
        },
        OptionStyle::Put => match core_term.neg().cadd(rkd) {
            Some(v) => v,
            None => {
                return Err(GreeksError::MathError(MathErrorKind::Overflow));
            },
        },
    };
    let theta_year = match o.option_style {
        OptionStyle::Call => match sum1.cadd(qsd) {
            Some(v) => v,
            None => {
                return Err(GreeksError::MathError(MathErrorKind::Overflow));
            },
        },
        OptionStyle::Put => match sum1.csub(qsd) {
            Some(v) => v,
            None => {
                return Err(GreeksError::MathError(MathErrorKind::Overflow));
            },
        },
    };
    let theta_scaled = match o.quantity.fx.cmul(theta_year) {
        Some(v) => v,
        None => {
            return Err(GreeksError::MathError(MathErrorKind::Overflow));
        },
    };
    let theta = tz_div_365(theta_scaled);
    // rho
    let kt = match o.strike_price.cmul(t) {
        Some(v) => v,
        None => {
            return Err(GreeksError::MathError(MathErrorKind::Overflow));
        },
    };
    let rnum = match kt.fx.cmul(ertnd) {
        Some(v) => v,
        None => {
            return Err(GreeksError::MathError(MathErrorKind::Overflow));
        },
    };
    let rho_unit_mag = tz_div_100(rnum);
    let rho_unit = match o.option_style {
        OptionStyle::Call => rho_unit_mag,
        OptionStyle::Put => rho_unit_mag.neg(),
    };
    let rho = match o.quantity.fx.cmul(rho_unit) {
        Some(v) => v,
        None => {
            return Err(GreeksError::MathError(MathErrorKind::Overflow));
        },
    };
    // dividend rho
    let st = match o.underlying_price.cmul(t) {
        Some(v) => v,
        None => {
            return Err(GreeksError::MathError(MathErrorKind::Overflow));
        },
    };
    let dnum = match st.fx.cmul(eqtnd) {
        Some(v) => v,
        None => {
            proof {
                lemma_mul_v_small(st.fx.m as int, eqtnd.m as int);
                assert(false);
            }
            Fx { m: 0 }
        },
    };
    let rho_d_unit_mag = tz_div_100(dnum);
    let rho_d_unit = match o.option_style {
        OptionStyle::Call => rho_d_unit_mag.neg(),
        OptionStyle::Put => rho_d_unit_mag,
    };
    let rho_d = match o.quantity.fx.cmul(rho_d_unit) {
        Some(v) => v,
        None => {
            return Err(GreeksError::MathError(MathErrorKind::Overflow));
        },
    };
    Ok(Greeks { delta, gamma, theta, vega, rho, rho_d })
}

/// Truncating division of a mantissa by one hundred.
fn tz_div_100(x: Fx) -> (r: Fx)
    requires
        x.wf(),
    ensures
        r.wf(),
        r.m as int == tz_div(x.m as int, 100),
        fx_abs(r.m as int) <= fx_abs(x.m as int),
        x.m >= 0 ==> r.m >= 0,
{
    let mag: u128 = crate::fixed::abs_mag(x.m);
    let q: u128 = mag / 100;
    proof {
        crate::fixed::lemma_tz_div_abs(x.m as int, 100);
        assert(fx_abs(tz_div(x.m as int, 100)) <= fx_abs(x.m as int));
        assert(x.m >= 0 ==> tz_div(x.m as int, 100) >= 0) by (nonlinear_arith);
        assert(x.m < 0 ==> tz_div(x.m as int, 100) == -(q as int)) by (nonlinear_arith)
            requires
                q as int == fx_abs(x.m as int) / 100,
                tz_div(x.m as int, 100) == crate::fixed::fx_sgn(x.m as int) * (fx_abs(
                    x.m as int) / 100),
        ;
        assert(x.m >= 0 ==> tz_div(x.m as int, 100) == q as int) by (nonlinear_arith)
            requires
                q as int == fx_abs(x.m as int) / 100,
                tz_div(x.m as int, 100) == crate::fixed::fx_sgn(x.m as int) * (fx_abs(
                    x.m as int) / 100),
        ;
    }
    if x.m < 0 {
        Fx { m: -(q as i128) }
    } else {
        Fx { m: q as i128 }
    }
}

/// Truncating division of a mantissa by the day count of a year.
fn tz_div_365(x: Fx) -> (r: Fx)
    requires
        x.wf(),
    ensures
        r.wf(),
        r.m as int == tz_div(x.m as int, 365),
        fx_abs(r.m as int) <= fx_abs(x.m as int),
{
    let mag: u128 = crate::fixed::abs_mag(x.m);
    let q: u128 = mag / 365;
    proof {
        crate::fixed::lemma_tz_div_abs(x.m as int, 365);
        assert(x.m < 0 ==> tz_div(x.m as int, 365) == -(q as int)) by (nonlinear_arith)
            requires
                q as int == fx_abs(x.m as int) / 365,
                tz_div(x.m as int, 365) == crate::fixed::fx_sgn(x.m as int) * (fx_abs(
                    x.m as int) / 365),
        ;
        assert(x.m >= 0 ==> tz_div(x.m as int, 365) == q as int) by (nonlinear_arith)
            requires
                q as int == fx_abs(x.m as int) / 365,
                tz_div(x.m as int, 365) == crate::fixed::fx_sgn(x.m as int) * (fx_abs(
                    x.m as int) / 365),
        ;
    }
    if x.m < 0 {
        Fx { m: -(q as i128) }
    } else {
        Fx { m: q as i128 }
    }
}

/// Black-Scholes Greeks of one leg, resolving a timestamp expiration
/// against the clock. For a day-count expiration the result is exactly
/// that of `greeks_black_scholes_at`, whatever the instant.
pub fn greeks_black_scholes(o: &Options) -> (r: Result<Greeks, GreeksError>)
    requires
        o.wf(),
    ensures
        ({
            let s = o.underlying_price.v();
            let k = o.strike_price.v();
            let sig = o.implied_volatility.v();
            let rr = o.risk_free_rate.m as int;
            let q = o.dividend_yield.v();
            let qty = o.quantity.v();
            o.expiration_date matches ExpirationDate::Days(d) ==> {
                let t = crate::model::years_v(d.v());
                &&& (r is Ok <==> t == 0 || (sig != 0 && bs_greeks_ok(o.option_style, qty, s, k,
                    t, sig, rr, q)))
                &&& (r matches Ok(g) ==> g.wf() && g == bs_greeks_v(o.option_style, o.side, qty,
                    s, k, t, sig, rr, q))
            }
        }),
        r matches Ok(g) ==> g.wf(),
        r matches Err(e) ==> e.wf(),
{
    let now = crate::model::now_secs();
    greeks_black_scholes_at(o, now)
}

/// Splitting a non-negative value across two weights that sum to one, up
/// to one truncation unit, loses at most two truncation units and a
/// relative part of one scale unit.
proof fn lemma_split_unit(a: int, n1: int, n2: int)
    requires
        a >= 0,
        n1 >= 0,
        n2 >= 0,
        (FX_SCALE as int) - 1 <= n1 + n2 <= FX_SCALE as int,
    ensures
        0 <= a - (fx_mul_v(a, n1) + fx_mul_v(a, n2)),
        (a - (fx_mul_v(a, n1) + fx_mul_v(a, n2))) * (FX_SCALE as int) <= a + 2 * (
        FX_SCALE as int),
{
    crate::fixed::lemma_mul_v_nonneg(a, n1);
    crate::fixed::lemma_mul_v_nonneg(a, n2);
    assert(fx_mul_v(a, n1) == a * n1 / (FX_SCALE as int) && fx_mul_v(a, n2) == a * n2
        / (FX_SCALE as int) && a * n1 >= 0 && a * n2 >= 0) by (nonlinear_arith)
        requires
            a >= 0,
            n1 >= 0,
            n2 >= 0,
    ;
    let q1 = a * n1 / (FX_SCALE as int);
    let q2 = a * n2 / (FX_SCALE as int);
    vstd::arithmetic::div_mod::lemma_fundamental_div_mod(a * n1, FX_SCALE as int);
    vstd::arithmetic::div_mod::lemma_fundamental_div_mod(a * n2, FX_SCALE as int);
    vstd::arithmetic::div_mod::lemma_mod_bound(a * n1, FX_SCALE as int);
    vstd::arithmetic::div_mod::lemma_mod_bound(a * n2, FX_SCALE as int);
    assert((a - (q1 + q2)) * (FX_SCALE as int) == a * (FX_SCALE as int) - a * (n1 + n2) + a
        * n1 % (FX_SCALE as int) + a * n2 % (FX_SCALE as int)) by (nonlinear_arith)
        requires
            a * n1 == (FX_SCALE as int) * q1 + a * n1 % (FX_SCALE as int),
            a * n2 == (FX_SCALE as int) * q2 + a * n2 % (FX_SCALE as int),
    ;
    assert(0 <= a * (FX_SCALE as int) - a * (n1 + n2) <= a) by (nonlinear_arith)
        requires
            a >= 0,
            (FX_SCALE as int) - 1 <= n1 + n2 <= FX_SCALE as int,
    ;
    assert((a - (q1 + q2)) * (FX_SCALE as int) >= 0 ==> a - (q1 + q2) >= 0)
        by (nonlinear_arith);
}

/// Law: put-call parity. For any valid option parameters — spot, strike,
/// time, volatility and dividend yield all non-negative — the call price
/// minus the put price differs from the dividend-discounted spot minus
/// the rate-discounted strike by less than two truncation units plus one
/// scale part of the discounted notionals: a few trillionths for
/// contract-sized prices, far inside a tolerance of one millionth. At
/// zero time or zero volatility the difference is exactly zero.
pub proof fn lemma_put_call_parity(s: int, k: int, t: int, sig: int, r: int, q: int)
    requires
        s >= 0,
        k >= 0,
        t >= 0,
        sig >= 0,
        q >= 0,
    ensures
        ({
            let c = bs_price_v(OptionStyle::Call, s, k, t, sig, r, q);
            let p = bs_price_v(OptionStyle::Put, s, k, t, sig, r, q);
            let se = fx_mul_v(s, bs_disc_q_v(q, t));
            let ke = fx_mul_v(k, bs_disc_r_v(r, t));
            fx_abs((c - p) - (se - ke)) * (FX_SCALE as int) <= se + ke + 2 * (FX_SCALE as int)
        }),
{
    let eqt = bs_disc_q_v(q, t);
    let ert = bs_disc_r_v(r, t);
    let se = fx_mul_v(s, eqt);
    let ke = fx_mul_v(k, ert);
    crate::special::lemma_exp_v_nonneg(-fx_mul_v(q, t));
    crate::special::lemma_exp_v_nonneg(-fx_mul_v(r, t));
    crate::fixed::lemma_mul_v_nonneg(s, eqt);
    crate::fixed::lemma_mul_v_nonneg(k, ert);
    if t == 0 {
        assert(fx_mul_v(q, 0) == 0 && fx_mul_v(r, 0) == 0) by {
            assert(q * 0 == 0 && r * 0 == 0) by (nonlinear_arith);
        }
        assert(exp_v(0) == exp_pos_v(0));
        assert(0int / (crate::special::LN2_FX as int) == 0 && 0int % (
            crate::special::LN2_FX as int) == 0);
        crate::special::lemma_exp_pos_zero();
        assert(eqt == FX_SCALE as int && ert == FX_SCALE as int);
        assert(se == s && ke == k) by (nonlinear_arith)
            requires
                se == fx_mul_v(s, FX_SCALE as int),
                ke == fx_mul_v(k, FX_SCALE as int),
                s >= 0,
                k >= 0,
                se == tz_div(s * (FX_SCALE as int), FX_SCALE as int),
                ke == tz_div(k * (FX_SCALE as int), FX_SCALE as int),
        ;
        assert(bs_price_v(OptionStyle::Call, s, k, t, sig, r, q) - bs_price_v(
            OptionStyle::Put, s, k, t, sig, r, q) == s - k);
    } else if sig == 0 {
        assert(bs_price_v(OptionStyle::Call, s, k, t, sig, r, q) - bs_price_v(
            OptionStyle::Put, s, k, t, sig, r, q) == se - ke);
    } else {
        let d1 = bs_d1_v(s, k, t, sig, r, q);
        let d2 = bs_d2_v(s, k, t, sig, r, q);
        crate::special::lemma_cdf_pair(d1);
        crate::special::lemma_cdf_pair(d2);
        let n1 = norm_cdf_v(d1);
        let n1m = norm_cdf_v(-d1);
        let n2 = norm_cdf_v(d2);
        let n2m = norm_cdf_v(-d2);
        lemma_split_unit(se, n1, n1m);
        lemma_split_unit(ke, n2, n2m);
        let x = fx_mul_v(se, n1) + fx_mul_v(se, n1m);
        let y = fx_mul_v(ke, n2) + fx_mul_v(ke, n2m);
        assert(bs_price_v(OptionStyle::Call, s, k, t, sig, r, q) - bs_price_v(
            OptionStyle::Put, s, k, t, sig, r, q) == x - y);
        let u = se - x;
        let w = ke - y;
        assert(fx_abs((x - y) - (se - ke)) == fx_abs(w - u));
        assert(fx_abs(w - u) * (FX_SCALE as int) <= se + ke + 2 * (FX_SCALE as int))
            by (nonlinear_arith)
            requires
                0 <= u,
                u * (FX_SCALE as int) <= se + 2 * (FX_SCALE as int),
                0 <= w,
                w * (FX_SCALE as int) <= ke + 2 * (FX_SCALE as int),
                se >= 0,
                ke >= 0,
        ;
    }
}

} // verus!
