//! Telegraph-process pricing: a two-state alternative to the Brownian
//! driver.
//!
//! The process sits in the up state `+1` or the down state `-1`. In each
//! step the path moves by `e^((r - q - sigma^2/2) dt + sigma sqrt(dt))`
//! while up and with the diffusion sign flipped while down; afterwards it
//! switches state with probability `lambda dt`, where `lambda_up` is the
//! rate of leaving the up state and `lambda_down` the rate of leaving the
//! down state. Pricing averages discounted payoffs over paths, exactly as
//! the Monte Carlo pricer does. The rates can be estimated from a return
//! series by the observed sign-flip frequencies: the rate of leaving a
//! state is the number of departures over the number of observations spent
//! in it.

use vstd::prelude::*;

use crate::error::{GreeksError, InputErrorKind, MathErrorKind};
use crate::fixed::{
    fx_div_v, fx_in_range, fx_mul_v, lemma_div_v_nonneg, lemma_div_v_small, lemma_mul_v_nonneg,
    tz_div, Fx, FX_LIM, FX_SCALE,
};
use crate::model::{
    expiry_days_v, expiry_ok, intrinsic_v, years_v, ExpirationDate, Options, OptionStyle,
    OptionType,
};
use crate::monte_carlo::{mc_drift_dt_v, sum_ints, MAX_MC_PATHS, MAX_MC_STEPS};
use crate::positive::Positive;
use crate::rng::{lcg_next_v, unif_of, LcgRng};
use crate::special::{exp_v, fx_sqrt_v, EXP_ARG_MAX};

verus! {

/// Steps per path used by the plain pricing entry point.
pub const TELEGRAPH_STEPS: usize = 100;

/// Default rate of leaving the up state (the value one half).
pub const TELEGRAPH_LAMBDA_UP: i128 = 500_000_000_000;

/// Default rate of leaving the down state (the value three tenths).
pub const TELEGRAPH_LAMBDA_DOWN: i128 = 300_000_000_000;

/// A two-state switching process with one departure rate per state.
#[derive(Clone, Copy, Debug, PartialEq, Eq, Structural)]
pub struct TelegraphProcess {
    /// Rate of leaving the up state.
    pub lambda_up: Positive,
    /// Rate of leaving the down state.
    pub lambda_down: Positive,
}

impl TelegraphProcess {
    /// Builds a process after validating that both rates are non-negative;
    /// a negative rate is rejected as an invalid rate, the up rate first.
    pub fn new(lambda_up: Fx, lambda_down: Fx) -> (r: Result<TelegraphProcess, GreeksError>)
        requires
            lambda_up.wf(),
            lambda_down.wf(),
        ensures
            r is Ok <==> lambda_up.m >= 0 && lambda_down.m >= 0,
            r matches Ok(p) ==> p.lambda_up.fx == lambda_up && p.lambda_down.fx == lambda_down
                && p.lambda_up.wf() && p.lambda_down.wf(),
            lambda_up.m < 0 ==> (r matches Err(GreeksError::InputError(
                InputErrorKind::InvalidRate { value, .. })) && value == lambda_up),
            lambda_up.m >= 0 && lambda_down.m < 0 ==> (r matches Err(GreeksError::InputError(
                InputErrorKind::InvalidRate { value, .. })) && value == lambda_down),
            r matches Err(e) ==> e.wf(),
    {
        if lambda_up.m < 0 {
            return Err(GreeksError::InputError(InputErrorKind::InvalidRate {
                value: lambda_up,
                reason: String::from_str("Transition rate cannot be negative"),
            }));
        }
        if lambda_down.m < 0 {
            return Err(GreeksError::InputError(InputErrorKind::InvalidRate {
                value: lambda_down,
                reason: String::from_str("Transition rate cannot be negative"),
            }));
        }
        Ok(TelegraphProcess {
            lambda_up: Positive { fx: lambda_up },
            lambda_down: Positive { fx: lambda_down },
        })
    }
}

/// Clamps a mantissa into the probability range `[0, 1]`.
pub open spec fn clamp_prob(x: int) -> int {
    if x < 0 {
        0
    } else if x > FX_SCALE as int {
        FX_SCALE as int
    } else {
        x
    }
}

/// One telegraph step from `spot` in state `up`: the path moves with the
/// diffusion sign of the current state, then switches state when the
/// uniform draw falls under the state's switching probability.
#[verifier::opaque]
pub open spec fn tg_step_v(spot: int, up: bool, dd: int, ss: int, pu: int, pd: int, st: u64)
    -> (int, bool, u64) {
    let ns = lcg_next_v(st);
    let u = unif_of(ns);
    let factor = exp_v(dd + (if up {
        ss
    } else {
        -ss
    }));
    let flip = u < (if up {
        pu
    } else {
        pd
    });
    (
        fx_mul_v(spot, factor),
        (if flip {
            !up
        } else {
            up
        }),
        ns,
    )
}

/// Terminal spot, state and generator state after `steps` telegraph steps.
pub open spec fn tg_terminal_v(spot: int, up: bool, dd: int, ss: int, pu: int, pd: int,
    st: u64, steps: nat) -> (int, bool, u64)
    decreases steps,
{
    if steps == 0 {
        (spot, up, st)
    } else {
        let p = tg_terminal_v(spot, up, dd, ss, pu, pd, st, (steps - 1) as nat);
        tg_step_v(p.0, p.1, dd, ss, pu, pd, p.2)
    }
}

/// Payoff mantissas of `i` telegraph paths, each starting in the up state,
/// and the generator state left behind.
pub open spec fn tg_payoffs_v(style: OptionStyle, k: int, spot: int, dd: int, ss: int, pu: int,
    pd: int, st: u64, i: nat, steps: nat) -> (Seq<int>, u64)
    decreases i,
{
    if i == 0 {
        (Seq::<int>::empty(), st)
    } else {
        let p = tg_payoffs_v(style, k, spot, dd, ss, pu, pd, st, (i - 1) as nat, steps);
        let t = tg_terminal_v(spot, true, dd, ss, pu, pd, p.1, steps);
        (p.0.push(intrinsic_v(style, t.0, k)), t.2)
    }
}

/// The setup quantities of a telegraph simulation stay representable,
/// including the raw switching probabilities before clamping.
pub open spec fn tg_setup_ok(sig: int, r: int, q: int, lu: int, ld: int, t: int, steps: int)
    -> bool {
    let dt = crate::binomial::bin_dt_v(t, steps);
    let sig2 = fx_mul_v(sig, sig);
    let sig2h = tz_div(sig2, 2);
    let rt = fx_mul_v(r, t);
    &&& fx_in_range(fx_mul_v(sig, fx_sqrt_v(dt)))
    &&& fx_in_range(sig2)
    &&& fx_in_range(r - q)
    &&& fx_in_range(r - q - sig2h)
    &&& fx_in_range(fx_mul_v(r - q - sig2h, dt))
    &&& fx_in_range(fx_mul_v(lu, dt))
    &&& fx_in_range(fx_mul_v(ld, dt))
    &&& fx_in_range(rt)
    &&& -rt <= EXP_ARG_MAX
}

/// One telegraph step stays representable: the exponent of the move in
/// the current state, and the new spot. The switching draw cannot fail.
#[verifier::opaque]
pub open spec fn tg_step_ok(spot: int, up: bool, dd: int, ss: int) -> bool {
    let shock = if up {
        ss
    } else {
        -ss
    };
    &&& fx_in_range(dd + shock)
    &&& dd + shock <= EXP_ARG_MAX
    &&& fx_in_range(fx_mul_v(spot, exp_v(dd + shock)))
}

/// Every step along one telegraph path stays representable.
pub open spec fn tg_path_ok(spot: int, up: bool, dd: int, ss: int, pu: int, pd: int, st: u64,
    steps: nat) -> bool
    decreases steps,
{
    if steps == 0 {
        true
    } else {
        let p = tg_terminal_v(spot, up, dd, ss, pu, pd, st, (steps - 1) as nat);
        tg_path_ok(spot, up, dd, ss, pu, pd, st, (steps - 1) as nat) && tg_step_ok(p.0, p.1,
            dd, ss)
    }
}

/// Every step of every telegraph path stays representable.
pub open spec fn tg_paths_ok(style: OptionStyle, k: int, spot: int, dd: int, ss: int, pu: int,
    pd: int, st: u64, i: nat, steps: nat) -> bool
    decreases i,
{
    if i == 0 {
        true
    } else {
        let p = tg_payoffs_v(style, k, spot, dd, ss, pu, pd, st, (i - 1) as nat, steps);
        tg_paths_ok(style, k, spot, dd, ss, pu, pd, st, (i - 1) as nat, steps) && tg_path_ok(
            spot, true, dd, ss, pu, pd, p.1, steps)
    }
}

/// The discounted mean payoff stays representable.
pub open spec fn tg_final_ok(disc: int, payoffs: Seq<int>, m: int) -> bool {
    fx_in_range(fx_mul_v(disc, tz_div(sum_ints(payoffs), m)))
}

/// A path that stays representable does so on every prefix of its steps.
proof fn lemma_tg_path_ok_mono(spot: int, up: bool, dd: int, ss: int, pu: int, pd: int,
    st: u64, n1: nat, n2: nat)
    requires
        n1 <= n2,
        tg_path_ok(spot, up, dd, ss, pu, pd, st, n2),
    ensures
        tg_path_ok(spot, up, dd, ss, pu, pd, st, n1),
    decreases n2,
{
    if n1 < n2 {
        lemma_tg_path_ok_mono(spot, up, dd, ss, pu, pd, st, n1, (n2 - 1) as nat);
    }
}

/// A simulation that stays representable does so on every prefix of its
/// paths.
proof fn lemma_tg_paths_ok_mono(style: OptionStyle, k: int, spot: int, dd: int, ss: int,
    pu: int, pd: int, st: u64, i1: nat, i2: nat, steps: nat)
    requires
        i1 <= i2,
        tg_paths_ok(style, k, spot, dd, ss, pu, pd, st, i2, steps),
    ensures
        tg_paths_ok(style, k, spot, dd, ss, pu, pd, st, i1, steps),
    decreases i2,
{
    if i1 < i2 {
        lemma_tg_paths_ok_mono(style, k, spot, dd, ss, pu, pd, st, i1, (i2 - 1) as nat,
            steps);
    }
}

/// A step that leaves the representable range condemns the whole path.
proof fn lemma_tg_path_bad(spot0: int, dd: int, ss: int, pu: int, pd: int, state0: u64,
    spot: int, up: bool, st: nat, steps: nat)
    requires
        st < steps,
        spot == tg_terminal_v(spot0, true, dd, ss, pu, pd, state0, st).0,
        up == tg_terminal_v(spot0, true, dd, ss, pu, pd, state0, st).1,
        !tg_step_ok(spot, up, dd, ss),
    ensures
        !tg_path_ok(spot0, true, dd, ss, pu, pd, state0, steps),
{
    assert(!tg_path_ok(spot0, true, dd, ss, pu, pd, state0, (st + 1) as nat));
    if tg_path_ok(spot0, true, dd, ss, pu, pd, state0, steps) {
        lemma_tg_path_ok_mono(spot0, true, dd, ss, pu, pd, state0, (st + 1) as nat, steps);
    }
}

/// Simulates one telegraph path of `steps` steps from `spot0`, starting in
/// the up state and advancing the generator; succeeds exactly when every
/// step stays representable.
#[verifier::rlimit(80)]
fn tg_run_path(spot0: Fx, dd: Fx, ss: Fx, pu: Fx, pd: Fx, rng0: LcgRng, steps: usize) -> (r:
    Result<(Fx, LcgRng), GreeksError>)
    requires
        spot0.wf(),
        spot0.m >= 0,
        dd.wf(),
        ss.wf(),
        pu.wf(),
        pd.wf(),
    ensures
        r is Ok <==> tg_path_ok(spot0.m as int, true, dd.m as int, ss.m as int, pu.m as int,
            pd.m as int, rng0.state, steps as nat),
        r matches Ok(term) ==> {
            let tm = tg_terminal_v(spot0.m as int, true, dd.m as int, ss.m as int,
                pu.m as int, pd.m as int, rng0.state, steps as nat);
            &&& term.0.wf()
            &&& term.0.m >= 0
            &&& term.0.m == tm.0
            &&& term.1.state == tm.2
        },
        r matches Err(e) ==> e == GreeksError::MathError(MathErrorKind::Overflow),
{
    let ghost state0: u64 = rng0.state;
    let mut rng = rng0;
    let mut spot = spot0;
    let mut up: bool = true;
    let mut st: usize = 0;
    while st < steps
        invariant
            0 <= st <= steps,
            spot0.wf(),
            spot0.m >= 0,
            dd.wf(),
            ss.wf(),
            pu.wf(),
            pd.wf(),
            spot.wf(),
            spot.m >= 0,
            state0 == rng0.state,
            tg_path_ok(spot0.m as int, true, dd.m as int, ss.m as int, pu.m as int,
                pd.m as int, state0, st as nat),
            ({
                let tm = tg_terminal_v(spot0.m as int, true, dd.m as int, ss.m as int,
                    pu.m as int, pd.m as int, state0, st as nat);
                spot.m == tm.0 && up == tm.1 && rng.state == tm.2
            }),
        decreases steps - st,
    {
        proof {
            reveal(tg_step_v);
        }
        let u = rng.next_unif();
        let shock = if up {
            ss
        } else {
            ss.neg()
        };
        let arg = match dd.cadd(shock) {
            Some(v) => v,
            None => {
                proof {
                    reveal(tg_step_ok);
                    lemma_tg_path_bad(spot0.m as int, dd.m as int, ss.m as int, pu.m as int,
                        pd.m as int, state0, spot.m as int, up, st as nat, steps as nat);
                }
                return Err(GreeksError::MathError(MathErrorKind::Overflow));
            },
        };
        let f = match arg.exp() {
            Some(v) => v,
            None => {
                proof {
                    reveal(tg_step_ok);
                    lemma_tg_path_bad(spot0.m as int, dd.m as int, ss.m as int, pu.m as int,
                        pd.m as int, state0, spot.m as int, up, st as nat, steps as nat);
                }
                return Err(GreeksError::MathError(MathErrorKind::Overflow));
            },
        };
        let next = match spot.cmul(f) {
            Some(v) => v,
            None => {
                proof {
                    reveal(tg_step_ok);
                    lemma_tg_path_bad(spot0.m as int, dd.m as int, ss.m as int, pu.m as int,
                        pd.m as int, state0, spot.m as int, up, st as nat, steps as nat);
                }
                return Err(GreeksError::MathError(MathErrorKind::Overflow));
            },
        };
        proof {
            reveal(tg_step_ok);
            lemma_mul_v_nonneg(spot.m as int, f.m as int);
        }
        let threshold = if up {
            pu
        } else {
            pd
        };
        if u.m < threshold.m {
            up = !up;
        }
        spot = next;
        st = st + 1;
    }
    Ok((spot, rng))
}

/// Telegraph-process price of one contract of the leg, from `paths` paths
/// of `steps` steps each, driven by the generator seeded with `seed` and
/// seen from instant `now`. The price is the discounted average terminal
/// payoff, exactly as the Monte Carlo pricer computes it.
#[verifier::rlimit(100)]
pub fn price_telegraph_at(o: &Options, paths: usize, steps: usize, process: TelegraphProcess,
    seed: u64, now: i64) -> (r: Result<Fx, GreeksError>)
    requires
        o.wf(),
        process.lambda_up.wf(),
        process.lambda_down.wf(),
    ensures
        ({
            let s = o.underlying_price.v();
            let k = o.strike_price.v();
            let t = years_v(expiry_days_v(o.expiration_date, now as int));
            let sig = o.implied_volatility.v();
            let rr = o.risk_free_rate.m as int;
            let q = o.dividend_yield.v();
            let dt = crate::binomial::bin_dt_v(t, steps as int);
            let dd = mc_drift_dt_v(sig, rr, q, dt);
            let ss = fx_mul_v(sig, fx_sqrt_v(dt));
            let pu = clamp_prob(fx_mul_v(process.lambda_up.v(), dt));
            let pd = clamp_prob(fx_mul_v(process.lambda_down.v(), dt));
            let disc = exp_v(-fx_mul_v(rr, t));
            let pz = tg_payoffs_v(o.option_style, k, s, dd, ss, pu, pd, seed, paths as nat,
                steps as nat);
            &&& ((o.option_type matches OptionType::American) || paths == 0 || paths
                > MAX_MC_PATHS || steps == 0 || steps > MAX_MC_STEPS <==> (r matches Err(
                GreeksError::MathError(MathErrorKind::InvalidDomain { .. }))))
            &&& (r is Ok ==> !(o.option_type matches OptionType::American) && 0 < paths
                <= MAX_MC_PATHS && 0 < steps <= MAX_MC_STEPS && expiry_ok(o.expiration_date,
                now as int))
            &&& (!(o.option_type matches OptionType::American) && 0 < paths <= MAX_MC_PATHS
                && 0 < steps <= MAX_MC_STEPS && expiry_ok(o.expiration_date, now as int)
                && tg_setup_ok(sig, rr, q, process.lambda_up.v(), process.lambda_down.v(), t,
                steps as int) && tg_paths_ok(o.option_style, k, s, dd, ss, pu, pd, seed,
                paths as nat, steps as nat) && tg_final_ok(disc, pz.0, paths as int)
                ==> r is Ok)
            &&& (r matches Ok(v) ==> v.wf() && v.m == fx_mul_v(disc, tz_div(sum_ints(pz.0),
                paths as int)))
        }),
        r matches Err(e) ==> e.wf(),
{
    let ghost sv: int = o.underlying_price.v();
    let ghost kv: int = o.strike_price.v();
    let ghost sigv: int = o.implied_volatility.v();
    let ghost rv: int = o.risk_free_rate.m as int;
    let ghost qv: int = o.dividend_yield.v();
    let ghost tv_all: int = years_v(expiry_days_v(o.expiration_date, now as int));
    if matches!(o.option_type, OptionType::American) {
        return Err(GreeksError::MathError(MathErrorKind::InvalidDomain {
            value: Fx { m: 0 },
            reason: String::from_str("Early exercise is not supported by simulation"),
        }));
    }
    if paths == 0 || paths > MAX_MC_PATHS || steps == 0 || steps > MAX_MC_STEPS {
        return Err(GreeksError::MathError(MathErrorKind::InvalidDomain {
            value: Fx { m: 0 },
            reason: String::from_str("Path or step count outside the supported range"),
        }));
    }
    let t = match o.time_years_at(now) {
        Ok(v) => v,
        Err(e) => {
            return Err(e);
        },
    };
    let steps_fx = Fx { m: (steps as i128) * FX_SCALE };
    proof {
        lemma_div_v_small(t.v(), steps as int * (FX_SCALE as int));
        lemma_div_v_nonneg(t.v(), steps as int * (FX_SCALE as int));
    }
    let dt = match t.fx.cdiv(steps_fx) {
        Some(v) => v,
        None => {
            proof {
                assert(false);
            }
            Fx { m: 0 }
        },
    };
    let sqdt = dt.sqrt();
    let ss = match o.implied_volatility.fx.cmul(sqdt) {
        Some(v) => v,
        None => {
            return Err(GreeksError::MathError(MathErrorKind::Overflow));
        },
    };
    let sig2 = match o.implied_volatility.fx.cmul(o.implied_volatility.fx) {
        Some(v) => v,
        None => {
            return Err(GreeksError::MathError(MathErrorKind::Overflow));
        },
    };
    proof {
        lemma_mul_v_nonneg(sigv, sigv);
    }
    let sig2h = Fx { m: sig2.m / 2 };
    proof {
        assert(sig2h.m as int == tz_div(sig2.m as int, 2));
    }
    let rq = match o.risk_free_rate.csub(o.dividend_yield.fx) {
        Some(v) => v,
        None => {
            return Err(GreeksError::MathError(MathErrorKind::Overflow));
        },
    };
    let rqs = match rq.csub(sig2h) {
        Some(v) => v,
        None => {
            return Err(GreeksError::MathError(MathErrorKind::Overflow));
        },
    };
    let dd = match rqs.cmul(dt) {
        Some(v) => v,
        None => {
            return Err(GreeksError::MathError(MathErrorKind::Overflow));
        },
    };
    // switching probabilities, clamped into the unit interval
    let pu_raw = match process.lambda_up.fx.cmul(dt) {
        Some(v) => v,
        None => {
            return Err(GreeksError::MathError(MathErrorKind::Overflow));
        },
    };
    let pd_raw = match process.lambda_down.fx.cmul(dt) {
        Some(v) => v,
        None => {
            return Err(GreeksError::MathError(MathErrorKind::Overflow));
        },
    };
    let pu = if pu_raw.m < 0 {
        Fx { m: 0 }
    } else if pu_raw.m > FX_SCALE {
        Fx { m: FX_SCALE }
    } else {
        pu_raw
    };
    let pd = if pd_raw.m < 0 {
        Fx { m: 0 }
    } else if pd_raw.m > FX_SCALE {
        Fx { m: FX_SCALE }
    } else {
        pd_raw
    };
    let rt = match o.risk_free_rate.cmul(t.fx) {
        Some(v) => v,
        None => {
            return Err(GreeksError::MathError(MathErrorKind::Overflow));
        },
    };
    let disc = match rt.neg().exp() {
        Some(v) => v,
        None => {
            return Err(GreeksError::MathError(MathErrorKind::Overflow));
        },
    };
    let mut rng = LcgRng::new(seed);
    let mut sum: i128 = 0;
    let mut i: usize = 0;
    while i < paths
        invariant
            0 <= i <= paths,
            0 < paths <= MAX_MC_PATHS,
            0 < steps <= MAX_MC_STEPS,
            o.wf(),
            !(o.option_type matches OptionType::American),
            expiry_ok(o.expiration_date, now as int),
            sv == o.underlying_price.v(),
            kv == o.strike_price.v(),
            sigv == o.implied_volatility.v(),
            rv == o.risk_free_rate.m as int,
            qv == o.dividend_yield.v(),
            tv_all == years_v(expiry_days_v(o.expiration_date, now as int)),
            dd.wf(),
            ss.wf(),
            pu.wf(),
            pd.wf(),
            dd.m as int == mc_drift_dt_v(sigv, rv, qv, crate::binomial::bin_dt_v(tv_all,
                steps as int)),
            ss.m as int == fx_mul_v(sigv, fx_sqrt_v(crate::binomial::bin_dt_v(tv_all,
                steps as int))),
            pu.m as int == clamp_prob(fx_mul_v(process.lambda_up.v(),
                crate::binomial::bin_dt_v(tv_all, steps as int))),
            pd.m as int == clamp_prob(fx_mul_v(process.lambda_down.v(),
                crate::binomial::bin_dt_v(tv_all, steps as int))),
            ({
                let pz = tg_payoffs_v(o.option_style, kv, sv, dd.m as int, ss.m as int,
                    pu.m as int, pd.m as int, seed, i as nat, steps as nat);
                rng.state == pz.1 && sum == sum_ints(pz.0)
            }),
            0 <= sum <= i * FX_LIM,
        decreases paths - i,
    {
        let ghost state0: u64 = rng.state;
        let spot = match tg_run_path(o.underlying_price.fx, dd, ss, pu, pd, rng, steps) {
            Ok(v) => {
                rng = v.1;
                v.0
            },
            Err(e) => {
                proof {
                    assert(!tg_path_ok(sv, true, dd.m as int, ss.m as int, pu.m as int,
                        pd.m as int, state0, steps as nat));
                    assert(!tg_paths_ok(o.option_style, kv, sv, dd.m as int, ss.m as int,
                        pu.m as int, pd.m as int, seed, (i + 1) as nat, steps as nat));
                    if tg_paths_ok(o.option_style, kv, sv, dd.m as int, ss.m as int,
                        pu.m as int, pd.m as int, seed, paths as nat, steps as nat) {
                        lemma_tg_paths_ok_mono(o.option_style, kv, sv, dd.m as int,
                            ss.m as int, pu.m as int, pd.m as int, seed, (i + 1) as nat,
                            paths as nat, steps as nat);
                    }
                }
                return Err(e);
            },
        };
        let pay = o.intrinsic(Positive { fx: spot });
        proof {
            assert(0 <= pay.fx.m <= FX_LIM);
            assert(sum + pay.fx.m <= (i + 1) * (FX_LIM as int) && (i + 1) * (FX_LIM as int)
                <= 10_000_000 * (FX_LIM as int)) by (nonlinear_arith)
                requires
                    0 <= sum <= i * (FX_LIM as int),
                    0 <= pay.fx.m <= FX_LIM,
                    i < paths <= 10_000_000,
            ;
        }
        sum = sum + pay.fx.m;
        i = i + 1;
        proof {
            let pz = tg_payoffs_v(o.option_style, kv, sv, dd.m as int, ss.m as int,
                pu.m as int, pd.m as int, seed, i as nat, steps as nat);
            assert(pz.0.drop_last() =~= tg_payoffs_v(o.option_style, kv, sv, dd.m as int,
                ss.m as int, pu.m as int, pd.m as int, seed, (i - 1) as nat, steps as nat).0);
        }
    }
    let mean: i128 = ((sum as u128) / (paths as u128)) as i128;
    proof {
        assert(mean as int == tz_div(sum as int, paths as int));
        vstd::arithmetic::div_mod::lemma_div_is_ordered(sum as int, paths as int * (
            FX_LIM as int), paths as int);
        assert(paths as int * (FX_LIM as int) / (paths as int) == FX_LIM as int)
            by (nonlinear_arith)
            requires
                paths >= 1,
        ;
        vstd::arithmetic::div_mod::lemma_div_pos_is_pos(sum as int, paths as int);
    }
    let price = match disc.cmul(Fx { m: mean }) {
        Some(v) => v,
        None => {
            return Err(GreeksError::MathError(MathErrorKind::Overflow));
        },
    };
    Ok(price)
}

/// The transition rate the plain entry point uses for a side whose rate
/// is not given.
pub open spec fn tg_rate_or_default(given: Option<Fx>, default: int) -> int {
    match given {
        Some(l) => l.m as int,
        None => default,
    }
}

/// Telegraph-process price with the default step count, seed and, where a
/// rate is not given, the default transition rates, resolving a timestamp
/// expiration against the clock. A negative rate is rejected before
/// anything runs; on a day-count expiration the clock decides nothing and
/// the result is the one `price_telegraph_at` states, whatever the
/// instant.
pub fn price_telegraph(o: &Options, paths: usize, lambda_up: Option<Fx>, lambda_down: Option<
    Fx>) -> (r: Result<Fx, GreeksError>)
    requires
        o.wf(),
        lambda_up matches Some(l) ==> l.wf(),
        lambda_down matches Some(l) ==> l.wf(),
    ensures
        ({
            let s = o.underlying_price.v();
            let k = o.strike_price.v();
            let sig = o.implied_volatility.v();
            let rr = o.risk_free_rate.m as int;
            let q = o.dividend_yield.v();
            let lu = tg_rate_or_default(lambda_up, TELEGRAPH_LAMBDA_UP as int);
            let ld = tg_rate_or_default(lambda_down, TELEGRAPH_LAMBDA_DOWN as int);
            &&& (lu < 0 || ld < 0 ==> (r matches Err(GreeksError::InputError(
                InputErrorKind::InvalidRate { .. }))))
            &&& (lu >= 0 && ld >= 0 ==> (o.expiration_date matches ExpirationDate::Days(dexp)
                ==> {
                let t = years_v(dexp.v());
                let dt = crate::binomial::bin_dt_v(t, TELEGRAPH_STEPS as int);
                let dd = mc_drift_dt_v(sig, rr, q, dt);
                let ss = fx_mul_v(sig, fx_sqrt_v(dt));
                let pu = clamp_prob(fx_mul_v(lu, dt));
                let pd = clamp_prob(fx_mul_v(ld, dt));
                let disc = exp_v(-fx_mul_v(rr, t));
                let pz = tg_payoffs_v(o.option_style, k, s, dd, ss, pu, pd,
                    crate::monte_carlo::DEFAULT_SIM_SEED, paths as nat,
                    TELEGRAPH_STEPS as nat);
                &&& ((o.option_type matches OptionType::American) || paths == 0 || paths
                    > MAX_MC_PATHS <==> (r matches Err(GreeksError::MathError(
                    MathErrorKind::InvalidDomain { .. }))))
                &&& (!(o.option_type matches OptionType::American) && 0 < paths
                    <= MAX_MC_PATHS && tg_setup_ok(sig, rr, q, lu, ld, t,
                    TELEGRAPH_STEPS as int) && tg_paths_ok(o.option_style, k, s, dd, ss, pu,
                    pd, crate::monte_carlo::DEFAULT_SIM_SEED, paths as nat,
                    TELEGRAPH_STEPS as nat) && tg_final_ok(disc, pz.0, paths as int)
                    ==> r is Ok)
                &&& (r matches Ok(v) ==> v.m == fx_mul_v(disc, tz_div(sum_ints(pz.0),
                    paths as int)))
            }))
        }),
        r matches Ok(v) ==> v.wf(),
        r matches Err(e) ==> e.wf(),
{
    let lu = match lambda_up {
        Some(l) => l,
        None => Fx { m: TELEGRAPH_LAMBDA_UP },
    };
    let ld = match lambda_down {
        Some(l) => l,
        None => Fx { m: TELEGRAPH_LAMBDA_DOWN },
    };
    let process = match TelegraphProcess::new(lu, ld) {
        Ok(p) => p,
        Err(e) => {
            return Err(e);
        },
    };
    let now = crate::model::now_secs();
    price_telegraph_at(o, paths, TELEGRAPH_STEPS, process,
        crate::monte_carlo::DEFAULT_SIM_SEED, now)
}

/// Number of entries among the first `n` of `s` that are non-negative
/// (time spent in the up state).
pub open spec fn count_up(s: Seq<int>, n: nat) -> int
    decreases n,
{
    if n == 0 {
        0
    } else {
        count_up(s, (n - 1) as nat) + (if s[n - 1] >= 0 {
            1int
        } else {
            0int
        })
    }
}

/// Number of sign changes from up to down among consecutive pairs in the
/// first `n` entries.
pub open spec fn count_up_down(s: Seq<int>, n: nat) -> int
    decreases n,
{
    if n <= 1 {
        0
    } else {
        count_up_down(s, (n - 1) as nat) + (if s[n - 2] >= 0 && s[n - 1] < 0 {
            1int
        } else {
            0int
        })
    }
}

/// Number of sign changes from down to up among consecutive pairs in the
/// first `n` entries.
pub open spec fn count_down_up(s: Seq<int>, n: nat) -> int
    decreases n,
{
    if n <= 1 {
        0
    } else {
        count_down_up(s, (n - 1) as nat) + (if s[n - 2] < 0 && s[n - 1] >= 0 {
            1int
        } else {
            0int
        })
    }
}

/// Estimates the transition rates of a telegraph process from a return
/// series, by the method of moments on the observed sign flips: the rate
/// of leaving the up state is the number of up-to-down flips over the
/// number of observations in the up state, per observation interval, and
/// symmetrically for the down state. The last observation has no
/// successor, so it counts toward no state.
///
/// Needs at least two observations and at least one observation in each
/// state among the first all-but-one; otherwise the frequency is
/// undefined and the call fails with a division by zero.
pub fn estimate_telegraph_parameters(series: &Vec<Fx>) -> (r: Result<
    TelegraphProcess,
    GreeksError,
>)
    requires
        forall|i: int| 0 <= i < series@.len() ==> (#[trigger] series@[i]).wf(),
        series@.len() <= 1_000_000,
    ensures
        ({
            let s = series@.map_values(|f: Fx| f.m as int);
            let m = (series@.len() - 1) as nat;
            let nup = count_up(s, m);
            let ndown = m - nup;
            &&& (r is Ok <==> series@.len() >= 2 && nup >= 1 && ndown >= 1)
            &&& (r matches Ok(p) ==> {
                &&& p.lambda_up.wf() && p.lambda_down.wf()
                &&& p.lambda_up.v() == fx_div_v(count_up_down(s, series@.len() as nat) * (
                    FX_SCALE as int), nup * (FX_SCALE as int))
                &&& p.lambda_down.v() == fx_div_v(count_down_up(s, series@.len() as nat) * (
                    FX_SCALE as int), ndown * (FX_SCALE as int))
            })
        }),
        r matches Err(e) ==> e.wf(),
{
    let ghost sq: Seq<int> = series@.map_values(|f: Fx| f.m as int);
    if series.len() < 2 {
        return Err(GreeksError::MathError(MathErrorKind::DivisionByZero));
    }
    let m: usize = series.len() - 1;
    let mut nup: usize = 0;
    let mut cud: usize = 0;
    let mut cdu: usize = 0;
    let mut i: usize = 0;
    while i < m
        invariant
            0 <= i <= m,
            m == series@.len() - 1,
            2 <= series@.len() <= 1_000_000,
            sq == series@.map_values(|f: Fx| f.m as int),
            nup == count_up(sq, i as nat),
            0 <= nup <= i,
            cud == count_up_down(sq, (i + 1) as nat),
            cdu == count_down_up(sq, (i + 1) as nat),
            0 <= cud <= i,
            0 <= cdu <= i,
        decreases m - i,
    {
        if series[i].m >= 0 {
            nup = nup + 1;
        }
        if series[i].m >= 0 && series[i + 1].m < 0 {
            cud = cud + 1;
        }
        if series[i].m < 0 && series[i + 1].m >= 0 {
            cdu = cdu + 1;
        }
        i = i + 1;
    }
    let ndown: usize = m - nup;
    if nup == 0 || ndown == 0 {
        return Err(GreeksError::MathError(MathErrorKind::DivisionByZero));
    }
    let cud_fx = Fx { m: (cud as i128) * FX_SCALE };
    let nup_fx = Fx { m: (nup as i128) * FX_SCALE };
    let cdu_fx = Fx { m: (cdu as i128) * FX_SCALE };
    let ndown_fx = Fx { m: (ndown as i128) * FX_SCALE };
    proof {
        lemma_div_v_small(cud_fx.m as int, nup_fx.m as int);
        lemma_div_v_nonneg(cud_fx.m as int, nup_fx.m as int);
        lemma_div_v_small(cdu_fx.m as int, ndown_fx.m as int);
        lemma_div_v_nonneg(cdu_fx.m as int, ndown_fx.m as int);
    }
    let lu = match cud_fx.cdiv(nup_fx) {
        Some(v) => v,
        None => {
            proof {
                assert(false);
            }
            Fx { m: 0 }
        },
    };
    let ld = match cdu_fx.cdiv(ndown_fx) {
        Some(v) => v,
        None => {
            proof {
                assert(false);
            }
            Fx { m: 0 }
        },
    };
    Ok(TelegraphProcess {
        lambda_up: Positive { fx: lu },
        lambda_down: Positive { fx: ld },
    })
}

} // verus!
