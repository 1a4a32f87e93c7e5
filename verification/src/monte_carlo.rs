//! Monte Carlo pricing under geometric Brownian motion.
//!
//! Each path multiplies the spot by `e^((r - q - sigma^2/2) dt + sigma
//! sqrt(dt) z)` for every step, with `z` drawn from the explicit generator;
//! the price is the discounted average terminal payoff, and the standard
//! error — the payoff standard deviation over the square root of the path
//! count — is returned beside it so a caller can judge the precision.
//! Early exercise has no closed simulation here: an American-style
//! contract is rejected rather than silently approximated.

use vstd::prelude::*;

use crate::error::{GreeksError, MathErrorKind};
use crate::fixed::{
    fx_abs, fx_in_range, fx_mul_v, lemma_div_v_nonneg, lemma_div_v_small, lemma_mul_v_nonneg,
    tz_div, Fx,
    FX_LIM, FX_SCALE,
};
use crate::model::{
    expiry_days_v, expiry_ok, intrinsic_v, years_v, ExpirationDate, Options, OptionStyle,
    OptionType,
};
use crate::positive::Positive;
use crate::rng::{normal_of, normal_state_of, LcgRng};
use crate::special::{exp_v, fx_sqrt_v, EXP_ARG_MAX};

verus! {

/// Largest number of simulated paths.
pub const MAX_MC_PATHS: usize = 10_000_000;

/// Largest number of steps per path.
pub const MAX_MC_STEPS: usize = 1_000_000;

/// Divisor that rescales payoff deviations before squaring, so the sum of
/// squares stays representable over the largest path count.
pub const DEV_SCALE: i128 = 1_000_000;

/// Mantissa of the per-step drift `(r - q - sigma^2 / 2) dt`.
pub open spec fn mc_drift_dt_v(sig: int, r: int, q: int, dt: int) -> int {
    fx_mul_v(r - q - tz_div(fx_mul_v(sig, sig), 2), dt)
}

/// One simulation step from `spot` with drift `dd`, diffusion scale `ss`
/// and generator state `state`: the new spot and the state left behind.
#[verifier::opaque]
pub open spec fn mc_step_v(spot: int, dd: int, ss: int, state: u64) -> (int, u64) {
    (
        fx_mul_v(spot, exp_v(dd + fx_mul_v(ss, normal_of(state)))),
        normal_state_of(state),
    )
}

/// Terminal spot after `steps` simulation steps from `spot`.
pub open spec fn mc_terminal_v(spot: int, dd: int, ss: int, state: u64, steps: nat) -> (
    int,
    u64,
)
    decreases steps,
{
    if steps == 0 {
        (spot, state)
    } else {
        let p = mc_terminal_v(spot, dd, ss, state, (steps - 1) as nat);
        mc_step_v(p.0, dd, ss, p.1)
    }
}

/// Payoff mantissas of `i` simulated paths, in order, and the state left
/// behind.
pub open spec fn mc_payoffs_v(style: OptionStyle, k: int, spot: int, dd: int, ss: int,
    state: u64, i: nat, steps: nat) -> (Seq<int>, u64)
    decreases i,
{
    if i == 0 {
        (Seq::<int>::empty(), state)
    } else {
        let p = mc_payoffs_v(style, k, spot, dd, ss, state, (i - 1) as nat, steps);
        let t = mc_terminal_v(spot, dd, ss, p.1, steps);
        (p.0.push(intrinsic_v(style, t.0, k)), t.1)
    }
}

/// Sum of a sequence of integers.
pub open spec fn sum_ints(s: Seq<int>) -> int
    decreases s.len(),
{
    if s.len() == 0 {
        0
    } else {
        sum_ints(s.drop_last()) + s.last()
    }
}

/// Sum of squared, rescaled deviations from `mean`.
pub open spec fn sumsq_devs(s: Seq<int>, mean: int) -> int
    decreases s.len(),
{
    if s.len() == 0 {
        0
    } else {
        let d = tz_div(s.last() - mean, DEV_SCALE as int);
        sumsq_devs(s.drop_last(), mean) + d * d
    }
}

/// Mantissa of the Monte Carlo price: the discounted mean payoff.
pub open spec fn mc_price_v(disc: int, payoffs: Seq<int>, m: int) -> int {
    fx_mul_v(disc, tz_div(sum_ints(payoffs), m))
}

/// Mantissa of the standard error: the square root of the payoff variance
/// over the path count.
pub open spec fn mc_se_v(payoffs: Seq<int>, m: int) -> int {
    fx_sqrt_v(tz_div(tz_div(sumsq_devs(payoffs, tz_div(sum_ints(payoffs), m)), m), m))
}

/// The setup quantities of a simulation stay representable: diffusion
/// scale, squared volatility, drift pieces, and the discount exponent.
pub open spec fn mc_setup_ok(sig: int, r: int, q: int, t: int, steps: int) -> bool {
    let dt = crate::binomial::bin_dt_v(t, steps);
    let sig2 = fx_mul_v(sig, sig);
    let sig2h = tz_div(sig2, 2);
    let rt = fx_mul_v(r, t);
    &&& fx_in_range(fx_mul_v(sig, fx_sqrt_v(dt)))
    &&& fx_in_range(sig2)
    &&& fx_in_range(r - q)
    &&& fx_in_range(r - q - sig2h)
    &&& fx_in_range(fx_mul_v(r - q - sig2h, dt))
    &&& fx_in_range(rt)
    &&& -rt <= EXP_ARG_MAX
}

/// One simulation step stays representable: the diffusion shock, the
/// exponent (which the exponential must also accept), and the new spot.
#[verifier::opaque]
pub open spec fn mc_step_ok(spot: int, dd: int, ss: int, state: u64) -> bool {
    let shock = fx_mul_v(ss, normal_of(state));
    &&& fx_in_range(shock)
    &&& fx_in_range(dd + shock)
    &&& dd + shock <= EXP_ARG_MAX
    &&& fx_in_range(fx_mul_v(spot, exp_v(dd + shock)))
}

/// Every step along one path stays representable.
pub open spec fn mc_path_ok(spot: int, dd: int, ss: int, state: u64, steps: nat) -> bool
    decreases steps,
{
    if steps == 0 {
        true
    } else {
        let p = mc_terminal_v(spot, dd, ss, state, (steps - 1) as nat);
        mc_path_ok(spot, dd, ss, state, (steps - 1) as nat) && mc_step_ok(p.0, dd, ss, p.1)
    }
}

/// Every step of every path stays representable.
pub open spec fn mc_paths_ok(style: OptionStyle, k: int, spot: int, dd: int, ss: int,
    state: u64, i: nat, steps: nat) -> bool
    decreases i,
{
    if i == 0 {
        true
    } else {
        let p = mc_payoffs_v(style, k, spot, dd, ss, state, (i - 1) as nat, steps);
        mc_paths_ok(style, k, spot, dd, ss, state, (i - 1) as nat, steps) && mc_path_ok(spot,
            dd, ss, p.1, steps)
    }
}

/// The discounted mean and the variance of the mean stay representable.
pub open spec fn mc_final_ok(disc: int, payoffs: Seq<int>, m: int) -> bool {
    &&& fx_in_range(fx_mul_v(disc, tz_div(sum_ints(payoffs), m)))
    &&& tz_div(tz_div(sumsq_devs(payoffs, tz_div(sum_ints(payoffs), m)), m), m)
        <= FX_LIM as int
}

/// A path that stays representable does so on every prefix of its steps.
proof fn lemma_mc_path_ok_mono(spot: int, dd: int, ss: int, state: u64, n1: nat, n2: nat)
    requires
        n1 <= n2,
        mc_path_ok(spot, dd, ss, state, n2),
    ensures
        mc_path_ok(spot, dd, ss, state, n1),
    decreases n2,
{
    if n1 < n2 {
        lemma_mc_path_ok_mono(spot, dd, ss, state, n1, (n2 - 1) as nat);
    }
}

/// A simulation that stays representable does so on every prefix of its
/// paths.
proof fn lemma_mc_paths_ok_mono(style: OptionStyle, k: int, spot: int, dd: int, ss: int,
    state: u64, i1: nat, i2: nat, steps: nat)
    requires
        i1 <= i2,
        mc_paths_ok(style, k, spot, dd, ss, state, i2, steps),
    ensures
        mc_paths_ok(style, k, spot, dd, ss, state, i1, steps),
    decreases i2,
{
    if i1 < i2 {
        lemma_mc_paths_ok_mono(style, k, spot, dd, ss, state, i1, (i2 - 1) as nat, steps);
    }
}

/// Signed truncating division by `DEV_SCALE`.
fn dev_scaled(x: i128) -> (r: i128)
    requires
        -2 * FX_LIM <= x <= 2 * FX_LIM,
    ensures
        r as int == tz_div(x as int, DEV_SCALE as int),
        -(2 * (FX_LIM as int) / (DEV_SCALE as int)) <= r <= 2 * (FX_LIM as int) / (
            DEV_SCALE as int),
{
    let mag: u128 = if x < 0 {
        (-x) as u128
    } else {
        x as u128
    };
    let q: u128 = mag / (DEV_SCALE as u128);
    proof {
        crate::fixed::lemma_tz_div_abs(x as int, DEV_SCALE as int);
        assert(fx_abs(x as int) / (DEV_SCALE as int) == q as int);
        assert(tz_div(x as int, DEV_SCALE as int) == crate::fixed::fx_sgn(x as int) * (
            q as int) && (x < 0 ==> tz_div(x as int, DEV_SCALE as int) == -(q as int)) && (x
            >= 0 ==> tz_div(x as int, DEV_SCALE as int) == q as int)) by (nonlinear_arith)
            requires
                q as int == fx_abs(x as int) / (DEV_SCALE as int),
                tz_div(x as int, DEV_SCALE as int) == crate::fixed::fx_sgn(x as int) * (fx_abs(
                    x as int) / (DEV_SCALE as int)),
                q >= 0,
        ;
        vstd::arithmetic::div_mod::lemma_div_is_ordered(fx_abs(x as int), 2 * (FX_LIM as int),
            DEV_SCALE as int);
    }
    if x < 0 {
        -(q as i128)
    } else {
        q as i128
    }
}

/// Simulates one path of `steps` steps from `spot0`, advancing the
/// generator; succeeds exactly when every step stays representable.
#[verifier::rlimit(80)]
fn mc_run_path(spot0: Fx, dd: Fx, ss: Fx, rng0: LcgRng, steps: usize) -> (r: Result<
    (Fx, LcgRng),
    GreeksError,
>)
    requires
        spot0.wf(),
        spot0.m >= 0,
        dd.wf(),
        ss.wf(),
    ensures
        r is Ok <==> mc_path_ok(spot0.m as int, dd.m as int, ss.m as int, rng0.state,
            steps as nat),
        r matches Ok(term) ==> {
            let tm = mc_terminal_v(spot0.m as int, dd.m as int, ss.m as int, rng0.state,
                steps as nat);
            &&& term.0.wf()
            &&& term.0.m >= 0
            &&& term.0.m == tm.0
            &&& term.1.state == tm.1
        },
        r matches Err(e) ==> e == GreeksError::MathError(MathErrorKind::Overflow),
{
    let ghost state0: u64 = rng0.state;
    let mut rng = rng0;
    let mut spot = spot0;
    let mut st: usize = 0;
    while st < steps
        invariant
            0 <= st <= steps,
            spot0.wf(),
            spot0.m >= 0,
            dd.wf(),
            ss.wf(),
            spot.wf(),
            spot.m >= 0,
            state0 == rng0.state,
            mc_path_ok(spot0.m as int, dd.m as int, ss.m as int, state0, st as nat),
            ({
                let tm = mc_terminal_v(spot0.m as int, dd.m as int, ss.m as int, state0,
                    st as nat);
                spot.m == tm.0 && rng.state == tm.1
            }),
        decreases steps - st,
    {
        let ghost st_pre: u64 = rng.state;
        let z = rng.next_normal();
        let diffu = match ss.cmul(z) {
            Some(v) => v,
            None => {
                proof {
                    reveal(mc_step_ok);
                    lemma_mc_path_bad(spot0.m as int, dd.m as int, ss.m as int, state0,
                        st_pre, spot.m as int, st as nat, steps as nat);
                }
                return Err(GreeksError::MathError(MathErrorKind::Overflow));
            },
        };
        let arg = match dd.cadd(diffu) {
            Some(v) => v,
            None => {
                proof {
                    reveal(mc_step_ok);
                    lemma_mc_path_bad(spot0.m as int, dd.m as int, ss.m as int, state0,
                        st_pre, spot.m as int, st as nat, steps as nat);
                }
                return Err(GreeksError::MathError(MathErrorKind::Overflow));
            },
        };
        let f = match arg.exp() {
            Some(v) => v,
            None => {
                proof {
                    reveal(mc_step_ok);
                    lemma_mc_path_bad(spot0.m as int, dd.m as int, ss.m as int, state0,
                        st_pre, spot.m as int, st as nat, steps as nat);
                }
                return Err(GreeksError::MathError(MathErrorKind::Overflow));
            },
        };
        let next = match spot.cmul(f) {
            Some(v) => v,
            None => {
                proof {
                    reveal(mc_step_ok);
                    lemma_mc_path_bad(spot0.m as int, dd.m as int, ss.m as int, state0,
                        st_pre, spot.m as int, st as nat, steps as nat);
                }
                return Err(GreeksError::MathError(MathErrorKind::Overflow));
            },
        };
        proof {
            reveal(mc_step_v);
            reveal(mc_step_ok);
            lemma_mul_v_nonneg(spot.m as int, f.m as int);
        }
        spot = next;
        st = st + 1;
    }
    Ok((spot, rng))
}

/// A step that leaves the representable range condemns the whole path.
proof fn lemma_mc_path_bad(spot0: int, dd: int, ss: int, state0: u64, st_pre: u64, spot: int,
    st: nat, steps: nat)
    requires
        st < steps,
        spot == mc_terminal_v(spot0, dd, ss, state0, st).0,
        st_pre == mc_terminal_v(spot0, dd, ss, state0, st).1,
        !mc_step_ok(spot, dd, ss, st_pre),
    ensures
        !mc_path_ok(spot0, dd, ss, state0, steps),
{
    assert(!mc_path_ok(spot0, dd, ss, state0, (st + 1) as nat));
    if mc_path_ok(spot0, dd, ss, state0, steps) {
        lemma_mc_path_ok_mono(spot0, dd, ss, state0, (st + 1) as nat, steps);
    }
}

/// Monte Carlo price and standard error of one contract of the leg, from
/// `paths` simulated paths of `steps` steps each, driven by the generator
/// seeded with `seed` and seen from instant `now`.
#[verifier::rlimit(100)]
pub fn price_monte_carlo_at(o: &Options, paths: usize, steps: usize, seed: u64, now: i64) -> (r:
    Result<(Fx, Fx), GreeksError>)
    requires
        o.wf(),
    ensures
        ({
            let s = o.underlying_price.v();
            let k = o.strike_price.v();
            let t = years_v(expiry_days_v(o.expiration_date, now as int));
            let sig = o.implied_volatility.v();
            let rr = o.risk_free_rate.m as int;
            let q = o.dividend_yield.v();
            let dt = crate::binomial::bin_dt_v(t, steps as int);
            let dd = mc_drift_dt_v(sig, rr, q, dt);
            let ss = fx_mul_v(sig, fx_sqrt_v(dt));
            let disc = exp_v(-fx_mul_v(rr, t));
            let pz = mc_payoffs_v(o.option_style, k, s, dd, ss, seed, paths as nat,
                steps as nat);
            &&& ((o.option_type matches OptionType::American) || paths == 0 || paths
                > MAX_MC_PATHS || steps == 0 || steps > MAX_MC_STEPS <==> (r matches Err(
                GreeksError::MathError(MathErrorKind::InvalidDomain { .. }))))
            &&& (r is Ok ==> !(o.option_type matches OptionType::American) && 0 < paths
                <= MAX_MC_PATHS && 0 < steps <= MAX_MC_STEPS && expiry_ok(o.expiration_date,
                now as int))
            &&& (!(o.option_type matches OptionType::American) && 0 < paths <= MAX_MC_PATHS
                && 0 < steps <= MAX_MC_STEPS && expiry_ok(o.expiration_date, now as int)
                && mc_setup_ok(sig, rr, q, t, steps as int) && mc_paths_ok(o.option_style, k,
                s, dd, ss, seed, paths as nat, steps as nat) && mc_final_ok(disc, pz.0,
                paths as int) ==> r is Ok)
            &&& (r matches Ok(pr) ==> {
                &&& pr.0.wf()
                &&& pr.1.wf()
                &&& pr.0.m == mc_price_v(disc, pz.0, paths as int)
                &&& pr.1.m == mc_se_v(pz.0, paths as int)
            })
        }),
        r matches Err(e) ==> e.wf(),
{
    let ghost sv: int = o.underlying_price.v();
    let ghost kv: int = o.strike_price.v();
    let ghost sigv: int = o.implied_volatility.v();
    let ghost rv: int = o.risk_free_rate.m as int;
    let ghost qv: int = o.dividend_yield.v();
    let ghost tv_all: int = years_v(expiry_days_v(o.expiration_date, now as int));
    if matches!(o.option_type, OptionType::American) {
        return Err(GreeksError::MathError(MathErrorKind::InvalidDomain {
            value: Fx { m: 0 },
            reason: String::from_str("Early exercise is not supported by simulation"),
        }));
    }
    if paths == 0 || paths > MAX_MC_PATHS || steps == 0 || steps > MAX_MC_STEPS {
        return Err(GreeksError::MathError(MathErrorKind::InvalidDomain {
            value: Fx { m: 0 },
            reason: String::from_str("Path or step count outside the supported range"),
        }));
    }
    let t = match o.time_years_at(now) {
        Ok(v) => v,
        Err(e) => {
            return Err(e);
        },
    };
    let steps_fx = Fx { m: (steps as i128) * FX_SCALE };
    proof {
        lemma_div_v_small(t.v(), steps as int * (FX_SCALE as int));
        lemma_div_v_nonneg(t.v(), steps as int * (FX_SCALE as int));
    }
    let dt = match t.fx.cdiv(steps_fx) {
        Some(v) => v,
        None => {
            proof {
                assert(false);
            }
            Fx { m: 0 }
        },
    };
    let sqdt = dt.sqrt();
    let ss = match o.implied_volatility.fx.cmul(sqdt) {
        Some(v) => v,
        None => {
            return Err(GreeksError::MathError(MathErrorKind::Overflow));
        },
    };
    let sig2 = match o.implied_volatility.fx.cmul(o.implied_volatility.fx) {
        Some(v) => v,
        None => {
            return Err(GreeksError::MathError(MathErrorKind::Overflow));
        },
    };
    proof {
        lemma_mul_v_nonneg(sigv, sigv);
    }
    let sig2h = Fx { m: sig2.m / 2 };
    proof {
        assert(sig2h.m as int == tz_div(sig2.m as int, 2));
    }
    let rq = match o.risk_free_rate.csub(o.dividend_yield.fx) {
        Some(v) => v,
        None => {
            return Err(GreeksError::MathError(MathErrorKind::Overflow));
        },
    };
    let rqs = match rq.csub(sig2h) {
        Some(v) => v,
        None => {
            return Err(GreeksError::MathError(MathErrorKind::Overflow));
        },
    };
    let dd = match rqs.cmul(dt) {
        Some(v) => v,
        None => {
            return Err(GreeksError::MathError(MathErrorKind::Overflow));
        },
    };
    let rt = match o.risk_free_rate.cmul(t.fx) {
        Some(v) => v,
        None => {
            return Err(GreeksError::MathError(MathErrorKind::Overflow));
        },
    };
    let disc = match rt.neg().exp() {
        Some(v) => v,
        None => {
            return Err(GreeksError::MathError(MathErrorKind::Overflow));
        },
    };
    // simulate the paths
    let mut rng = LcgRng::new(seed);
    let mut payoffs: Vec<Fx> = Vec::new();
    let mut sum: i128 = 0;
    let mut i: usize = 0;
    proof {
        assert(mc_payoffs_v(o.option_style, kv, sv, dd.m as int, ss.m as int, seed, 0,
            steps as nat).0 =~= Seq::<int>::empty());
    }
    while i < paths
        invariant
            0 <= i <= paths,
            0 < paths <= MAX_MC_PATHS,
            0 < steps <= MAX_MC_STEPS,
            o.wf(),
            !(o.option_type matches OptionType::American),
            expiry_ok(o.expiration_date, now as int),
            sv == o.underlying_price.v(),
            kv == o.strike_price.v(),
            sigv == o.implied_volatility.v(),
            rv == o.risk_free_rate.m as int,
            qv == o.dividend_yield.v(),
            tv_all == years_v(expiry_days_v(o.expiration_date, now as int)),
            dd.wf(),
            ss.wf(),
            dd.m as int == mc_drift_dt_v(sigv, rv, qv, crate::binomial::bin_dt_v(tv_all,
                steps as int)),
            ss.m as int == fx_mul_v(sigv, fx_sqrt_v(crate::binomial::bin_dt_v(tv_all,
                steps as int))),
            payoffs@.len() == i,
            ({
                let pz = mc_payoffs_v(o.option_style, kv, sv, dd.m as int, ss.m as int, seed,
                    i as nat, steps as nat);
                &&& rng.state == pz.1
                &&& payoffs@.map_values(|f: Fx| f.m as int) =~= pz.0
            }),
            sum == sum_ints(mc_payoffs_v(o.option_style, kv, sv, dd.m as int, ss.m as int,
                seed, i as nat, steps as nat).0),
            0 <= sum <= i * FX_LIM,
            forall|jj: int| 0 <= jj < i ==> 0 <= (#[trigger] payoffs@[jj]).m <= FX_LIM,
        decreases paths - i,
    {
        let ghost state0: u64 = rng.state;
        let spot = match mc_run_path(o.underlying_price.fx, dd, ss, rng, steps) {
            Ok(v) => {
                rng = v.1;
                v.0
            },
            Err(e) => {
                proof {
                    assert(!mc_path_ok(sv, dd.m as int, ss.m as int, state0, steps as nat));
                    assert(!mc_paths_ok(o.option_style, kv, sv, dd.m as int, ss.m as int,
                        seed, (i + 1) as nat, steps as nat));
                    if mc_paths_ok(o.option_style, kv, sv, dd.m as int, ss.m as int, seed,
                        paths as nat, steps as nat) {
                        lemma_mc_paths_ok_mono(o.option_style, kv, sv, dd.m as int,
                            ss.m as int, seed, (i + 1) as nat, paths as nat, steps as nat);
                    }
                }
                return Err(e);
            },
        };
        let pay = o.intrinsic(Positive { fx: spot });
        proof {
            assert(0 <= pay.fx.m <= FX_LIM);
            assert(sum + pay.fx.m <= (i + 1) * (FX_LIM as int) && (i + 1) * (FX_LIM as int)
                <= 10_000_000 * (FX_LIM as int)) by (nonlinear_arith)
                requires
                    0 <= sum <= i * (FX_LIM as int),
                    0 <= pay.fx.m <= FX_LIM,
                    i < paths <= 10_000_000,
            ;
        }
        payoffs.push(pay.fx);
        sum = sum + pay.fx.m;
        i = i + 1;
        proof {
            let pz = mc_payoffs_v(o.option_style, kv, sv, dd.m as int, ss.m as int, seed,
                i as nat, steps as nat);
            assert(payoffs@.map_values(|f: Fx| f.m as int) =~= pz.0);
            assert(pz.0.drop_last() =~= mc_payoffs_v(o.option_style, kv, sv, dd.m as int,
                ss.m as int, seed, (i - 1) as nat, steps as nat).0);
        }
    }
    // discounted mean
    let m128: u128 = paths as u128;
    let mean: i128 = ((sum as u128) / m128) as i128;
    proof {
        assert(mean as int == tz_div(sum as int, paths as int));
        vstd::arithmetic::div_mod::lemma_div_is_ordered(sum as int, paths as int * (
            FX_LIM as int), paths as int);
        assert(paths as int * (FX_LIM as int) / (paths as int) == FX_LIM as int)
            by (nonlinear_arith)
            requires
                paths >= 1,
        ;
        vstd::arithmetic::div_mod::lemma_div_pos_is_pos(sum as int, paths as int);
    }
    let price = match disc.cmul(Fx { m: mean }) {
        Some(v) => v,
        None => {
            return Err(GreeksError::MathError(MathErrorKind::Overflow));
        },
    };
    // standard error
    let mut ssq: i128 = 0;
    let mut j: usize = 0;
    while j < paths
        invariant
            0 <= j <= paths,
            0 < paths <= MAX_MC_PATHS,
            payoffs@.len() == paths,
            mean >= 0,
            mean <= FX_LIM,
            forall|jj: int| 0 <= jj < paths ==> 0 <= (#[trigger] payoffs@[jj]).m <= FX_LIM,
            ssq == sumsq_devs(payoffs@.map_values(|f: Fx| f.m as int).take(j as int),
                mean as int),
            0 <= ssq <= j * ((2 * (FX_LIM as int) / (DEV_SCALE as int)) * (2 * (
                FX_LIM as int) / (DEV_SCALE as int))),
        decreases paths - j,
    {
        let dev: i128 = payoffs[j].m - mean;
        let d6 = dev_scaled(dev);
        proof {
            assert(d6 * d6 <= (2 * (FX_LIM as int) / (DEV_SCALE as int)) * (2 * (
                FX_LIM as int) / (DEV_SCALE as int)) && d6 * d6 >= 0) by (nonlinear_arith)
                requires
                    -(2 * (FX_LIM as int) / (DEV_SCALE as int)) <= d6 <= 2 * (FX_LIM as int)
                        / (DEV_SCALE as int),
            ;
            let full = payoffs@.map_values(|f: Fx| f.m as int);
            assert(full.take(j as int + 1).drop_last() =~= full.take(j as int));
            assert(full.take(j as int + 1).last() == full[j as int]);
        }
        proof {
            let cap = 2 * (FX_LIM as int) / (DEV_SCALE as int);
            assert(cap == 20_000_000_000_000);
            assert(ssq + d6 * d6 <= (j + 1) * (cap * cap) && ssq + d6 * d6
                <= 4_000_000_000_000_000_000_000_000_000_000_000int) by (nonlinear_arith)
                requires
                    0 <= ssq <= j * (cap * cap),
                    0 <= d6 * d6 <= cap * cap,
                    j < paths <= 10_000_000,
                    cap == 20_000_000_000_000,
            ;
        }
        ssq = ssq + d6 * d6;
        j = j + 1;
    }
    proof {
        assert(payoffs@.map_values(|f: Fx| f.m as int).take(paths as int) =~= payoffs@
            .map_values(|f: Fx| f.m as int));
    }
    let var: u128 = (ssq as u128) / m128;
    let sem: u128 = var / m128;
    proof {
        assert(var as int == tz_div(ssq as int, paths as int));
        assert(sem as int == tz_div(var as int, paths as int));
    }
    if sem > FX_LIM as u128 {
        return Err(GreeksError::MathError(MathErrorKind::Overflow));
    }
    let se = Fx { m: sem as i128 }.sqrt();
    Ok((price, se))
}

/// Seed the plain pricing entry points hand to the generator, so repeated
/// runs agree.
pub const DEFAULT_SIM_SEED: u64 = 0x5EED;

/// Monte Carlo price and standard error with the default seed, resolving
/// a timestamp expiration against the clock. On a day-count expiration
/// the clock decides nothing and the result is the one
/// `price_monte_carlo_at` states, whatever the instant.
pub fn price_monte_carlo(o: &Options, paths: usize, steps: usize) -> (r: Result<
    (Fx, Fx),
    GreeksError,
>)
    requires
        o.wf(),
    ensures
        ({
            let s = o.underlying_price.v();
            let k = o.strike_price.v();
            let sig = o.implied_volatility.v();
            let rr = o.risk_free_rate.m as int;
            let q = o.dividend_yield.v();
            o.expiration_date matches ExpirationDate::Days(dexp) ==> {
                let t = years_v(dexp.v());
                let dt = crate::binomial::bin_dt_v(t, steps as int);
                let dd = mc_drift_dt_v(sig, rr, q, dt);
                let ss = fx_mul_v(sig, fx_sqrt_v(dt));
                let disc = exp_v(-fx_mul_v(rr, t));
                let pz = mc_payoffs_v(o.option_style, k, s, dd, ss, DEFAULT_SIM_SEED,
                    paths as nat, steps as nat);
                &&& ((o.option_type matches OptionType::American) || paths == 0 || paths
                    > MAX_MC_PATHS || steps == 0 || steps > MAX_MC_STEPS <==> (r matches Err(
                    GreeksError::MathError(MathErrorKind::InvalidDomain { .. }))))
                &&& (!(o.option_type matches OptionType::American) && 0 < paths
                    <= MAX_MC_PATHS && 0 < steps <= MAX_MC_STEPS && mc_setup_ok(sig, rr, q,
                    t, steps as int) && mc_paths_ok(o.option_style, k, s, dd, ss,
                    DEFAULT_SIM_SEED, paths as nat, steps as nat) && mc_final_ok(disc, pz.0,
                    paths as int) ==> r is Ok)
                &&& (r matches Ok(pr) ==> {
                    &&& pr.0.m == mc_price_v(disc, pz.0, paths as int)
                    &&& pr.1.m == mc_se_v(pz.0, paths as int)
                })
            }
        }),
        r matches Ok(pr) ==> pr.0.wf() && pr.1.wf(),
        r matches Err(e) ==> e.wf(),
{
    let now = crate::model::now_secs();
    price_monte_carlo_at(o, paths, steps, DEFAULT_SIM_SEED, now)
}

} // verus!
