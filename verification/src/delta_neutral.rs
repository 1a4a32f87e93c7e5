//! Net Greeks of a multi-leg strategy and the trades that restore delta
//! neutrality.
//!
//! Aggregation is a pure componentwise sum of the per-leg Greeks; the order
//! of the legs does not matter, which `lemma_aggregation_order_independent`
//! proves. The adjustment engine walks the legs in order and proposes, for
//! each, the position change whose size offsets the whole net delta at that
//! leg's per-contract delta; `lemma_adjustment_neutralizes` proves that a
//! proposed trade brings the net delta within the threshold.

use vstd::prelude::*;
use vstd::seq_lib::group_to_multiset_ensures;

use crate::black_scholes::{bs_greeks_ok, bs_greeks_v, greeks_black_scholes_at, Greeks};
use crate::error::{GreeksError, MathErrorKind};
use crate::fixed::{fx_abs, fx_div_v, fx_in_range, fx_mul_v, fx_sgn, Fx, FX_LIM, FX_SCALE};
use crate::model::{expiry_days_v, expiry_ok, years_v, ExpirationDate, Options, OptionStyle,
    Side};
use crate::positive::Positive;

verus! {

/// Mantissa of the default threshold under which a strategy counts as
/// delta neutral (the value one ten-thousandth).
pub const DELTA_THRESHOLD: i128 = 100_000_000;

/// The Greeks of one leg, seen from instant `now`, as
/// `greeks_black_scholes_at` returns them.
#[verifier::opaque]
pub open spec fn leg_greeks_v(o: Options, now: int) -> Greeks {
    bs_greeks_v(
        o.option_style,
        o.side,
        o.quantity.v(),
        o.underlying_price.v(),
        o.strike_price.v(),
        years_v(expiry_days_v(o.expiration_date, now)),
        o.implied_volatility.v(),
        o.risk_free_rate.m as int,
        o.dividend_yield.v(),
    )
}

/// The Greeks of one leg can be computed, seen from instant `now`.
#[verifier::opaque]
pub open spec fn leg_greeks_ok(o: Options, now: int) -> bool {
    let t = years_v(expiry_days_v(o.expiration_date, now));
    expiry_ok(o.expiration_date, now) && (t == 0 || (o.implied_volatility.v() != 0
        && bs_greeks_ok(o.option_style, o.quantity.v(), o.underlying_price.v(),
        o.strike_price.v(), t, o.implied_volatility.v(), o.risk_free_rate.m as int,
        o.dividend_yield.v())))
}

/// Componentwise sum of a sequence of Greeks, as unbounded integers:
/// delta, gamma, theta, vega, rho and the dividend rho in that order.
pub open spec fn greeks_sum(gs: Seq<Greeks>) -> (int, int, int, int, int, int)
    decreases gs.len(),
{
    if gs.len() == 0 {
        (0int, 0int, 0int, 0int, 0int, 0int)
    } else {
        let p = greeks_sum(gs.drop_last());
        let l = gs.last();
        (
            p.0 + l.delta.m,
            p.1 + l.gamma.m,
            p.2 + l.theta.m,
            p.3 + l.vega.m,
            p.4 + l.rho.m,
            p.5 + l.rho_d.m,
        )
    }
}

/// All six components of the running sums stay representable.
pub open spec fn greeks_sum_in_range(gs: Seq<Greeks>) -> bool
    decreases gs.len(),
{
    if gs.len() == 0 {
        true
    } else {
        let p = greeks_sum(gs);
        greeks_sum_in_range(gs.drop_last()) && fx_in_range(p.0) && fx_in_range(p.1)
            && fx_in_range(p.2) && fx_in_range(p.3) && fx_in_range(p.4) && fx_in_range(p.5)
    }
}

/// The per-leg Greeks of a sequence of legs, seen from instant `now`.
pub open spec fn legs_greeks_seq(legs: Seq<Options>, now: int) -> Seq<Greeks> {
    legs.map_values(|o: Options| leg_greeks_v(o, now))
}

/// Aggregation succeeds: every leg's Greeks can be computed and every
/// running sum stays representable.
pub open spec fn aggregate_ok(legs: Seq<Options>, now: int) -> bool {
    (forall|i: int| 0 <= i < legs.len() ==> leg_greeks_ok(#[trigger] legs[i], now))
        && greeks_sum_in_range(legs_greeks_seq(legs, now))
}

/// Removing any one element takes its contribution out of the sum.
proof fn lemma_greeks_sum_remove(gs: Seq<Greeks>, i: int)
    requires
        0 <= i < gs.len(),
    ensures
        ({
            let whole = greeks_sum(gs);
            let rest = greeks_sum(gs.remove(i));
            let l = gs[i];
            &&& whole.0 == rest.0 + l.delta.m
            &&& whole.1 == rest.1 + l.gamma.m
            &&& whole.2 == rest.2 + l.theta.m
            &&& whole.3 == rest.3 + l.vega.m
            &&& whole.4 == rest.4 + l.rho.m
            &&& whole.5 == rest.5 + l.rho_d.m
        }),
    decreases gs.len(),
{
    if i == gs.len() - 1 {
        assert(gs.remove(i) =~= gs.drop_last());
    } else {
        assert(gs.remove(i).drop_last() =~= gs.drop_last().remove(i));
        assert(gs.remove(i).last() == gs.last());
        lemma_greeks_sum_remove(gs.drop_last(), i);
    }
}

/// Law: aggregation is order independent. Two leg sequences that hold the
/// same per-leg Greeks, in any order, have the same net Greeks; summing is
/// therefore commutative and associative over the legs.
pub proof fn lemma_aggregation_order_independent(a: Seq<Greeks>, b: Seq<Greeks>)
    requires
        a.to_multiset() == b.to_multiset(),
    ensures
        greeks_sum(a) == greeks_sum(b),
    decreases a.len(),
{
    broadcast use group_to_multiset_ensures;

    if a.len() == 0 {
        assert(a.to_multiset().len() == 0);
        assert(b.len() == 0);
    } else {
        let x = a.last();
        assert(a.to_multiset().count(x) > 0) by {
            assert(a.contains(x));
        }
        assert(b.contains(x));
        let j = choose|j: int| 0 <= j < b.len() && b[j] == x;
        assert(a.drop_last() =~= a.remove(a.len() - 1));
        assert(a.remove(a.len() - 1).to_multiset() =~= a.to_multiset().remove(x));
        assert(b.remove(j).to_multiset() =~= b.to_multiset().remove(x));
        lemma_aggregation_order_independent(a.drop_last(), b.remove(j));
        lemma_greeks_sum_remove(b, j);
    }
}

/// The Greeks of one leg, with success and value stated through the
/// opaque per-leg names.
fn leg_greeks(o: &Options, now: i64) -> (r: Result<Greeks, GreeksError>)
    requires
        o.wf(),
    ensures
        r is Ok <==> leg_greeks_ok(*o, now as int),
        r matches Ok(g) ==> g.wf() && g == leg_greeks_v(*o, now as int),
        r matches Err(e) ==> e.wf(),
{
    proof {
        reveal(leg_greeks_v);
        reveal(leg_greeks_ok);
    }
    greeks_black_scholes_at(o, now)
}

/// Whether every leg carries a day-count expiration, so that no clock
/// plays any part in its Greeks.
pub open spec fn days_only(legs: Seq<Options>) -> bool {
    forall|i: int| 0 <= i < legs.len() ==> (#[trigger] legs[i]).expiration_date matches
        ExpirationDate::Days(_)
}

/// On a day-count expiration the clock plays no part in a leg's Greeks.
proof fn lemma_leg_clock_free(o: Options, n1: int, n2: int)
    requires
        o.expiration_date matches ExpirationDate::Days(_),
    ensures
        leg_greeks_v(o, n1) == leg_greeks_v(o, n2),
        leg_greeks_ok(o, n1) == leg_greeks_ok(o, n2),
{
    reveal(leg_greeks_v);
    reveal(leg_greeks_ok);
}

/// With day-count expirations only, the per-leg Greeks of a strategy are
/// the same whatever the instant.
proof fn lemma_legs_clock_free(legs: Seq<Options>, n1: int, n2: int)
    requires
        days_only(legs),
    ensures
        legs_greeks_seq(legs, n1) =~= legs_greeks_seq(legs, n2),
        deltas_seq(legs, n1) =~= deltas_seq(legs, n2),
        (forall|i: int| 0 <= i < legs.len() ==> leg_greeks_v(#[trigger] legs[i], n1)
            == leg_greeks_v(legs[i], n2)),
        (forall|i: int| 0 <= i < legs.len() ==> leg_greeks_ok(#[trigger] legs[i], n1)
            == leg_greeks_ok(legs[i], n2)),
{
    assert forall|i: int| 0 <= i < legs.len() implies leg_greeks_v(#[trigger] legs[i], n1)
        == leg_greeks_v(legs[i], n2) && leg_greeks_ok(legs[i], n1) == leg_greeks_ok(legs[i],
        n2) by {
        lemma_leg_clock_free(legs[i], n1, n2);
    }
}

/// Adds two sets of Greeks componentwise; `None` exactly when a component
/// leaves the representable range.
fn add_greeks(a: &Greeks, b: &Greeks) -> (r: Option<Greeks>)
    requires
        a.wf(),
        b.wf(),
    ensures
        r matches Some(g) ==> {
            &&& g.wf()
            &&& g.delta.m == a.delta.m + b.delta.m
            &&& g.gamma.m == a.gamma.m + b.gamma.m
            &&& g.theta.m == a.theta.m + b.theta.m
            &&& g.vega.m == a.vega.m + b.vega.m
            &&& g.rho.m == a.rho.m + b.rho.m
            &&& g.rho_d.m == a.rho_d.m + b.rho_d.m
        },
        r is None <==> !(fx_in_range(a.delta.m + b.delta.m) && fx_in_range(a.gamma.m + b.gamma.m)
            && fx_in_range(a.theta.m + b.theta.m) && fx_in_range(a.vega.m + b.vega.m)
            && fx_in_range(a.rho.m + b.rho.m) && fx_in_range(a.rho_d.m + b.rho_d.m)),
{
    let delta = match a.delta.cadd(b.delta) {
        Some(v) => v,
        None => {
            return None;
        },
    };
    let gamma = match a.gamma.cadd(b.gamma) {
        Some(v) => v,
        None => {
            return None;
        },
    };
    let theta = match a.theta.cadd(b.theta) {
        Some(v) => v,
        None => {
            return None;
        },
    };
    let vega = match a.vega.cadd(b.vega) {
        Some(v) => v,
        None => {
            return None;
        },
    };
    let rho = match a.rho.cadd(b.rho) {
        Some(v) => v,
        None => {
            return None;
        },
    };
    let rho_d = match a.rho_d.cadd(b.rho_d) {
        Some(v) => v,
        None => {
            return None;
        },
    };
    Some(Greeks { delta, gamma, theta, vega, rho, rho_d })
}

/// Net Greeks of a strategy, seen from instant `now`: the componentwise
/// sum over the legs of the per-leg Greeks, a pure reduction that leaves
/// the legs untouched.
#[verifier::rlimit(80)]
pub fn aggregate_greeks_at(legs: &Vec<Options>, now: i64) -> (r: Result<Greeks, GreeksError>)
    requires
        forall|i: int| 0 <= i < legs@.len() ==> (#[trigger] legs@[i]).wf(),
    ensures
        r is Ok <==> aggregate_ok(legs@, now as int),
        r matches Ok(g) ==> {
            let total = greeks_sum(legs_greeks_seq(legs@, now as int));
            &&& g.wf()
            &&& g.delta.m == total.0
            &&& g.gamma.m == total.1
            &&& g.theta.m == total.2
            &&& g.vega.m == total.3
            &&& g.rho.m == total.4
            &&& g.rho_d.m == total.5
        },
        r matches Err(e) ==> e.wf(),
{
    let mut acc = Greeks::zero();
    let mut i: usize = 0;
    proof {
        assert(legs@.take(0) =~= Seq::<Options>::empty());
        assert(legs_greeks_seq(legs@.take(0), now as int) =~= Seq::<Greeks>::empty());
    }
    while i < legs.len()
        invariant
            0 <= i <= legs@.len(),
            forall|j: int| 0 <= j < legs@.len() ==> (#[trigger] legs@[j]).wf(),
            acc.wf(),
            ({
                let total = greeks_sum(legs_greeks_seq(legs@.take(i as int), now as int));
                acc.delta.m == total.0 && acc.gamma.m == total.1 && acc.theta.m == total.2
                    && acc.vega.m == total.3 && acc.rho.m == total.4 && acc.rho_d.m == total.5
            }),
            forall|j: int| 0 <= j < i ==> leg_greeks_ok(#[trigger] legs@[j], now as int),
            greeks_sum_in_range(legs_greeks_seq(legs@.take(i as int), now as int)),
        decreases legs@.len() - i,
    {
        let g = match leg_greeks(&legs[i], now) {
            Ok(g) => g,
            Err(e) => {
                proof {
                    assert(!leg_greeks_ok(legs@[i as int], now as int));
                }
                return Err(e);
            },
        };
        let next = match add_greeks(&acc, &g) {
            Some(v) => v,
            None => {
                proof {
                    let pref = legs_greeks_seq(legs@.take(i as int + 1), now as int);
                    assert(pref.drop_last() =~= legs_greeks_seq(legs@.take(i as int),
                        now as int));
                    assert(pref.last() == leg_greeks_v(legs@[i as int], now as int));
                    assert(!greeks_sum_in_range(pref));
                    if greeks_sum_in_range(legs_greeks_seq(legs@, now as int)) {
                        lemma_sum_in_range_prefix(legs_greeks_seq(legs@, now as int),
                            i as int + 1);
                        assert(legs_greeks_seq(legs@, now as int).take(i as int + 1)
                            =~= pref);
                    }
                }
                return Err(GreeksError::MathError(MathErrorKind::Overflow));
            },
        };
        acc = next;
        i = i + 1;
        proof {
            let pref = legs_greeks_seq(legs@.take(i as int), now as int);
            assert(pref.drop_last() =~= legs_greeks_seq(legs@.take(i as int - 1), now as int));
            assert(pref.last() == leg_greeks_v(legs@[i as int - 1], now as int));
            assert(greeks_sum_in_range(pref));
        }
    }
    proof {
        assert(legs@.take(legs@.len() as int) =~= legs@);
        assert(legs_greeks_seq(legs@.take(legs@.len() as int), now as int) =~= legs_greeks_seq(
            legs@, now as int));
    }
    Ok(acc)
}

/// A sequence whose sums stay in range keeps that property on every
/// prefix; so a prefix that leaves the range condemns the whole.
proof fn lemma_sum_in_range_prefix(gs: Seq<Greeks>, n: int)
    requires
        0 <= n <= gs.len(),
        greeks_sum_in_range(gs),
    ensures
        greeks_sum_in_range(gs.take(n)),
    decreases gs.len(),
{
    if n < gs.len() {
        assert(gs.drop_last() =~= gs.take(gs.len() - 1));
        lemma_sum_in_range_prefix(gs.drop_last(), n);
        assert(gs.take(gs.len() - 1).take(n) =~= gs.take(n));
    } else {
        assert(gs.take(n) =~= gs);
    }
}

/// Net Greeks of a strategy, resolving timestamp expirations against the
/// clock. With day-count expirations only, the clock decides nothing and
/// the result is the one `aggregate_greeks_at` states, at any instant.
pub fn aggregate_greeks(legs: &Vec<Options>) -> (r: Result<Greeks, GreeksError>)
    requires
        forall|i: int| 0 <= i < legs@.len() ==> (#[trigger] legs@[i]).wf(),
    ensures
        days_only(legs@) ==> {
            &&& (r is Ok <==> aggregate_ok(legs@, 0))
            &&& (r matches Ok(g) ==> {
                let total = greeks_sum(legs_greeks_seq(legs@, 0));
                &&& g.delta.m == total.0
                &&& g.gamma.m == total.1
                &&& g.theta.m == total.2
                &&& g.vega.m == total.3
                &&& g.rho.m == total.4
                &&& g.rho_d.m == total.5
            })
        },
        r matches Ok(g) ==> g.wf(),
        r matches Err(e) ==> e.wf(),
{
    let now = crate::model::now_secs();
    let r = aggregate_greeks_at(legs, now);
    proof {
        if days_only(legs@) {
            lemma_legs_clock_free(legs@, now as int, 0);
        }
    }
    r
}

/// Sum of a sequence of fixed-point values, as an unbounded integer.
pub open spec fn fx_sum(s: Seq<Fx>) -> int
    decreases s.len(),
{
    if s.len() == 0 {
        0
    } else {
        fx_sum(s.drop_last()) + s.last().m
    }
}

/// Every running sum of the sequence stays representable.
pub open spec fn fx_sums_in_range(s: Seq<Fx>) -> bool
    decreases s.len(),
{
    if s.len() == 0 {
        true
    } else {
        fx_sums_in_range(s.drop_last()) && fx_in_range(fx_sum(s))
    }
}

/// The per-leg deltas of a sequence of legs, seen from instant `now`.
pub open spec fn deltas_seq(legs: Seq<Options>, now: int) -> Seq<Fx> {
    legs.map_values(|o: Options| leg_greeks_v(o, now).delta)
}

/// Mantissa of the net delta of a strategy, seen from instant `now`.
pub open spec fn net_delta_v(legs: Seq<Options>, now: int) -> int {
    fx_sum(deltas_seq(legs, now))
}

/// The delta-neutrality computation succeeds: every leg's Greeks can be
/// computed and the running delta sums stay representable.
pub open spec fn neutrality_ok(legs: Seq<Options>, now: int) -> bool {
    (forall|i: int| 0 <= i < legs.len() ==> leg_greeks_ok(#[trigger] legs[i], now))
        && fx_sums_in_range(deltas_seq(legs, now))
}

/// The delta of one leg, paired with the position of the leg in the
/// strategy.
#[derive(Clone, Copy, Debug, PartialEq, Eq, Structural)]
pub struct DeltaInfo {
    /// Index of the leg in the strategy's leg sequence.
    pub index: usize,
    /// Side-signed, quantity-scaled delta of the leg.
    pub delta: Fx,
}

/// The net delta of a strategy and the deltas of its legs, in leg order.
/// Derived, never stored: recomputed whenever the inputs change.
#[derive(Clone, Debug)]
pub struct DeltaNeutralityResult {
    /// Sum of the per-leg deltas.
    pub net_delta: Fx,
    /// One entry per leg, in leg order.
    pub individual_deltas: Vec<DeltaInfo>,
}

impl DeltaNeutralityResult {
    /// Whether the net delta lies within `threshold` of zero.
    pub fn is_neutral(&self, threshold: Fx) -> (r: bool)
        requires
            self.net_delta.wf(),
            threshold.wf(),
        ensures
            r == (fx_abs(self.net_delta.m as int) <= threshold.m),
    {
        let a = self.net_delta.abs();
        a.m <= threshold.m
    }
}

/// Net delta and per-leg deltas of a strategy, seen from instant `now`.
#[verifier::rlimit(80)]
pub fn delta_neutrality_at(legs: &Vec<Options>, now: i64) -> (r: Result<
    DeltaNeutralityResult,
    GreeksError,
>)
    requires
        forall|i: int| 0 <= i < legs@.len() ==> (#[trigger] legs@[i]).wf(),
    ensures
        r is Ok <==> neutrality_ok(legs@, now as int),
        r matches Ok(res) ==> {
            &&& res.net_delta.wf()
            &&& res.net_delta.m == net_delta_v(legs@, now as int)
            &&& res.individual_deltas@.len() == legs@.len()
            &&& forall|i: int| 0 <= i < legs@.len() ==> {
                &&& (#[trigger] res.individual_deltas@[i]).index == i
                &&& res.individual_deltas@[i].delta.wf()
                &&& res.individual_deltas@[i].delta == leg_greeks_v(legs@[i],
                    now as int).delta
            }
        },
        r matches Err(e) ==> e.wf(),
{
    let mut net = Fx { m: 0 };
    let mut infos: Vec<DeltaInfo> = Vec::new();
    let mut i: usize = 0;
    proof {
        assert(legs@.take(0) =~= Seq::<Options>::empty());
        assert(deltas_seq(legs@.take(0), now as int) =~= Seq::<Fx>::empty());
    }
    while i < legs.len()
        invariant
            0 <= i <= legs@.len(),
            forall|j: int| 0 <= j < legs@.len() ==> (#[trigger] legs@[j]).wf(),
            net.wf(),
            net.m == fx_sum(deltas_seq(legs@.take(i as int), now as int)),
            infos@.len() == i,
            forall|j: int| 0 <= j < i ==> {
                &&& (#[trigger] infos@[j]).index == j
                &&& infos@[j].delta.wf()
                &&& infos@[j].delta == leg_greeks_v(legs@[j], now as int).delta
            },
            forall|j: int| 0 <= j < i ==> leg_greeks_ok(#[trigger] legs@[j], now as int),
            fx_sums_in_range(deltas_seq(legs@.take(i as int), now as int)),
        decreases legs@.len() - i,
    {
        let g = match leg_greeks(&legs[i], now) {
            Ok(g) => g,
            Err(e) => {
                proof {
                    assert(!leg_greeks_ok(legs@[i as int], now as int));
                }
                return Err(e);
            },
        };
        let next = match net.cadd(g.delta) {
            Some(v) => v,
            None => {
                proof {
                    let pref = deltas_seq(legs@.take(i as int + 1), now as int);
                    assert(pref.drop_last() =~= deltas_seq(legs@.take(i as int), now as int));
                    assert(pref.last() == leg_greeks_v(legs@[i as int], now as int).delta);
                    assert(!fx_sums_in_range(pref));
                    if fx_sums_in_range(deltas_seq(legs@, now as int)) {
                        lemma_fx_sums_in_range_prefix(deltas_seq(legs@, now as int),
                            i as int + 1);
                        assert(deltas_seq(legs@, now as int).take(i as int + 1) =~= pref);
                    }
                }
                return Err(GreeksError::MathError(MathErrorKind::Overflow));
            },
        };
        infos.push(DeltaInfo { index: i, delta: g.delta });
        net = next;
        i = i + 1;
        proof {
            let pref = deltas_seq(legs@.take(i as int), now as int);
            assert(pref.drop_last() =~= deltas_seq(legs@.take(i as int - 1), now as int));
            assert(pref.last() == leg_greeks_v(legs@[i as int - 1], now as int).delta);
            assert(fx_sums_in_range(pref));
        }
    }
    proof {
        assert(legs@.take(legs@.len() as int) =~= legs@);
        assert(deltas_seq(legs@.take(legs@.len() as int), now as int) =~= deltas_seq(legs@,
            now as int));
    }
    Ok(DeltaNeutralityResult { net_delta: net, individual_deltas: infos })
}

/// A delta sequence whose running sums stay in range keeps that property
/// on every prefix.
proof fn lemma_fx_sums_in_range_prefix(s: Seq<Fx>, n: int)
    requires
        0 <= n <= s.len(),
        fx_sums_in_range(s),
    ensures
        fx_sums_in_range(s.take(n)),
    decreases s.len(),
{
    if n < s.len() {
        assert(s.drop_last() =~= s.take(s.len() - 1));
        lemma_fx_sums_in_range_prefix(s.drop_last(), n);
        assert(s.take(s.len() - 1).take(n) =~= s.take(n));
    } else {
        assert(s.take(n) =~= s);
    }
}

/// Net delta and per-leg deltas, resolving timestamp expirations against
/// the clock. With day-count expirations only, the clock decides nothing
/// and the result is the one `delta_neutrality_at` states, at any instant.
pub fn delta_neutrality(legs: &Vec<Options>) -> (r: Result<DeltaNeutralityResult, GreeksError>)
    requires
        forall|i: int| 0 <= i < legs@.len() ==> (#[trigger] legs@[i]).wf(),
    ensures
        days_only(legs@) ==> {
            &&& (r is Ok <==> neutrality_ok(legs@, 0))
            &&& (r matches Ok(res) ==> {
                &&& res.net_delta.m == net_delta_v(legs@, 0)
                &&& res.individual_deltas@.len() == legs@.len()
                &&& forall|i: int| 0 <= i < legs@.len() ==> {
                    &&& (#[trigger] res.individual_deltas@[i]).index == i
                    &&& res.individual_deltas@[i].delta == leg_greeks_v(legs@[i], 0).delta
                }
            })
        },
        r matches Ok(res) ==> res.net_delta.wf(),
        r matches Err(e) ==> e.wf(),
{
    let now = crate::model::now_secs();
    let r = delta_neutrality_at(legs, now);
    proof {
        if days_only(legs@) {
            lemma_legs_clock_free(legs@, now as int, 0);
        }
    }
    r
}

/// One corrective trade proposed by the delta-neutrality engine.
#[derive(Clone, Copy, Debug, PartialEq, Eq, Structural)]
pub enum DeltaAdjustment {
    /// Add to the named position.
    BuyOptions {
        /// Number of contracts to add.
        quantity: Positive,
        /// Strike of the leg to trade.
        strike: Positive,
        /// Style of the leg to trade.
        option_style: OptionStyle,
        /// Side of the leg to trade.
        side: Side,
    },
    /// Reduce the named position.
    SellOptions {
        /// Number of contracts to take off.
        quantity: Positive,
        /// Strike of the leg to trade.
        strike: Positive,
        /// Style of the leg to trade.
        option_style: OptionStyle,
        /// Side of the leg to trade.
        side: Side,
    },
    /// The strategy is already within the threshold.
    NoAdjustmentNeeded,
}

/// Mantissa of the per-contract delta of one leg: the leg delta divided
/// by the quantity.
pub open spec fn unit_delta_v(o: Options, now: int) -> int {
    fx_div_v(leg_greeks_v(o, now).delta.m as int, o.quantity.v())
}

/// The trade proposed for one leg against the net delta `net`: no trade
/// where the leg has no delta to offer, otherwise a position change of
/// size `|net| / |unit delta|`, adding to the leg when its delta points
/// against the net and reducing it when it points with it.
pub open spec fn adjustment_v(o: Options, net: int, now: int) -> DeltaAdjustment {
    let u = unit_delta_v(o, now);
    if o.quantity.v() == 0 || u == 0 {
        DeltaAdjustment::NoAdjustmentNeeded
    } else {
        let h = Positive { fx: Fx { m: fx_div_v(fx_abs(net), fx_abs(u)) as i128 } };
        if fx_sgn(u) == fx_sgn(net) {
            DeltaAdjustment::SellOptions {
                quantity: h,
                strike: o.strike_price,
                option_style: o.option_style,
                side: o.side,
            }
        } else {
            DeltaAdjustment::BuyOptions {
                quantity: h,
                strike: o.strike_price,
                option_style: o.option_style,
                side: o.side,
            }
        }
    }
}

/// The per-leg proposals stay representable: each per-contract delta and
/// each hedge quantity is in range.
pub open spec fn adjustments_ok(legs: Seq<Options>, net: int, now: int) -> bool {
    forall|i: int| 0 <= i < legs.len() ==> {
        let u = unit_delta_v(#[trigger] legs[i], now);
        &&& fx_in_range(u)
        &&& (legs[i].quantity.v() != 0 && u != 0 ==> fx_in_range(fx_div_v(fx_abs(net),
            fx_abs(u))))
    }
}

/// The corrective trades for a strategy, seen from instant `now`: one
/// proposal per leg, in leg order, against the strategy's net delta; a
/// single no-trade entry when the strategy is already neutral within
/// `threshold`.
#[verifier::rlimit(80)]
pub fn delta_adjustments_at(legs: &Vec<Options>, threshold: Fx, now: i64) -> (r: Result<
    Vec<DeltaAdjustment>,
    GreeksError,
>)
    requires
        forall|i: int| 0 <= i < legs@.len() ==> (#[trigger] legs@[i]).wf(),
        threshold.wf(),
        threshold.m >= 0,
    ensures
        ({
            let net = net_delta_v(legs@, now as int);
            &&& (r is Ok <==> neutrality_ok(legs@, now as int) && (fx_abs(net) <= threshold.m
                || adjustments_ok(legs@, net, now as int)))
            &&& (r matches Ok(adjs) ==> {
                &&& (fx_abs(net) <= threshold.m ==> adjs@ =~= seq![
                    DeltaAdjustment::NoAdjustmentNeeded])
                &&& (fx_abs(net) > threshold.m ==> adjs@.len() == legs@.len()
                    && forall|i: int| 0 <= i < legs@.len() ==> adjs@[i] == adjustment_v(
                    #[trigger] legs@[i], net, now as int))
            })
        }),
        r matches Err(e) ==> e.wf(),
{
    let neutrality = match delta_neutrality_at(legs, now) {
        Ok(res) => res,
        Err(e) => {
            return Err(e);
        },
    };
    let net = neutrality.net_delta;
    if neutrality.is_neutral(threshold) {
        let mut out: Vec<DeltaAdjustment> = Vec::new();
        out.push(DeltaAdjustment::NoAdjustmentNeeded);
        proof {
            assert(out@ =~= seq![DeltaAdjustment::NoAdjustmentNeeded]);
        }
        return Ok(out);
    }
    let mut out: Vec<DeltaAdjustment> = Vec::new();
    let mut i: usize = 0;
    let neta = net.abs();
    while i < legs.len()
        invariant
            0 <= i <= legs@.len(),
            forall|j: int| 0 <= j < legs@.len() ==> (#[trigger] legs@[j]).wf(),
            net.wf(),
            net.m == net_delta_v(legs@, now as int),
            neta.m == fx_abs(net.m as int),
            fx_abs(net.m as int) > threshold.m,
            neutrality.individual_deltas@.len() == legs@.len(),
            forall|j: int| 0 <= j < legs@.len() ==> (#[trigger]
                neutrality.individual_deltas@[j]).delta.wf()
                && neutrality.individual_deltas@[j].delta == leg_greeks_v(legs@[j],
                now as int).delta,
            out@.len() == i,
            forall|j: int| 0 <= j < i ==> out@[j] == adjustment_v(#[trigger] legs@[j],
                net.m as int, now as int),
            forall|j: int| 0 <= j < i ==> {
                let u = unit_delta_v(#[trigger] legs@[j], now as int);
                fx_in_range(u) && (legs@[j].quantity.v() != 0 && u != 0 ==> fx_in_range(
                    fx_div_v(fx_abs(net.m as int), fx_abs(u))))
            },
        decreases legs@.len() - i,
    {
        let d = neutrality.individual_deltas[i].delta;
        let qty = legs[i].quantity;
        let u = match d.cdiv(qty.fx) {
            Some(v) => v,
            None => {
                if qty.fx.m == 0 {
                    out.push(DeltaAdjustment::NoAdjustmentNeeded);
                    i = i + 1;
                    continue ;
                }
                proof {
                    assert(!fx_in_range(unit_delta_v(legs@[i as int], now as int)));
                    assert(!adjustments_ok(legs@, net.m as int, now as int));
                }
                return Err(GreeksError::MathError(MathErrorKind::Overflow));
            },
        };
        if u.m == 0 {
            out.push(DeltaAdjustment::NoAdjustmentNeeded);
            i = i + 1;
            continue ;
        }
        let ua = u.abs();
        let h = match neta.cdiv(ua) {
            Some(v) => v,
            None => {
                proof {
                    assert(u.m as int == unit_delta_v(legs@[i as int], now as int));
                    assert(!fx_in_range(fx_div_v(fx_abs(net.m as int), fx_abs(u.m as int))));
                    assert(!adjustments_ok(legs@, net.m as int, now as int));
                }
                return Err(GreeksError::MathError(MathErrorKind::Overflow));
            },
        };
        proof {
            crate::fixed::lemma_div_v_nonneg(neta.m as int, ua.m as int);
        }
        let hq = Positive { fx: h };
        let same_sign = (u.m > 0 && net.m > 0) || (u.m < 0 && net.m < 0);
        let adj = if same_sign {
            DeltaAdjustment::SellOptions {
                quantity: hq,
                strike: legs[i].strike_price,
                option_style: legs[i].option_style,
                side: legs[i].side,
            }
        } else {
            DeltaAdjustment::BuyOptions {
                quantity: hq,
                strike: legs[i].strike_price,
                option_style: legs[i].option_style,
                side: legs[i].side,
            }
        };
        out.push(adj);
        i = i + 1;
    }
    Ok(out)
}

/// The corrective trades for a strategy under the default threshold,
/// resolving timestamp expirations against the clock. With day-count
/// expirations only, the clock decides nothing and the result is the one
/// `delta_adjustments_at` states, at any instant.
pub fn delta_adjustments(legs: &Vec<Options>) -> (r: Result<Vec<DeltaAdjustment>, GreeksError>)
    requires
        forall|i: int| 0 <= i < legs@.len() ==> (#[trigger] legs@[i]).wf(),
    ensures
        days_only(legs@) ==> {
            let net = net_delta_v(legs@, 0);
            &&& (r is Ok <==> neutrality_ok(legs@, 0) && (fx_abs(net) <= DELTA_THRESHOLD
                || adjustments_ok(legs@, net, 0)))
            &&& (r matches Ok(adjs) ==> {
                &&& (fx_abs(net) <= DELTA_THRESHOLD ==> adjs@ =~= seq![
                    DeltaAdjustment::NoAdjustmentNeeded])
                &&& (fx_abs(net) > DELTA_THRESHOLD ==> adjs@.len() == legs@.len()
                    && forall|i: int| 0 <= i < legs@.len() ==> adjs@[i] == adjustment_v(
                    #[trigger] legs@[i], net, 0))
            })
        },
        r matches Err(e) ==> e.wf(),
{
    let now = crate::model::now_secs();
    let r = delta_adjustments_at(legs, Fx { m: DELTA_THRESHOLD }, now);
    proof {
        if days_only(legs@) {
            lemma_legs_clock_free(legs@, now as int, 0);
            assert forall|i: int| 0 <= i < legs@.len() implies unit_delta_v(
                #[trigger] legs@[i], now as int) == unit_delta_v(legs@[i], 0)
                && adjustment_v(legs@[i], net_delta_v(legs@, 0), now as int) == adjustment_v(
                legs@[i], net_delta_v(legs@, 0), 0) by {
                lemma_leg_clock_free(legs@[i], now as int, 0);
            }
        }
    }
    r
}

/// Law: a proposed adjustment, executed at the per-contract delta the
/// proposal was computed from, brings the net delta within the default
/// threshold. The hedge size is the net delta over the unit delta, both
/// rounded toward zero, so the offset misses the net delta by less than
/// one unit-delta rounding step plus one, far inside the threshold.
pub proof fn lemma_adjustment_neutralizes(net: int, unit: int)
    requires
        fx_in_range(net),
        fx_in_range(unit),
        unit != 0,
    ensures
        fx_abs(net - fx_sgn(net) * fx_mul_v(fx_div_v(fx_abs(net), fx_abs(unit)), fx_abs(unit)))
            < DELTA_THRESHOLD,
{
    let a = fx_abs(net);
    let uu = fx_abs(unit);
    let h = fx_div_v(a, uu);
    let m = fx_mul_v(h, uu);
    assert(h == a * (FX_SCALE as int) / uu) by (nonlinear_arith)
        requires
            a >= 0,
            uu >= 1,
            h == fx_div_v(a, uu),
    ;
    vstd::arithmetic::div_mod::lemma_fundamental_div_mod(a * (FX_SCALE as int), uu);
    vstd::arithmetic::div_mod::lemma_mod_bound(a * (FX_SCALE as int), uu);
    vstd::arithmetic::div_mod::lemma_div_pos_is_pos(a * (FX_SCALE as int), uu);
    assert(a * (FX_SCALE as int) >= 0) by (nonlinear_arith)
        requires
            a >= 0,
    ;
    assert(m == h * uu / (FX_SCALE as int)) by (nonlinear_arith)
        requires
            h >= 0,
            uu >= 1,
            m == fx_mul_v(h, uu),
    ;
    vstd::arithmetic::div_mod::lemma_fundamental_div_mod(h * uu, uu);
    vstd::arithmetic::div_mod::lemma_fundamental_div_mod(h * uu, FX_SCALE as int);
    vstd::arithmetic::div_mod::lemma_mod_bound(h * uu, FX_SCALE as int);
    vstd::arithmetic::div_mod::lemma_div_pos_is_pos(h * uu, FX_SCALE as int);
    assert(h * uu >= 0) by (nonlinear_arith)
        requires
            h >= 0,
            uu >= 0,
    ;
    // h * uu is within uu of a * FX_SCALE, and m * FX_SCALE is within
    // FX_SCALE of h * uu, so a - m is at most (uu + FX_SCALE) / FX_SCALE
    assert(a * (FX_SCALE as int) - uu < h * uu && h * uu <= a * (FX_SCALE as int))
        by (nonlinear_arith)
        requires
            a * (FX_SCALE as int) == uu * h + a * (FX_SCALE as int) % uu,
            0 <= a * (FX_SCALE as int) % uu < uu,
    ;
    assert(0 <= a - m && (a - m) * (FX_SCALE as int) < uu + (FX_SCALE as int))
        by (nonlinear_arith)
        requires
            h * uu == (FX_SCALE as int) * m + (h * uu) % (FX_SCALE as int),
            0 <= (h * uu) % (FX_SCALE as int) < FX_SCALE as int,
            a * (FX_SCALE as int) - uu < h * uu,
            h * uu <= a * (FX_SCALE as int),
            FX_SCALE as int > 0,
    ;
    assert(a - m < DELTA_THRESHOLD) by (nonlinear_arith)
        requires
            (a - m) * (FX_SCALE as int) < uu + (FX_SCALE as int),
            uu <= FX_LIM as int,
            0 <= a - m,
    ;
    assert(fx_abs(net - fx_sgn(net) * m) == a - m) by (nonlinear_arith)
        requires
            a == fx_abs(net),
            0 <= m <= a,
    ;
}

} // verus!
