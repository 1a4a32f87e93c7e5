//! Profit-and-loss bookkeeping: additive aggregation of realized and
//! unrealized results with their entry costs and income.
//!
//! The realized and unrealized components are optional: adding treats a
//! missing side as absent rather than zero, so a sum of entries that never
//! carried an unrealized component still carries none.

use vstd::prelude::*;
use vstd::string::*;

use crate::delta_neutral::DeltaAdjustment;
use crate::error::{GreeksError, MathErrorKind};
use crate::fixed::{fx_in_range, Fx};
use crate::model::ExpirationDate;
use crate::positive::Positive;

verus! {

/// Profit and loss of one position or of an aggregate: realized and
/// unrealized components, the costs and income of entry, and the instant
/// of the measurement in seconds.
#[derive(Clone, Copy, Debug, PartialEq, Eq, Structural)]
pub struct PnL {
    /// Crystallized result of closed positions, where one is known.
    pub realized: Option<Fx>,
    /// Mark-to-market result of open positions, where one is known.
    pub unrealized: Option<Fx>,
    /// Costs paid on entry: fees, commissions, premiums paid.
    pub initial_costs: Positive,
    /// Income received on entry: premiums collected.
    pub initial_income: Positive,
    /// When the measurement was taken, in seconds.
    pub date_time: i64,
}

/// Merge of two optional mantissas: both present adds them, one present
/// keeps it, neither stays absent.
pub open spec fn opt_merge(a: Option<Fx>, b: Option<Fx>) -> Option<int> {
    match (a, b) {
        (Some(x), Some(y)) => Some(x.m + y.m),
        (Some(x), None) => Some(x.m as int),
        (None, Some(y)) => Some(y.m as int),
        (None, None) => None,
    }
}

/// The merge of two optional mantissas stays representable.
pub open spec fn opt_merge_ok(a: Option<Fx>, b: Option<Fx>) -> bool {
    match opt_merge(a, b) {
        Some(v) => fx_in_range(v),
        None => true,
    }
}

impl PnL {
    /// All carried numbers are in range and non-negative where promised.
    pub open spec fn wf(self) -> bool {
        &&& (self.realized matches Some(v) ==> v.wf())
        &&& (self.unrealized matches Some(v) ==> v.wf())
        &&& self.initial_costs.wf()
        &&& self.initial_income.wf()
    }

    /// Builds a measurement from its parts.
    pub fn new(realized: Option<Fx>, unrealized: Option<Fx>, initial_costs: Positive,
        initial_income: Positive, date_time: i64) -> (r: PnL)
        requires
            realized matches Some(v) ==> v.wf(),
            unrealized matches Some(v) ==> v.wf(),
            initial_costs.wf(),
            initial_income.wf(),
        ensures
            r.wf(),
            r == (PnL { realized, unrealized, initial_costs, initial_income, date_time }),
    {
        PnL { realized, unrealized, initial_costs, initial_income, date_time }
    }

    /// The empty measurement: nothing known, nothing paid, the epoch.
    pub fn empty() -> (r: PnL)
        ensures
            r.wf(),
            r == (PnL {
                realized: None::<Fx>,
                unrealized: None::<Fx>,
                initial_costs: Positive { fx: Fx { m: 0 } },
                initial_income: Positive { fx: Fx { m: 0 } },
                date_time: 0i64,
            }),
    {
        PnL {
            realized: None,
            unrealized: None,
            initial_costs: Positive { fx: Fx { m: 0 } },
            initial_income: Positive { fx: Fx { m: 0 } },
            date_time: 0,
        }
    }

    /// Adds two measurements: optional components merge, costs and income
    /// add, and the later timestamp wins. Fails with an overflow exactly
    /// when some component sum leaves the representable range.
    pub fn add(&self, other: &PnL) -> (r: Result<PnL, GreeksError>)
        requires
            self.wf(),
            other.wf(),
        ensures
            r is Ok <==> opt_merge_ok(self.realized, other.realized) && opt_merge_ok(
                self.unrealized, other.unrealized) && fx_in_range(self.initial_costs.v()
                + other.initial_costs.v()) && fx_in_range(self.initial_income.v()
                + other.initial_income.v()),
            r matches Ok(p) ==> {
                &&& p.wf()
                &&& (match opt_merge(self.realized, other.realized) {
                    Some(v) => p.realized matches Some(f) && f.m == v,
                    None => p.realized is None,
                })
                &&& (match opt_merge(self.unrealized, other.unrealized) {
                    Some(v) => p.unrealized matches Some(f) && f.m == v,
                    None => p.unrealized is None,
                })
                &&& p.initial_costs.v() == self.initial_costs.v() + other.initial_costs.v()
                &&& p.initial_income.v() == self.initial_income.v() + other.initial_income.v()
                &&& p.date_time == (if self.date_time > other.date_time {
                    self.date_time
                } else {
                    other.date_time
                })
            },
            r matches Err(e) ==> e == GreeksError::MathError(MathErrorKind::Overflow),
    {
        let realized: Option<Fx> = match (self.realized, other.realized) {
            (Some(a), Some(b)) => match a.cadd(b) {
                Some(v) => Some(v),
                None => {
                    return Err(GreeksError::MathError(MathErrorKind::Overflow));
                },
            },
            (Some(a), None) => Some(a),
            (None, Some(b)) => Some(b),
            (None, None) => None,
        };
        let unrealized: Option<Fx> = match (self.unrealized, other.unrealized) {
            (Some(a), Some(b)) => match a.cadd(b) {
                Some(v) => Some(v),
                None => {
                    return Err(GreeksError::MathError(MathErrorKind::Overflow));
                },
            },
            (Some(a), None) => Some(a),
            (None, Some(b)) => Some(b),
            (None, None) => None,
        };
        let initial_costs = match self.initial_costs.cadd(other.initial_costs) {
            Some(v) => v,
            None => {
                return Err(GreeksError::MathError(MathErrorKind::Overflow));
            },
        };
        let initial_income = match self.initial_income.cadd(other.initial_income) {
            Some(v) => v,
            None => {
                return Err(GreeksError::MathError(MathErrorKind::Overflow));
            },
        };
        let date_time = if self.date_time > other.date_time {
            self.date_time
        } else {
            other.date_time
        };
        Ok(PnL { realized, unrealized, initial_costs, initial_income, date_time })
    }
}

/// Anything that can value its own position: strategies implement this to
/// report their running and final results. The adjustments hook has a
/// default that reports the operation as unsupported, so a strategy
/// without it can still be driven without aborting.
pub trait PnLCalculator {
    /// Result of the position at the given market state.
    fn calculate_pnl(&self, underlying_price: &Positive, expiration_date: ExpirationDate,
        implied_volatility: &Positive) -> Result<PnL, GreeksError>;

    /// Result of the position once the contracts expire at the given price.
    fn calculate_pnl_at_expiration(&self, underlying_price: &Positive) -> Result<
        PnL,
        GreeksError,
    >;

    /// Result of executing a proposed delta adjustment. Not every strategy
    /// prices its own adjustments; the default reports that instead of
    /// aborting.
    fn adjustments_pnl(&self, adjustment: &DeltaAdjustment) -> Result<PnL, GreeksError> {
        let _ = adjustment;
        Err(GreeksError::StdError(String::from_str(
            "adjustments_pnl is not implemented for this Strategy",
        )))
    }
}

/// The fold of a sequence of measurements, as `pnl_sum` computes it:
/// starting from the empty measurement, optional components merge, costs
/// and income add, and each step takes the newer entry's timestamp.
pub open spec fn pnl_fold(s: Seq<PnL>) -> (Option<int>, Option<int>, int, int, i64)
    decreases s.len(),
{
    if s.len() == 0 {
        (None::<int>, None::<int>, 0int, 0int, 0i64)
    } else {
        let p = pnl_fold(s.drop_last());
        let x = s.last();
        (
            (match (p.0, x.realized) {
                (Some(a), Some(b)) => Some(a + b.m),
                (Some(a), None) => Some(a),
                (None, Some(b)) => Some(b.m as int),
                (None, None) => None,
            }),
            (match (p.1, x.unrealized) {
                (Some(a), Some(b)) => Some(a + b.m),
                (Some(a), None) => Some(a),
                (None, Some(b)) => Some(b.m as int),
                (None, None) => None,
            }),
            p.2 + x.initial_costs.v(),
            p.3 + x.initial_income.v(),
            x.date_time,
        )
    }
}

/// Every partial fold keeps its components representable.
pub open spec fn pnl_fold_ok(s: Seq<PnL>) -> bool
    decreases s.len(),
{
    if s.len() == 0 {
        true
    } else {
        let p = pnl_fold(s);
        &&& pnl_fold_ok(s.drop_last())
        &&& (p.0 matches Some(v) ==> fx_in_range(v))
        &&& (p.1 matches Some(v) ==> fx_in_range(v))
        &&& fx_in_range(p.2)
        &&& fx_in_range(p.3)
    }
}

/// Sums a sequence of measurements, starting from the empty one: optional
/// components merge, costs and income add, and the last entry's timestamp
/// is kept. Fails with an overflow exactly when a partial sum leaves the
/// representable range.
pub fn pnl_sum(items: &Vec<PnL>) -> (r: Result<PnL, GreeksError>)
    requires
        forall|i: int| 0 <= i < items@.len() ==> (#[trigger] items@[i]).wf(),
    ensures
        r is Ok <==> pnl_fold_ok(items@),
        r matches Ok(p) ==> {
            let f = pnl_fold(items@);
            &&& p.wf()
            &&& (match f.0 {
                Some(v) => p.realized matches Some(g) && g.m == v,
                None => p.realized is None,
            })
            &&& (match f.1 {
                Some(v) => p.unrealized matches Some(g) && g.m == v,
                None => p.unrealized is None,
            })
            &&& p.initial_costs.v() == f.2
            &&& p.initial_income.v() == f.3
            &&& p.date_time == f.4
        },
        r matches Err(e) ==> e == GreeksError::MathError(MathErrorKind::Overflow),
{
    let mut acc = PnL::empty();
    let mut i: usize = 0;
    proof {
        assert(items@.take(0) =~= Seq::<PnL>::empty());
    }
    while i < items.len()
        invariant
            0 <= i <= items@.len(),
            forall|j: int| 0 <= j < items@.len() ==> (#[trigger] items@[j]).wf(),
            acc.wf(),
            pnl_fold_ok(items@.take(i as int)),
            ({
                let f = pnl_fold(items@.take(i as int));
                &&& (match f.0 {
                    Some(v) => acc.realized matches Some(g) && g.m == v,
                    None => acc.realized is None,
                })
                &&& (match f.1 {
                    Some(v) => acc.unrealized matches Some(g) && g.m == v,
                    None => acc.unrealized is None,
                })
                &&& acc.initial_costs.v() == f.2
                &&& acc.initial_income.v() == f.3
                &&& acc.date_time == f.4
            }),
        decreases items@.len() - i,
    {
        let x = &items[i];
        let realized: Option<Fx> = match (acc.realized, x.realized) {
            (Some(a), Some(b)) => match a.cadd(b) {
                Some(v) => Some(v),
                None => {
                    proof {
                        assert(items@.take(i as int + 1).drop_last() =~= items@.take(
                            i as int));
                        assert(items@.take(i as int + 1).last() == items@[i as int]);
                        lemma_fold_bad(items@, i as int + 1);
                    }
                    return Err(GreeksError::MathError(MathErrorKind::Overflow));
                },
            },
            (Some(a), None) => Some(a),
            (None, Some(b)) => Some(b),
            (None, None) => None,
        };
        let unrealized: Option<Fx> = match (acc.unrealized, x.unrealized) {
            (Some(a), Some(b)) => match a.cadd(b) {
                Some(v) => Some(v),
                None => {
                    proof {
                        assert(items@.take(i as int + 1).drop_last() =~= items@.take(
                            i as int));
                        assert(items@.take(i as int + 1).last() == items@[i as int]);
                        lemma_fold_bad(items@, i as int + 1);
                    }
                    return Err(GreeksError::MathError(MathErrorKind::Overflow));
                },
            },
            (Some(a), None) => Some(a),
            (None, Some(b)) => Some(b),
            (None, None) => None,
        };
        let initial_costs = match acc.initial_costs.cadd(x.initial_costs) {
            Some(v) => v,
            None => {
                proof {
                    assert(items@.take(i as int + 1).drop_last() =~= items@.take(i as int));
                    assert(items@.take(i as int + 1).last() == items@[i as int]);
                    lemma_fold_bad(items@, i as int + 1);
                }
                return Err(GreeksError::MathError(MathErrorKind::Overflow));
            },
        };
        let initial_income = match acc.initial_income.cadd(x.initial_income) {
            Some(v) => v,
            None => {
                proof {
                    assert(items@.take(i as int + 1).drop_last() =~= items@.take(i as int));
                    assert(items@.take(i as int + 1).last() == items@[i as int]);
                    lemma_fold_bad(items@, i as int + 1);
                }
                return Err(GreeksError::MathError(MathErrorKind::Overflow));
            },
        };
        acc = PnL {
            realized,
            unrealized,
            initial_costs,
            initial_income,
            date_time: x.date_time,
        };
        i = i + 1;
        proof {
            assert(items@.take(i as int).drop_last() =~= items@.take(i as int - 1));
        }
    }
    proof {
        assert(items@.take(items@.len() as int) =~= items@);
    }
    Ok(acc)
}

/// A fold that goes wrong on a prefix goes wrong on the whole.
proof fn lemma_fold_bad(s: Seq<PnL>, n: int)
    requires
        0 <= n <= s.len(),
        !pnl_fold_ok(s.take(n)),
    ensures
        !pnl_fold_ok(s),
    decreases s.len(),
{
    if n < s.len() {
        assert(s.drop_last() =~= s.take(s.len() - 1));
        assert(s.take(s.len() - 1).take(n) =~= s.take(n));
        lemma_fold_bad(s.drop_last(), n);
    } else {
        assert(s.take(n) =~= s);
    }
}

} // verus!
