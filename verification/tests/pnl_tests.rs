//! Profit-and-loss aggregation.

use optionstratlib::fixed::Fx;
use optionstratlib::pnl::{pnl_sum, PnL, PnLCalculator};
use optionstratlib::positive::Positive;

fn fx(m: i128) -> Fx {
    Fx { m }
}

fn pos(m: i128) -> Positive {
    Positive { fx: Fx { m } }
}

#[test]
fn test_pnl_sum() {
    let pnl1 = PnL::new(
        Some(fx(10_000_000_000_000)),
        Some(fx(5_000_000_000_000)),
        pos(2_000_000_000_000),
        pos(1_000_000_000_000),
        100,
    );
    let pnl2 = PnL::new(
        Some(fx(20_000_000_000_000)),
        Some(fx(10_000_000_000_000)),
        pos(3_000_000_000_000),
        pos(2_000_000_000_000),
        200,
    );

    let sum = pnl_sum(&vec![pnl1, pnl2]).unwrap();

    assert_eq!(sum.realized, Some(fx(30_000_000_000_000)));
    assert_eq!(sum.unrealized, Some(fx(15_000_000_000_000)));
    assert_eq!(sum.initial_costs, pos(5_000_000_000_000));
    assert_eq!(sum.initial_income, pos(3_000_000_000_000));
}

#[test]
fn test_pnl_sum_with_none() {
    let pnl1 = PnL::new(
        None,
        Some(fx(5_000_000_000_000)),
        pos(2_000_000_000_000),
        pos(1_000_000_000_000),
        100,
    );
    let pnl2 = PnL::new(
        Some(fx(20_000_000_000_000)),
        None,
        pos(3_000_000_000_000),
        pos(2_000_000_000_000),
        200,
    );

    let sum = pnl_sum(&vec![pnl1, pnl2]).unwrap();

    assert_eq!(sum.realized, Some(fx(20_000_000_000_000)));
    assert_eq!(sum.unrealized, Some(fx(5_000_000_000_000)));
    assert_eq!(sum.initial_costs, pos(5_000_000_000_000));
    assert_eq!(sum.initial_income, pos(3_000_000_000_000));
}

#[test]
fn test_pnl_sum_reference() {
    let pnl1 = PnL::new(
        Some(fx(10_000_000_000_000)),
        Some(fx(5_000_000_000_000)),
        pos(2_000_000_000_000),
        pos(1_000_000_000_000),
        100,
    );
    let pnl2 = PnL::new(
        Some(fx(20_000_000_000_000)),
        Some(fx(10_000_000_000_000)),
        pos(3_000_000_000_000),
        pos(2_000_000_000_000),
        200,
    );

    let items: Vec<PnL> = [&pnl1, &pnl2].iter().map(|p| **p).collect();
    let sum = pnl_sum(&items).unwrap();

    assert_eq!(sum.realized, Some(fx(30_000_000_000_000)));
    assert_eq!(sum.unrealized, Some(fx(15_000_000_000_000)));
    assert_eq!(sum.initial_costs, pos(5_000_000_000_000));
    assert_eq!(sum.initial_income, pos(3_000_000_000_000));
}

#[test]
fn test_pnl_add() {
    let pnl1 = PnL::new(
        Some(fx(10_000_000_000_000)),
        Some(fx(5_000_000_000_000)),
        pos(2_000_000_000_000),
        pos(1_000_000_000_000),
        100,
    );
    let pnl2 = PnL::new(
        Some(fx(20_000_000_000_000)),
        Some(fx(10_000_000_000_000)),
        pos(3_000_000_000_000),
        pos(2_000_000_000_000),
        200,
    );

    let sum = pnl1.add(&pnl2).unwrap();
    assert_eq!(sum.realized, Some(fx(30_000_000_000_000)));
    assert_eq!(sum.unrealized, Some(fx(15_000_000_000_000)));
    assert_eq!(sum.initial_costs, pos(5_000_000_000_000));
    assert_eq!(sum.initial_income, pos(3_000_000_000_000));
}

#[test]
fn test_pnl_add_ref() {
    let pnl1 = PnL::new(
        Some(fx(10_000_000_000_000)),
        Some(fx(5_000_000_000_000)),
        pos(2_000_000_000_000),
        pos(1_000_000_000_000),
        100,
    );
    let pnl2 = PnL::new(
        Some(fx(20_000_000_000_000)),
        Some(fx(10_000_000_000_000)),
        pos(3_000_000_000_000),
        pos(2_000_000_000_000),
        200,
    );

    let r1 = &pnl1;
    let r2 = &pnl2;
    let sum = r1.add(r2).unwrap();
    assert_eq!(sum.realized, Some(fx(30_000_000_000_000)));
    assert_eq!(sum.unrealized, Some(fx(15_000_000_000_000)));
    assert_eq!(sum.initial_costs, pos(5_000_000_000_000));
    assert_eq!(sum.initial_income, pos(3_000_000_000_000));
}

#[test]
fn test_pnl_add_keeps_later_timestamp() {
    let a = PnL::new(None, None, pos(0), pos(0), 500);
    let b = PnL::new(None, None, pos(0), pos(0), 300);
    let sum = a.add(&b).unwrap();
    assert_eq!(sum.date_time, 500);
    assert!(sum.realized.is_none());
    assert!(sum.unrealized.is_none());
}

#[test]
fn test_pnl_add_overflow() {
    let a = PnL::new(
        Some(fx(9_000_000_000_000_000_000)),
        None,
        pos(0),
        pos(0),
        0,
    );
    let b = PnL::new(
        Some(fx(9_000_000_000_000_000_000)),
        None,
        pos(0),
        pos(0),
        0,
    );
    let r = a.add(&b);
    assert!(matches!(
        r,
        Err(optionstratlib::error::GreeksError::MathError(
            optionstratlib::error::MathErrorKind::Overflow
        ))
    ));
}

#[test]
fn test_pnl_sum_empty() {
    let sum = pnl_sum(&Vec::new()).unwrap();
    assert!(sum.realized.is_none());
    assert!(sum.unrealized.is_none());
    assert_eq!(sum.initial_costs, pos(0));
    assert_eq!(sum.date_time, 0);
}

struct FlatCalculator;

impl PnLCalculator for FlatCalculator {
    fn calculate_pnl(
        &self,
        underlying_price: &Positive,
        _expiration_date: optionstratlib::model::ExpirationDate,
        implied_volatility: &Positive,
    ) -> Result<PnL, optionstratlib::error::GreeksError> {
        // half the underlying as realized, a hundred times the volatility
        // as unrealized
        let realized = fx(underlying_price.fx.m / 2);
        let unrealized = fx(implied_volatility.fx.m * 100);
        Ok(PnL::new(
            Some(realized),
            Some(unrealized),
            pos(10_000_000_000_000),
            pos(20_000_000_000_000),
            0,
        ))
    }

    fn calculate_pnl_at_expiration(
        &self,
        underlying_price: &Positive,
    ) -> Result<PnL, optionstratlib::error::GreeksError> {
        let realized = fx(underlying_price.fx.m * 2);
        Ok(PnL::new(
            Some(realized),
            None,
            pos(10_000_000_000_000),
            pos(20_000_000_000_000),
            0,
        ))
    }
}

#[test]
fn test_pnl_calculator_trait() {
    let calculator = FlatCalculator;

    let underlying_price = pos(100_000_000_000_000);
    let expiration_date =
        optionstratlib::model::ExpirationDate::Days(pos(30_000_000_000_000));
    let implied_volatility = pos(200_000_000_000);

    let pnl = calculator
        .calculate_pnl(&underlying_price, expiration_date, &implied_volatility)
        .unwrap();

    assert_eq!(pnl.realized, Some(fx(50_000_000_000_000)));
    assert_eq!(pnl.unrealized, Some(fx(20_000_000_000_000)));
    assert_eq!(pnl.initial_costs, pos(10_000_000_000_000));
    assert_eq!(pnl.initial_income, pos(20_000_000_000_000));

    let pnl_at_expiration = calculator
        .calculate_pnl_at_expiration(&underlying_price)
        .unwrap();

    assert_eq!(pnl_at_expiration.realized, Some(fx(200_000_000_000_000)));
    assert_eq!(pnl_at_expiration.unrealized, None);
    assert_eq!(pnl_at_expiration.initial_costs, pos(10_000_000_000_000));
    assert_eq!(pnl_at_expiration.initial_income, pos(20_000_000_000_000));
}

#[test]
fn test_adjustments_pnl_default_unsupported() {
    let calculator = FlatCalculator;
    let adjustment = optionstratlib::delta_neutral::DeltaAdjustment::NoAdjustmentNeeded;
    let r = calculator.adjustments_pnl(&adjustment);
    match r {
        Err(optionstratlib::error::GreeksError::StdError(msg)) => {
            assert_eq!(msg, "adjustments_pnl is not implemented for this Strategy");
        }
        _ => panic!("Wrong error type"),
    }
}
