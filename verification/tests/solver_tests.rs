//! Implied volatility recovery.

use optionstratlib::black_scholes::price_black_scholes;
use optionstratlib::error::{GreeksError, InputErrorKind, MathErrorKind};
use optionstratlib::fixed::Fx;
use optionstratlib::implied_vol::implied_volatility;
use optionstratlib::model::{ExpirationDate, Options, OptionStyle, OptionType, Side};
use optionstratlib::positive::Positive;

fn fx(m: i128) -> Fx {
    Fx { m }
}

fn pos(m: i128) -> Positive {
    Positive { fx: Fx { m } }
}

fn condor_call(iv_m: i128) -> Options {
    Options {
        option_type: OptionType::European,
        side: Side::Long,
        underlying_symbol: "GOLD".to_string(),
        strike_price: pos(2_725_000_000_000_000),
        expiration_date: ExpirationDate::Days(pos(30_000_000_000_000)),
        implied_volatility: pos(iv_m),
        quantity: pos(1_000_000_000_000),
        underlying_price: pos(2_646_900_000_000_000),
        risk_free_rate: fx(50_000_000_000),
        option_style: OptionStyle::Call,
        dividend_yield: pos(0),
        exotic_params: None,
    }
}

#[test]
fn test_implied_volatility_round_trip() {
    // price at a known volatility, then recover it from the price starting
    // elsewhere: the round trip lands within one ten-thousandth
    let truth = condor_call(154_800_000_000);
    let market = price_black_scholes(&truth).unwrap();
    assert_eq!(market.m, 21_306_637_581_284);

    let guess = condor_call(300_000_000_000);
    let recovered = implied_volatility(&guess, market, fx(1_000_000), 100).unwrap();
    assert!((recovered.fx.m - 154_800_000_000).abs() < 100_000_000);

    // and the recovered volatility reprices the option within the tolerance
    let mut check = condor_call(recovered.fx.m);
    check.implied_volatility = recovered;
    let reprice = price_black_scholes(&check).unwrap();
    assert!((reprice.m - market.m).abs() < 1_000_000);
}

#[test]
fn test_implied_volatility_zero_vega_at_expiry() {
    // at expiration the price does not respond to volatility: unless the
    // intrinsic value already matches, the solver fails fast on zero vega
    let mut o = condor_call(154_800_000_000);
    o.expiration_date = ExpirationDate::Days(pos(0));
    let r = implied_volatility(&o, fx(5_000_000_000_000), fx(1_000_000), 100);
    assert!(matches!(
        r,
        Err(GreeksError::InputError(InputErrorKind::InvalidVolatility { .. }))
    ));
}

#[test]
fn test_implied_volatility_convergence_failure() {
    // an unreachable tolerance exhausts the iteration budget, and the
    // error carries that budget and the tolerance asked for
    let truth = condor_call(154_800_000_000);
    let market = price_black_scholes(&truth).unwrap();
    let guess = condor_call(300_000_000_000);
    let r = implied_volatility(&guess, market, fx(0), 7);
    match r {
        Err(GreeksError::MathError(MathErrorKind::ConvergenceFailure {
            iterations,
            tolerance,
        })) => {
            assert_eq!(iterations, 7);
            assert_eq!(tolerance.m, 0);
        }
        _ => panic!("Wrong error type"),
    }
}
