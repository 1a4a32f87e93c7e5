//! Simulation pricers: Monte Carlo under geometric Brownian motion and the
//! telegraph process.

use optionstratlib::black_scholes::price_black_scholes;
use optionstratlib::error::{GreeksError, InputErrorKind, MathErrorKind};
use optionstratlib::fixed::Fx;
use optionstratlib::model::{ExpirationDate, Options, OptionStyle, OptionType, Side};
use optionstratlib::monte_carlo::{price_monte_carlo, price_monte_carlo_at};
use optionstratlib::positive::Positive;
use optionstratlib::telegraph::{
    estimate_telegraph_parameters, price_telegraph, TelegraphProcess,
};

fn fx(m: i128) -> Fx {
    Fx { m }
}

fn pos(m: i128) -> Positive {
    Positive { fx: Fx { m } }
}

fn atm_call() -> Options {
    Options {
        option_type: OptionType::European,
        side: Side::Long,
        underlying_symbol: "GOLD".to_string(),
        strike_price: pos(100_000_000_000_000),
        expiration_date: ExpirationDate::Days(pos(30_000_000_000_000)),
        implied_volatility: pos(200_000_000_000),
        quantity: pos(1_000_000_000_000),
        underlying_price: pos(100_000_000_000_000),
        risk_free_rate: fx(50_000_000_000),
        option_style: OptionStyle::Call,
        dividend_yield: pos(10_000_000_000),
        exotic_params: None,
    }
}

#[test]
fn test_monte_carlo_consistency() {
    // a hundred thousand paths land within three standard errors of the
    // closed form
    let bs = price_black_scholes(&atm_call()).unwrap();
    let (price, se) = price_monte_carlo_at(&atm_call(), 100_000, 1, 42, 0).unwrap();
    assert_eq!(price.m, 2_462_692_401_037);
    assert_eq!(se.m, 11_363_817_272);
    assert!((price.m - bs.m).abs() <= 3 * se.m);
    assert!(se.m > 0);
}

#[test]
fn test_monte_carlo_deterministic_seed() {
    // the generator is explicit, so the same seed reproduces the estimate
    let a = price_monte_carlo_at(&atm_call(), 2_000, 4, 7, 0).unwrap();
    let b = price_monte_carlo_at(&atm_call(), 2_000, 4, 7, 0).unwrap();
    assert_eq!(a.0.m, b.0.m);
    assert_eq!(a.1.m, b.1.m);
    let c = price_monte_carlo_at(&atm_call(), 2_000, 4, 8, 0).unwrap();
    assert!(a.0.m != c.0.m);
}

#[test]
fn test_monte_carlo_rejects_american() {
    let mut o = atm_call();
    o.option_type = OptionType::American;
    let r = price_monte_carlo(&o, 100, 1);
    assert!(matches!(
        r,
        Err(GreeksError::MathError(MathErrorKind::InvalidDomain { .. }))
    ));
}

#[test]
fn test_monte_carlo_rejects_zero_paths() {
    let r = price_monte_carlo(&atm_call(), 0, 1);
    assert!(matches!(
        r,
        Err(GreeksError::MathError(MathErrorKind::InvalidDomain { .. }))
    ));
}

#[test]
fn test_telegraph_price_reasonable() {
    // the estimate is positive, reproducible, and pointwise monotone in
    // the strike: the same simulated paths pay less against a higher one
    let p = price_telegraph(&atm_call(), 5_000, None, None).unwrap();
    assert!(p.m > 0);
    let again = price_telegraph(&atm_call(), 5_000, None, None).unwrap();
    assert_eq!(p.m, again.m);
    let mut far = atm_call();
    far.strike_price = pos(120_000_000_000_000);
    let p_far = price_telegraph(&far, 5_000, None, None).unwrap();
    assert!(p_far.m <= p.m);
}

#[test]
fn test_telegraph_negative_rate_rejected() {
    let r = TelegraphProcess::new(fx(-1), fx(0));
    assert!(matches!(
        r,
        Err(GreeksError::InputError(InputErrorKind::InvalidRate { .. }))
    ));
}

#[test]
fn test_telegraph_estimate_parameters() {
    // alternating signs flip at every observation: both departure rates
    // come out as one per observation interval
    let series = vec![
        fx(1_000_000_000_000),
        fx(-2_000_000_000_000),
        fx(3_000_000_000_000),
        fx(-4_000_000_000_000),
        fx(5_000_000_000_000),
    ];
    let p = estimate_telegraph_parameters(&series).unwrap();
    assert_eq!(p.lambda_up.fx.m, 1_000_000_000_000);
    assert_eq!(p.lambda_down.fx.m, 1_000_000_000_000);
}

#[test]
fn test_telegraph_estimate_needs_both_states() {
    // a series that never goes negative has an undefined down-state
    // frequency
    let series = vec![fx(1), fx(2), fx(3)];
    let r = estimate_telegraph_parameters(&series);
    assert!(matches!(
        r,
        Err(GreeksError::MathError(MathErrorKind::DivisionByZero))
    ));
}
