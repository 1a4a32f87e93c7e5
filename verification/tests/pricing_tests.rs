//! Closed-form and lattice pricing.

use optionstratlib::black_scholes::{greeks_black_scholes, price_black_scholes};
use optionstratlib::binomial::price_binomial;
use optionstratlib::error::{GreeksError, InputErrorKind, MathErrorKind};
use optionstratlib::fixed::{Fx, FX_SCALE};
use optionstratlib::model::{ExpirationDate, Options, OptionStyle, OptionType, Side};
use optionstratlib::positive::Positive;

fn fx(m: i128) -> Fx {
    Fx { m }
}

fn pos(m: i128) -> Positive {
    Positive { fx: Fx { m } }
}

fn leg(
    style: OptionStyle,
    side: Side,
    strike_m: i128,
    days_m: i128,
    iv_m: i128,
    qty_m: i128,
    under_m: i128,
    rate_m: i128,
    div_m: i128,
) -> Options {
    Options {
        option_type: OptionType::European,
        side,
        underlying_symbol: "GOLD".to_string(),
        strike_price: pos(strike_m),
        expiration_date: ExpirationDate::Days(pos(days_m)),
        implied_volatility: pos(iv_m),
        quantity: pos(qty_m),
        underlying_price: pos(under_m),
        risk_free_rate: fx(rate_m),
        option_style: style,
        dividend_yield: pos(div_m),
        exotic_params: None,
    }
}

fn std_call() -> Options {
    leg(
        OptionStyle::Call,
        Side::Long,
        100_000_000_000_000,
        30_000_000_000_000,
        200_000_000_000,
        1_000_000_000_000,
        100_000_000_000_000,
        50_000_000_000,
        10_000_000_000,
    )
}

fn std_put() -> Options {
    let mut o = std_call();
    o.option_style = OptionStyle::Put;
    o
}

#[test]
fn test_black_scholes_call_value() {
    // at-the-money call, spot 100, 30 days, volatility 0.2, rate 0.05,
    // dividend yield 0.01; closed form gives 2.449248300869
    let p = price_black_scholes(&std_call()).unwrap();
    assert_eq!(p.m, 2_449_248_300_839);
    assert!((p.m - 2_449_248_300_869).abs() < 1_000_000);
}

#[test]
fn test_black_scholes_put_value() {
    // same parameters; closed form gives 2.121290689919
    let p = price_black_scholes(&std_put()).unwrap();
    assert_eq!(p.m, 2_121_290_689_939);
    assert!((p.m - 2_121_290_689_919).abs() < 1_000_000);
}

#[test]
fn test_put_call_parity_concrete() {
    // call - put must equal s e^(-q t) - k e^(-r t), here 0.32795761095,
    // within a millionth
    let c = price_black_scholes(&std_call()).unwrap();
    let p = price_black_scholes(&std_put()).unwrap();
    let diff = c.m - p.m;
    assert!((diff - 327_957_610_950).abs() < 1_000_000);
}

#[test]
fn test_binomial_converges_to_black_scholes() {
    // a five-hundred-step lattice stays within a hundredth of the closed form
    let bs = price_black_scholes(&std_call()).unwrap();
    let bin = price_binomial(&std_call(), 500).unwrap();
    assert!((bin.m - bs.m).abs() < 10_000_000_000);
    assert_eq!(bin.m, 2_448_105_910_400);
}

#[test]
fn test_binomial_american_put_premium() {
    // early exercise is worth something on a put: the American value
    // dominates the European one
    let mut amer = std_put();
    amer.option_type = OptionType::American;
    let euro = std_put();
    let pa = price_binomial(&amer, 200).unwrap();
    let pe = price_binomial(&euro, 200).unwrap();
    assert!(pa.m >= pe.m);
    assert_eq!(pa.m, 2_142_733_862_483);
    assert_eq!(pe.m, 2_118_435_921_786);
}

#[test]
fn test_zero_time_price_is_intrinsic() {
    // at expiration the price collapses to the intrinsic value
    let mut o = std_call();
    o.expiration_date = ExpirationDate::Days(pos(0));
    o.underlying_price = pos(105_000_000_000_000);
    let p = price_black_scholes(&o).unwrap();
    assert_eq!(p.m, 5_000_000_000_000);

    let mut o2 = std_put();
    o2.expiration_date = ExpirationDate::Days(pos(0));
    o2.underlying_price = pos(105_000_000_000_000);
    let p2 = price_black_scholes(&o2).unwrap();
    assert_eq!(p2.m, 0);
}

#[test]
fn test_zero_time_greeks() {
    // at expiration delta is a step function and every other Greek is zero
    let mut o = std_call();
    o.expiration_date = ExpirationDate::Days(pos(0));
    o.underlying_price = pos(105_000_000_000_000);
    let g = greeks_black_scholes(&o).unwrap();
    assert_eq!(g.delta.m, FX_SCALE);
    assert_eq!(g.gamma.m, 0);
    assert_eq!(g.theta.m, 0);
    assert_eq!(g.vega.m, 0);
    assert_eq!(g.rho.m, 0);
    assert_eq!(g.rho_d.m, 0);

    let mut o2 = std_call();
    o2.expiration_date = ExpirationDate::Days(pos(0));
    o2.underlying_price = pos(95_000_000_000_000);
    let g2 = greeks_black_scholes(&o2).unwrap();
    assert_eq!(g2.delta.m, 0);
}

#[test]
fn test_zero_volatility_price_discounted_intrinsic() {
    // with no volatility the price is the discounted intrinsic forward value
    let mut o = std_call();
    o.implied_volatility = pos(0);
    let p = price_black_scholes(&o).unwrap();
    assert_eq!(p.m, 327_957_610_900);

    let mut o2 = std_put();
    o2.implied_volatility = pos(0);
    let p2 = price_black_scholes(&o2).unwrap();
    assert_eq!(p2.m, 0);
}

#[test]
fn test_zero_volatility_greeks_division_by_zero() {
    // the general formula divides by sigma sqrt(t); with positive time and
    // zero volatility the Greeks fail with a division by zero
    let mut o = std_call();
    o.implied_volatility = pos(0);
    let r = greeks_black_scholes(&o);
    assert!(matches!(
        r,
        Err(GreeksError::MathError(MathErrorKind::DivisionByZero))
    ));
}

#[test]
fn test_binomial_rejects_zero_steps() {
    let r = price_binomial(&std_call(), 0);
    assert!(matches!(
        r,
        Err(GreeksError::MathError(MathErrorKind::InvalidDomain { .. }))
    ));
}

#[test]
fn test_option_new_rejects_negative_volatility() {
    let r = Options::new(
        OptionType::European,
        Side::Long,
        "GOLD".to_string(),
        fx(100_000_000_000_000),
        ExpirationDate::Days(pos(30_000_000_000_000)),
        fx(-200_000_000_000),
        fx(1_000_000_000_000),
        fx(100_000_000_000_000),
        fx(50_000_000_000),
        OptionStyle::Call,
        fx(0),
        None,
    );
    assert!(matches!(
        r,
        Err(GreeksError::InputError(InputErrorKind::InvalidVolatility { .. }))
    ));
}

#[test]
fn test_option_new_rejects_negative_price() {
    let r = Options::new(
        OptionType::European,
        Side::Long,
        "GOLD".to_string(),
        fx(100_000_000_000_000),
        ExpirationDate::Days(pos(30_000_000_000_000)),
        fx(200_000_000_000),
        fx(1_000_000_000_000),
        fx(-100_000_000_000_000),
        fx(50_000_000_000),
        OptionStyle::Call,
        fx(0),
        None,
    );
    assert!(matches!(
        r,
        Err(GreeksError::InputError(InputErrorKind::InvalidPrice { .. }))
    ));
}

#[test]
fn test_option_new_rejects_negative_strike() {
    let r = Options::new(
        OptionType::European,
        Side::Long,
        "GOLD".to_string(),
        fx(-100_000_000_000_000),
        ExpirationDate::Days(pos(30_000_000_000_000)),
        fx(200_000_000_000),
        fx(1_000_000_000_000),
        fx(100_000_000_000_000),
        fx(50_000_000_000),
        OptionStyle::Call,
        fx(0),
        None,
    );
    assert!(matches!(
        r,
        Err(GreeksError::InputError(InputErrorKind::InvalidStrike { .. }))
    ));
}

#[test]
fn test_expiration_timestamp_days() {
    // thirty days of seconds past the reference instant resolve to a
    // thirty-day count
    let exp = ExpirationDate::Timestamp(100 + 30 * 86_400);
    let d = exp.get_days(100).unwrap();
    assert_eq!(d.fx.m, 30_000_000_000_000);
}

#[test]
fn test_expiration_timestamp_in_past() {
    let exp = ExpirationDate::Timestamp(50);
    let r = exp.get_days(100);
    assert!(matches!(
        r,
        Err(GreeksError::InputError(InputErrorKind::InvalidTime { .. }))
    ));
}

#[test]
fn test_payoff_scales_and_signs() {
    // a long call of quantity two pays twice the intrinsic value; the
    // short side negates it
    let mut o = std_call();
    o.quantity = pos(2_000_000_000_000);
    let pay = o.payoff(pos(103_000_000_000_000)).unwrap();
    assert_eq!(pay.m, 6_000_000_000_000);
    o.side = Side::Short;
    let pay2 = o.payoff(pos(103_000_000_000_000)).unwrap();
    assert_eq!(pay2.m, -6_000_000_000_000);
    let pay3 = o.payoff(pos(90_000_000_000_000)).unwrap();
    assert_eq!(pay3.m, 0);
}
