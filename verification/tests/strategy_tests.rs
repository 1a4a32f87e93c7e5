//! Multi-leg aggregation, delta neutrality and the adjustment engine.

use optionstratlib::black_scholes::greeks_black_scholes;
use optionstratlib::delta_neutral::{
    aggregate_greeks, delta_adjustments, delta_neutrality, DeltaAdjustment, DELTA_THRESHOLD,
};
use optionstratlib::fixed::Fx;
use optionstratlib::model::{ExpirationDate, Options, OptionStyle, OptionType, Side};
use optionstratlib::positive::Positive;

fn fx(m: i128) -> Fx {
    Fx { m }
}

fn pos(m: i128) -> Positive {
    Positive { fx: Fx { m } }
}

fn condor_leg(style: OptionStyle, side: Side, strike_m: i128) -> Options {
    Options {
        option_type: OptionType::European,
        side,
        underlying_symbol: "GOLD".to_string(),
        strike_price: pos(strike_m),
        expiration_date: ExpirationDate::Days(pos(30_000_000_000_000)),
        implied_volatility: pos(154_800_000_000),
        quantity: pos(2_000_000_000_000),
        underlying_price: pos(2_646_900_000_000_000),
        risk_free_rate: fx(50_000_000_000),
        option_style: style,
        dividend_yield: pos(0),
        exotic_params: None,
    }
}

fn iron_condor() -> Vec<Options> {
    vec![
        condor_leg(OptionStyle::Call, Side::Short, 2_725_000_000_000_000),
        condor_leg(OptionStyle::Put, Side::Short, 2_560_000_000_000_000),
        condor_leg(OptionStyle::Call, Side::Long, 2_800_000_000_000_000),
        condor_leg(OptionStyle::Put, Side::Long, 2_500_000_000_000_000),
    ]
}

#[test]
fn test_iron_condor_integration() {
    let legs = iron_condor();
    let greeks = aggregate_greeks(&legs).unwrap();
    let epsilon: i128 = 1_000_000_000;

    assert!((greeks.delta.m - (-114_800_000_000)).abs() < epsilon);
    assert!((greeks.gamma.m - 16_500_000_000).abs() < epsilon);
    assert!((greeks.theta.m - (-3_905_076_820_000)).abs() < epsilon);
    assert!((greeks.vega.m - 14_775_331_933_000).abs() < epsilon);
    assert!((greeks.rho.m - 558_247_000_000).abs() < epsilon);
    assert!((greeks.rho_d.m - (-633_206_000_000)).abs() < epsilon);

    let neutrality = delta_neutrality(&legs).unwrap();
    assert!((neutrality.net_delta.m - (-114_800_000_000)).abs() < DELTA_THRESHOLD);
    assert!((neutrality.individual_deltas[2].delta.m - 249_200_000_000).abs() < DELTA_THRESHOLD);
    assert!((neutrality.individual_deltas[3].delta.m - (-161_100_000_000)).abs()
        < DELTA_THRESHOLD);
    assert!(!neutrality.is_neutral(fx(DELTA_THRESHOLD)));

    let adjustments = delta_adjustments(&legs).unwrap();
    assert_eq!(adjustments.len(), 4);
    match &adjustments[2] {
        DeltaAdjustment::BuyOptions {
            quantity,
            strike,
            option_style,
            side,
        } => {
            assert!((quantity.fx.m - 921_345_173_470).abs() < DELTA_THRESHOLD);
            assert_eq!(strike.fx.m, 2_800_000_000_000_000);
            assert_eq!(*option_style, OptionStyle::Call);
            assert_eq!(*side, Side::Long);
        }
        _ => panic!("Invalid suggestion"),
    }
}

#[test]
fn test_greeks_aggregation_reorder() {
    // net Greeks do not depend on the order of the legs
    let legs = iron_condor();
    let mut shuffled = iron_condor();
    shuffled.reverse();
    shuffled.swap(0, 2);
    let a = aggregate_greeks(&legs).unwrap();
    let b = aggregate_greeks(&shuffled).unwrap();
    assert_eq!(a.delta.m, b.delta.m);
    assert_eq!(a.gamma.m, b.gamma.m);
    assert_eq!(a.theta.m, b.theta.m);
    assert_eq!(a.vega.m, b.vega.m);
    assert_eq!(a.rho.m, b.rho.m);
    assert_eq!(a.rho_d.m, b.rho_d.m);
}

#[test]
fn test_adjustment_restores_neutrality() {
    // executing a proposed adjustment and recomputing the net delta lands
    // within the threshold
    let legs = iron_condor();
    let adjustments = delta_adjustments(&legs).unwrap();
    let hedge = match &adjustments[2] {
        DeltaAdjustment::BuyOptions { quantity, .. } => *quantity,
        _ => panic!("Invalid suggestion"),
    };
    let mut adjusted = iron_condor();
    adjusted[2].quantity = pos(adjusted[2].quantity.fx.m + hedge.fx.m);
    let after = delta_neutrality(&adjusted).unwrap();
    assert!(after.net_delta.m.abs() <= DELTA_THRESHOLD);
}

#[test]
fn test_aggregation_matches_per_leg_sum() {
    // aggregation is the plain componentwise sum of the per-leg Greeks
    let legs = iron_condor();
    let total = aggregate_greeks(&legs).unwrap();
    let mut delta: i128 = 0;
    let mut vega: i128 = 0;
    for leg in &legs {
        let g = greeks_black_scholes(leg).unwrap();
        delta += g.delta.m;
        vega += g.vega.m;
    }
    assert_eq!(total.delta.m, delta);
    assert_eq!(total.vega.m, vega);
}

#[test]
fn test_neutral_strategy_needs_no_adjustment() {
    // a long and a short of the same contract cancel exactly
    let a = condor_leg(OptionStyle::Call, Side::Long, 2_725_000_000_000_000);
    let b = condor_leg(OptionStyle::Call, Side::Short, 2_725_000_000_000_000);
    let legs = vec![a, b];
    let neutrality = delta_neutrality(&legs).unwrap();
    assert_eq!(neutrality.net_delta.m, 0);
    let adjustments = delta_adjustments(&legs).unwrap();
    assert_eq!(adjustments.len(), 1);
    assert!(matches!(adjustments[0], DeltaAdjustment::NoAdjustmentNeeded));
}
