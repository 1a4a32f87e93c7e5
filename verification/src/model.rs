//! The option contract model: style, side, exercise type, expiration, and
//! the immutable description of a single option leg with its payoff.

use vstd::prelude::*;

use crate::error::{GreeksError, InputErrorKind, MathErrorKind};
use crate::fixed::{fx_div_v, fx_in_range, fx_mul_v, tz_div, Fx, FX_SCALE};
use crate::positive::Positive;

verus! {

/// Whether the option is a call or a put.
#[derive(Clone, Copy, Debug, PartialEq, Eq, Structural)]
pub enum OptionStyle {
    /// The right to buy at the strike.
    Call,
    /// The right to sell at the strike.
    Put,
}

/// Whether the position is held long or short.
#[derive(Clone, Copy, Debug, PartialEq, Eq, Structural)]
pub enum Side {
    /// A bought position.
    Long,
    /// A written position.
    Short,
}

/// When the option may be exercised.
#[derive(Clone, Copy, Debug, PartialEq, Eq, Structural)]
pub enum OptionType {
    /// Exercise only at expiration.
    European,
    /// Exercise at any time up to expiration.
    American,
}

/// Number of seconds in a day.
pub const SECONDS_PER_DAY: i64 = 86_400;

/// When the option expires: either a day count from now, or an absolute
/// timestamp in seconds (the plain-value form of a calendar date, which a
/// caller that holds a real date converts at the boundary).
#[derive(Clone, Copy, Debug, PartialEq, Eq, Structural)]
pub enum ExpirationDate {
    /// Days remaining until expiration.
    Days(Positive),
    /// Absolute expiration instant, in seconds.
    Timestamp(i64),
}

/// Mantissa of the day count that a timestamp expiration resolves to at
/// instant `now`: the remaining seconds scaled into fixed-point days.
pub open spec fn days_of_timestamp(ts: int, now: int) -> int {
    tz_div((ts - now) * (FX_SCALE as int), SECONDS_PER_DAY as int)
}

impl ExpirationDate {
    /// The carried day count is in range.
    pub open spec fn wf(self) -> bool {
        match self {
            ExpirationDate::Days(d) => d.wf(),
            ExpirationDate::Timestamp(_) => true,
        }
    }

    /// Day count until expiration, seen from instant `now` (seconds).
    /// For a day-count expiration, `now` plays no part. Fails with an
    /// invalid-time error exactly when the timestamp lies in the past, and
    /// with overflow when the day count leaves the fixed-point range.
    pub fn get_days(&self, now: i64) -> (r: Result<Positive, GreeksError>)
        requires
            self.wf(),
        ensures
            r is Ok <==> match *self {
                ExpirationDate::Days(_) => true,
                ExpirationDate::Timestamp(ts) => ts >= now && days_of_timestamp(ts as int,
                    now as int) <= crate::fixed::FX_LIM as int,
            },
            r matches Err(e) ==> e.wf(),
            match r {
                Ok(d) => {
                    &&& d.wf()
                    &&& match *self {
                        ExpirationDate::Days(d0) => d == d0,
                        ExpirationDate::Timestamp(ts) => ts >= now && d.fx.m
                            == days_of_timestamp(ts as int, now as int),
                    }
                },
                Err(e) => {
                    &&& (self matches ExpirationDate::Timestamp(ts))
                    &&& match *self {
                        ExpirationDate::Days(_) => false,
                        ExpirationDate::Timestamp(ts) => (ts < now <==> e matches
                            GreeksError::InputError(InputErrorKind::InvalidTime { .. }))
                            && (ts >= now <==> e == GreeksError::MathError(
                            MathErrorKind::Overflow)),
                    }
                },
            },
    {
        match self {
            ExpirationDate::Days(d) => Ok(*d),
            ExpirationDate::Timestamp(ts) => {
                if *ts < now {
                    return Err(GreeksError::invalid_time(Positive::zero(),
                        "Expiration date is in the past"));
                }
                let secs: i128 = (*ts as i128) - (now as i128);
                assert(secs * (FX_SCALE as i128) <= 18_446_744_073_709_551_615i128
                    * (FX_SCALE as i128)) by (nonlinear_arith)
                    requires
                        0 <= secs <= 18_446_744_073_709_551_615i128,
                ;
                let scaled: i128 = secs * FX_SCALE;
                let days: i128 = ((scaled as u128) / (SECONDS_PER_DAY as u128)) as i128;
                proof {
                    assert(scaled >= 0);
                    assert(days as int == tz_div(scaled as int, SECONDS_PER_DAY as int));
                }
                if days > crate::fixed::FX_LIM {
                    return Err(GreeksError::MathError(MathErrorKind::Overflow));
                }
                Ok(Positive { fx: Fx { m: days } })
            },
        }
    }
}

/// Relies on chrono::Utc::now for the current instant, as seconds since
/// the Unix epoch, to resolve a timestamp expiration into a day count.
/// Two calls may differ; nothing is assumed of the value. The outside
/// call aborts if the system clock reads before the Unix epoch, an
/// environmental condition no precondition can exclude.
#[verifier::external_body]
pub(crate) fn now_secs() -> i64 {
    chrono::Utc::now().timestamp()
}

/// Day count of an expiration seen from instant `now`.
pub open spec fn expiry_days_v(exp: ExpirationDate, now: int) -> int {
    match exp {
        ExpirationDate::Days(d) => d.v(),
        ExpirationDate::Timestamp(ts) => days_of_timestamp(ts as int, now),
    }
}

/// Whether an expiration resolves at instant `now`: a timestamp must not
/// lie in the past and its day count must stay representable.
pub open spec fn expiry_ok(exp: ExpirationDate, now: int) -> bool {
    match exp {
        ExpirationDate::Days(_) => true,
        ExpirationDate::Timestamp(ts) => ts >= now && days_of_timestamp(ts as int, now)
            <= crate::fixed::FX_LIM as int,
    }
}

/// Mantissa of the year fraction for a day count: days over 365.
pub open spec fn years_v(days: int) -> int {
    fx_div_v(days, 365 * (FX_SCALE as int))
}

/// Optional parameters for exotic payoffs: the spot prices observed along
/// the life of the contract.
#[derive(Clone, Debug)]
pub struct ExoticParams {
    /// Observed spot prices, where the payoff depends on the path.
    pub spot_prices: Option<Vec<Positive>>,
}

/// An immutable description of a single option leg.
#[derive(Clone, Debug)]
pub struct Options {
    /// European or American exercise.
    pub option_type: OptionType,
    /// Long or short.
    pub side: Side,
    /// Ticker of the underlying.
    pub underlying_symbol: String,
    /// Strike price.
    pub strike_price: Positive,
    /// When the contract expires.
    pub expiration_date: ExpirationDate,
    /// Volatility used for pricing.
    pub implied_volatility: Positive,
    /// Number of contracts.
    pub quantity: Positive,
    /// Current price of the underlying.
    pub underlying_price: Positive,
    /// Continuously compounded risk-free rate; may be negative.
    pub risk_free_rate: Fx,
    /// Call or put.
    pub option_style: OptionStyle,
    /// Continuous dividend yield of the underlying.
    pub dividend_yield: Positive,
    /// Parameters for exotic payoffs, where the contract has any.
    pub exotic_params: Option<ExoticParams>,
}

/// Mantissa of the intrinsic value of one contract at `spot`:
/// `max(spot - strike, 0)` for a call, `max(strike - spot, 0)` for a put.
pub open spec fn intrinsic_v(style: OptionStyle, spot: int, strike: int) -> int {
    match style {
        OptionStyle::Call => if spot >= strike {
            spot - strike
        } else {
            0
        },
        OptionStyle::Put => if strike >= spot {
            strike - spot
        } else {
            0
        },
    }
}

/// Sign that the side gives a position: long counts positive, short negative.
pub open spec fn side_sign(side: Side) -> int {
    match side {
        Side::Long => 1,
        Side::Short => -1,
    }
}

/// Mantissa of the payoff of the whole leg at `spot`: the intrinsic value
/// scaled by the quantity, negated for a short position.
pub open spec fn payoff_v(style: OptionStyle, side: Side, spot: int, strike: int, qty: int)
    -> int {
    side_sign(side) * fx_mul_v(qty, intrinsic_v(style, spot, strike))
}

impl Options {
    /// All carried numbers are in range and non-negative where promised.
    pub open spec fn wf(self) -> bool {
        &&& self.strike_price.wf()
        &&& self.expiration_date.wf()
        &&& self.implied_volatility.wf()
        &&& self.quantity.wf()
        &&& self.underlying_price.wf()
        &&& self.risk_free_rate.wf()
        &&& self.dividend_yield.wf()
    }

    /// Builds a leg after validating the inputs: the underlying price, the
    /// volatility, the strike and the quantity must not be negative, and
    /// the dividend yield must not be negative. Each rejection names the
    /// offending input, checked in that order.
    #[allow(clippy::too_many_arguments)]
    pub fn new(
        option_type: OptionType,
        side: Side,
        underlying_symbol: String,
        strike_price: Fx,
        expiration_date: ExpirationDate,
        implied_volatility: Fx,
        quantity: Fx,
        underlying_price: Fx,
        risk_free_rate: Fx,
        option_style: OptionStyle,
        dividend_yield: Fx,
        exotic_params: Option<ExoticParams>,
    ) -> (r: Result<Options, GreeksError>)
        requires
            strike_price.wf(),
            implied_volatility.wf(),
            quantity.wf(),
            underlying_price.wf(),
            risk_free_rate.wf(),
            dividend_yield.wf(),
            expiration_date.wf(),
        ensures
            underlying_price.m < 0 ==> (r matches Err(GreeksError::InputError(
                InputErrorKind::InvalidPrice { value, .. })) && value == underlying_price),
            underlying_price.m >= 0 && implied_volatility.m < 0 ==> (r matches Err(
                GreeksError::InputError(InputErrorKind::InvalidVolatility { value, .. }))
                && value == implied_volatility),
            underlying_price.m >= 0 && implied_volatility.m >= 0 && strike_price.m < 0 ==> (
                r matches Err(GreeksError::InputError(InputErrorKind::InvalidStrike { .. }))),
            underlying_price.m >= 0 && implied_volatility.m >= 0 && strike_price.m >= 0
                && quantity.m < 0 ==> (r matches Err(GreeksError::InputError(
                InputErrorKind::InvalidPrice { value, .. })) && value == quantity),
            underlying_price.m >= 0 && implied_volatility.m >= 0 && strike_price.m >= 0
                && quantity.m >= 0 && dividend_yield.m < 0 ==> (r matches Err(
                GreeksError::InputError(InputErrorKind::InvalidRate { value, .. }))
                && value == dividend_yield),
            r matches Ok(o) ==> {
                &&& o.wf()
                &&& o.option_type == option_type
                &&& o.side == side
                &&& o.strike_price.fx == strike_price
                &&& o.expiration_date == expiration_date
                &&& o.implied_volatility.fx == implied_volatility
                &&& o.quantity.fx == quantity
                &&& o.underlying_price.fx == underlying_price
                &&& o.risk_free_rate == risk_free_rate
                &&& o.option_style == option_style
                &&& o.dividend_yield.fx == dividend_yield
            },
            r is Ok <==> underlying_price.m >= 0 && implied_volatility.m >= 0
                && strike_price.m >= 0 && quantity.m >= 0 && dividend_yield.m >= 0,
    {
        if underlying_price.m < 0 {
            return Err(GreeksError::InputError(InputErrorKind::InvalidPrice {
                value: underlying_price,
                reason: String::from_str("Price cannot be negative"),
            }));
        }
        if implied_volatility.m < 0 {
            return Err(GreeksError::invalid_volatility(implied_volatility,
                "Volatility cannot be negative"));
        }
        if strike_price.m < 0 {
            return Err(GreeksError::InputError(InputErrorKind::InvalidStrike {
                value: strike_price.to_text(),
                reason: String::from_str("Strike cannot be negative"),
            }));
        }
        if quantity.m < 0 {
            return Err(GreeksError::InputError(InputErrorKind::InvalidPrice {
                value: quantity,
                reason: String::from_str("Quantity cannot be negative"),
            }));
        }
        if dividend_yield.m < 0 {
            return Err(GreeksError::InputError(InputErrorKind::InvalidRate {
                value: dividend_yield,
                reason: String::from_str("Dividend yield cannot be negative"),
            }));
        }
        Ok(Options {
            option_type,
            side,
            underlying_symbol,
            strike_price: Positive { fx: strike_price },
            expiration_date,
            implied_volatility: Positive { fx: implied_volatility },
            quantity: Positive { fx: quantity },
            underlying_price: Positive { fx: underlying_price },
            risk_free_rate,
            option_style,
            dividend_yield: Positive { fx: dividend_yield },
            exotic_params,
        })
    }

    /// Year fraction until expiration, seen from instant `now` (seconds).
    /// Fails exactly as `ExpirationDate::get_days` does.
    pub fn time_years_at(&self, now: i64) -> (r: Result<Positive, GreeksError>)
        requires
            self.wf(),
        ensures
            r is Ok <==> expiry_ok(self.expiration_date, now as int),
            r matches Ok(t) ==> t.wf() && t.v() == years_v(expiry_days_v(self.expiration_date,
                now as int)),
            r matches Err(e) ==> e.wf() && ((e matches GreeksError::InputError(
                InputErrorKind::InvalidTime { .. })) || e == GreeksError::MathError(
                MathErrorKind::Overflow)),
    {
        let days = match self.expiration_date.get_days(now) {
            Ok(d) => d,
            Err(e) => {
                return Err(e);
            },
        };
        proof {
            crate::fixed::lemma_div_v_small(days.v(), 365 * (FX_SCALE as int));
            crate::fixed::lemma_div_v_nonneg(days.v(), 365 * (FX_SCALE as int));
        }
        let t = match days.fx.cdiv(Fx { m: 365 * FX_SCALE }) {
            Some(v) => v,
            None => {
                return Err(GreeksError::MathError(MathErrorKind::Overflow));
            },
        };
        Ok(Positive { fx: t })
    }

    /// Intrinsic value of one contract at `spot`.
    pub fn intrinsic(&self, spot: Positive) -> (r: Positive)
        requires
            self.wf(),
            spot.wf(),
        ensures
            r.wf(),
            r.fx.m == intrinsic_v(self.option_style, spot.fx.m as int,
                self.strike_price.fx.m as int),
    {
        match self.option_style {
            OptionStyle::Call => {
                if spot.fx.m >= self.strike_price.fx.m {
                    Positive { fx: Fx { m: spot.fx.m - self.strike_price.fx.m } }
                } else {
                    Positive { fx: Fx { m: 0 } }
                }
            },
            OptionStyle::Put => {
                if self.strike_price.fx.m >= spot.fx.m {
                    Positive { fx: Fx { m: self.strike_price.fx.m - spot.fx.m } }
                } else {
                    Positive { fx: Fx { m: 0 } }
                }
            },
        }
    }

    /// Payoff of the whole leg at `spot`: the intrinsic value scaled by the
    /// quantity, negated for a short position. Fails with overflow exactly
    /// when the scaled value leaves the fixed-point range.
    pub fn payoff(&self, spot: Positive) -> (r: Result<Fx, GreeksError>)
        requires
            self.wf(),
            spot.wf(),
        ensures
            r matches Ok(v) ==> v.wf() && v.m == payoff_v(self.option_style, self.side,
                spot.fx.m as int, self.strike_price.fx.m as int, self.quantity.fx.m as int),
            r is Err <==> !fx_in_range(fx_mul_v(self.quantity.fx.m as int, intrinsic_v(
                self.option_style, spot.fx.m as int, self.strike_price.fx.m as int))),
            r matches Err(e) ==> e == GreeksError::MathError(MathErrorKind::Overflow),
    {
        let base = self.intrinsic(spot);
        match self.quantity.cmul(base) {
            Some(scaled) => {
                match self.side {
                    Side::Long => Ok(scaled.fx),
                    Side::Short => Ok(scaled.fx.neg()),
                }
            },
            None => Err(GreeksError::MathError(MathErrorKind::Overflow)),
        }
    }
}

} // verus!
