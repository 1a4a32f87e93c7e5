//! Error taxonomy of the engine.
//!
//! Three top-level kinds: mathematical errors (division by zero, overflow,
//! invalid domain, convergence failure), input validation errors (volatility,
//! time, price, rate, strike), and per-Greek calculation errors with a
//! wrapped decimal-arithmetic error. Every kind renders itself to text
//! through a `message` method whose contract gives the exact characters.

use vstd::prelude::*;
use vstd::string::*;

use crate::fixed::Fx;
use crate::fmt::{dec_digits, fx_digits, usize_str, u64_str};
use crate::positive::Positive;

verus! {

/// Errors of the underlying decimal arithmetic.
#[derive(Debug)]
pub enum DecimalError {
    /// A precision outside what the fixed-point representation carries.
    InvalidPrecision {
        /// The number of fractional digits that was asked for.
        precision: u32,
        /// Why the precision is not acceptable.
        reason: String,
    },
    /// A value that cannot be represented.
    InvalidValue {
        /// Why the value is not representable.
        reason: String,
    },
}

impl DecimalError {
    /// The exact text `message` renders.
    pub open spec fn message_v(self) -> Seq<char> {
        match self {
            DecimalError::InvalidPrecision { precision, reason } => "Invalid decimal precision "@
                + dec_digits(precision as nat) + ": "@ + reason@,
            DecimalError::InvalidValue { reason } => "Invalid decimal value: "@ + reason@,
        }
    }

    /// Renders the error as text.
    pub fn message(&self) -> (r: String)
        ensures
            r@ == self.message_v(),
    {
        match self {
            DecimalError::InvalidPrecision { precision, reason } => {
                let mut s = String::from_str("Invalid decimal precision ");
                let digits = u64_str(*precision as u64);
                s.append(digits.as_str());
                s.append(": ");
                s.append(reason.as_str());
                s
            },
            DecimalError::InvalidValue { reason } => {
                let mut s = String::from_str("Invalid decimal value: ");
                s.append(reason.as_str());
                s
            },
        }
    }
}

/// Errors of the volatility solver.
#[derive(Debug)]
pub enum VolatilityError {
    /// Vega vanished, so the price does not respond to volatility.
    ZeroVega,
}

impl VolatilityError {
    /// The exact text `message` renders.
    pub open spec fn message_v(self) -> Seq<char> {
        "Vega is zero, cannot calculate implied volatility"@
    }

    /// Renders the error as text.
    pub fn message(&self) -> (r: String)
        ensures
            r@ == self.message_v(),
    {
        String::from_str("Vega is zero, cannot calculate implied volatility")
    }
}

/// Mathematical failures during a calculation.
#[derive(Debug)]
pub enum MathErrorKind {
    /// A division whose divisor is zero.
    DivisionByZero,
    /// A value left the representable fixed-point range.
    Overflow,
    /// A function was evaluated outside its valid domain.
    InvalidDomain {
        /// The value outside the domain.
        value: Fx,
        /// Why the value is invalid.
        reason: String,
    },
    /// An iterative method did not converge.
    ConvergenceFailure {
        /// How many iterations were performed before giving up.
        iterations: usize,
        /// The tolerance that was not met.
        tolerance: Fx,
    },
}

impl MathErrorKind {
    /// The exact text `message` renders.
    pub open spec fn message_v(self) -> Seq<char> {
        match self {
            MathErrorKind::DivisionByZero => "Division by zero"@,
            MathErrorKind::Overflow => "Numerical overflow"@,
            MathErrorKind::InvalidDomain { value, reason } => "Invalid domain value "@
                + fx_digits(value.m as int) + ": "@ + reason@,
            MathErrorKind::ConvergenceFailure { iterations, tolerance } =>
                "Failed to converge after "@ + dec_digits(iterations as nat)
                + " iterations (tolerance: "@ + fx_digits(tolerance.m as int) + ")"@,
        }
    }

    /// Renders the error as text.
    pub fn message(&self) -> (r: String)
        requires
            self matches MathErrorKind::InvalidDomain { value, .. } ==> value.wf(),
            self matches MathErrorKind::ConvergenceFailure { tolerance, .. } ==> tolerance.wf(),
        ensures
            r@ == self.message_v(),
    {
        match self {
            MathErrorKind::DivisionByZero => String::from_str("Division by zero"),
            MathErrorKind::Overflow => String::from_str("Numerical overflow"),
            MathErrorKind::InvalidDomain { value, reason } => {
                let mut s = String::from_str("Invalid domain value ");
                let digits = value.to_text();
                s.append(digits.as_str());
                s.append(": ");
                s.append(reason.as_str());
                s
            },
            MathErrorKind::ConvergenceFailure { iterations, tolerance } => {
                let mut s = String::from_str("Failed to converge after ");
                let digits = usize_str(*iterations);
                s.append(digits.as_str());
                s.append(" iterations (tolerance: ");
                let tol = tolerance.to_text();
                s.append(tol.as_str());
                s.append(")");
                s
            },
        }
    }
}

/// Rejections of input parameters.
#[derive(Debug)]
pub enum InputErrorKind {
    /// A volatility outside acceptable bounds.
    InvalidVolatility {
        /// The volatility that was provided.
        value: Fx,
        /// Why it is invalid.
        reason: String,
    },
    /// A time to expiration outside acceptable bounds.
    InvalidTime {
        /// The time value that was provided.
        value: Positive,
        /// Why it is invalid.
        reason: String,
    },
    /// A price outside acceptable bounds.
    InvalidPrice {
        /// The price that was provided.
        value: Fx,
        /// Why it is invalid.
        reason: String,
    },
    /// An interest rate outside acceptable bounds.
    InvalidRate {
        /// The rate that was provided.
        value: Fx,
        /// Why it is invalid.
        reason: String,
    },
    /// A strike price outside acceptable bounds.
    InvalidStrike {
        /// The strike that was provided, as text.
        value: String,
        /// Why it is invalid.
        reason: String,
    },
}

impl InputErrorKind {
    /// The exact text `message` renders.
    pub open spec fn message_v(self) -> Seq<char> {
        match self {
            InputErrorKind::InvalidVolatility { value, reason } => "Invalid volatility "@
                + fx_digits(value.m as int) + ": "@ + reason@,
            InputErrorKind::InvalidTime { value, reason } => "Invalid time value "@
                + fx_digits(value.fx.m as int) + ": "@ + reason@,
            InputErrorKind::InvalidPrice { value, reason } => "Invalid price "@
                + fx_digits(value.m as int) + ": "@ + reason@,
            InputErrorKind::InvalidRate { value, reason } => "Invalid rate "@
                + fx_digits(value.m as int) + ": "@ + reason@,
            InputErrorKind::InvalidStrike { value, reason } => "Invalid strike price "@
                + value@ + ": "@ + reason@,
        }
    }

    /// Whether the carried values are in range.
    pub open spec fn wf(self) -> bool {
        match self {
            InputErrorKind::InvalidVolatility { value, .. } => value.wf(),
            InputErrorKind::InvalidTime { value, .. } => value.fx.wf(),
            InputErrorKind::InvalidPrice { value, .. } => value.wf(),
            InputErrorKind::InvalidRate { value, .. } => value.wf(),
            InputErrorKind::InvalidStrike { .. } => true,
        }
    }

    /// Renders the error as text.
    pub fn message(&self) -> (r: String)
        requires
            self.wf(),
        ensures
            r@ == self.message_v(),
    {
        match self {
            InputErrorKind::InvalidVolatility { value, reason } => {
                let mut s = String::from_str("Invalid volatility ");
                let digits = value.to_text();
                s.append(digits.as_str());
                s.append(": ");
                s.append(reason.as_str());
                s
            },
            InputErrorKind::InvalidTime { value, reason } => {
                let mut s = String::from_str("Invalid time value ");
                let digits = value.fx.to_text();
                s.append(digits.as_str());
                s.append(": ");
                s.append(reason.as_str());
                s
            },
            InputErrorKind::InvalidPrice { value, reason } => {
                let mut s = String::from_str("Invalid price ");
                let digits = value.to_text();
                s.append(digits.as_str());
                s.append(": ");
                s.append(reason.as_str());
                s
            },
            InputErrorKind::InvalidRate { value, reason } => {
                let mut s = String::from_str("Invalid rate ");
                let digits = value.to_text();
                s.append(digits.as_str());
                s.append(": ");
                s.append(reason.as_str());
                s
            },
            InputErrorKind::InvalidStrike { value, reason } => {
                let mut s = String::from_str("Invalid strike price ");
                s.append(value.as_str());
                s.append(": ");
                s.append(reason.as_str());
                s
            },
        }
    }
}

/// Failures tied to one Greek, or to the decimal arithmetic under it.
#[derive(Debug)]
pub enum CalculationErrorKind {
    /// The delta calculation failed.
    DeltaError {
        /// What caused the failure.
        reason: String,
    },
    /// The gamma calculation failed.
    GammaError {
        /// What caused the failure.
        reason: String,
    },
    /// The theta calculation failed.
    ThetaError {
        /// What caused the failure.
        reason: String,
    },
    /// The vega calculation failed.
    VegaError {
        /// What caused the failure.
        reason: String,
    },
    /// The rho calculation failed.
    RhoError {
        /// What caused the failure.
        reason: String,
    },
    /// A decimal-arithmetic error underneath a Greek calculation.
    DecimalError {
        /// The wrapped decimal error.
        error: DecimalError,
    },
}

impl CalculationErrorKind {
    /// The exact text `message` renders.
    pub open spec fn message_v(self) -> Seq<char> {
        match self {
            CalculationErrorKind::DeltaError { reason } => "Delta calculation error: "@ + reason@,
            CalculationErrorKind::GammaError { reason } => "Gamma calculation error: "@ + reason@,
            CalculationErrorKind::ThetaError { reason } => "Theta calculation error: "@ + reason@,
            CalculationErrorKind::VegaError { reason } => "Vega calculation error: "@ + reason@,
            CalculationErrorKind::RhoError { reason } => "Rho calculation error: "@ + reason@,
            CalculationErrorKind::DecimalError { error } => "Decimal error: "@ + error.message_v(),
        }
    }

    /// Renders the error as text.
    pub fn message(&self) -> (r: String)
        ensures
            r@ == self.message_v(),
    {
        match self {
            CalculationErrorKind::DeltaError { reason } => {
                let mut s = String::from_str("Delta calculation error: ");
                s.append(reason.as_str());
                s
            },
            CalculationErrorKind::GammaError { reason } => {
                let mut s = String::from_str("Gamma calculation error: ");
                s.append(reason.as_str());
                s
            },
            CalculationErrorKind::ThetaError { reason } => {
                let mut s = String::from_str("Theta calculation error: ");
                s.append(reason.as_str());
                s
            },
            CalculationErrorKind::VegaError { reason } => {
                let mut s = String::from_str("Vega calculation error: ");
                s.append(reason.as_str());
                s
            },
            CalculationErrorKind::RhoError { reason } => {
                let mut s = String::from_str("Rho calculation error: ");
                s.append(reason.as_str());
                s
            },
            CalculationErrorKind::DecimalError { error } => {
                let mut s = String::from_str("Decimal error: ");
                let inner = error.message();
                s.append(inner.as_str());
                s
            },
        }
    }
}

/// Any failure of a Greek calculation or its inputs.
#[derive(Debug)]
pub enum GreeksError {
    /// A mathematical failure.
    MathError(MathErrorKind),
    /// An input that validation rejected.
    InputError(InputErrorKind),
    /// A failure inside one Greek's calculation.
    CalculationError(CalculationErrorKind),
    /// A failure carried over from elsewhere, as text.
    StdError(String),
}

impl GreeksError {
    /// The exact text `message` renders.
    pub open spec fn message_v(self) -> Seq<char> {
        match self {
            GreeksError::MathError(err) => "Mathematical error: "@ + err.message_v(),
            GreeksError::InputError(err) => "Input validation error: "@ + err.message_v(),
            GreeksError::CalculationError(err) => "Greek calculation error: "@ + err.message_v(),
            GreeksError::StdError(msg) => "Standard error: "@ + msg@,
        }
    }

    /// Whether the carried values are in range.
    pub open spec fn wf(self) -> bool {
        match self {
            GreeksError::MathError(err) => {
                &&& (err matches MathErrorKind::InvalidDomain { value, .. } ==> value.wf())
                &&& (err matches MathErrorKind::ConvergenceFailure { tolerance, .. }
                    ==> tolerance.wf())
            },
            GreeksError::InputError(err) => err.wf(),
            GreeksError::CalculationError(_) => true,
            GreeksError::StdError(_) => true,
        }
    }

    /// Renders the error as text.
    pub fn message(&self) -> (r: String)
        requires
            self.wf(),
        ensures
            r@ == self.message_v(),
    {
        match self {
            GreeksError::MathError(err) => {
                let mut s = String::from_str("Mathematical error: ");
                let inner = err.message();
                s.append(inner.as_str());
                s
            },
            GreeksError::InputError(err) => {
                let mut s = String::from_str("Input validation error: ");
                let inner = err.message();
                s.append(inner.as_str());
                s
            },
            GreeksError::CalculationError(err) => {
                let mut s = String::from_str("Greek calculation error: ");
                let inner = err.message();
                s.append(inner.as_str());
                s
            },
            GreeksError::StdError(msg) => {
                let mut s = String::from_str("Standard error: ");
                s.append(msg.as_str());
                s
            },
        }
    }

    /// Builds the rejection of an invalid volatility.
    pub fn invalid_volatility(value: Fx, reason: &str) -> (r: GreeksError)
        requires
            value.wf(),
        ensures
            r matches GreeksError::InputError(InputErrorKind::InvalidVolatility {
                value: v, reason: re }) && v == value && re@ == reason@,
            r.wf(),
    {
        GreeksError::InputError(InputErrorKind::InvalidVolatility {
            value,
            reason: String::from_str(reason),
        })
    }

    /// Builds the rejection of an invalid time value.
    pub fn invalid_time(value: Positive, reason: &str) -> (r: GreeksError)
        requires
            value.wf(),
        ensures
            r matches GreeksError::InputError(InputErrorKind::InvalidTime {
                value: v, reason: re }) && v == value && re@ == reason@,
            r.wf(),
    {
        GreeksError::InputError(InputErrorKind::InvalidTime {
            value,
            reason: String::from_str(reason),
        })
    }

    /// Builds a delta calculation failure.
    pub fn delta_error(reason: &str) -> (r: GreeksError)
        ensures
            r matches GreeksError::CalculationError(CalculationErrorKind::DeltaError {
                reason: re }) && re@ == reason@,
            r.wf(),
    {
        GreeksError::CalculationError(CalculationErrorKind::DeltaError {
            reason: String::from_str(reason),
        })
    }

    /// Wraps a decimal-arithmetic error.
    pub fn from_decimal(error: DecimalError) -> (r: GreeksError)
        ensures
            r == GreeksError::CalculationError(CalculationErrorKind::DecimalError { error }),
            r.wf(),
    {
        GreeksError::CalculationError(CalculationErrorKind::DecimalError { error })
    }

    /// Wraps a volatility-solver error as an invalid-volatility input error
    /// with the value zero.
    pub fn from_volatility(error: VolatilityError) -> (r: GreeksError)
        ensures
            r matches GreeksError::InputError(InputErrorKind::InvalidVolatility {
                value: v, reason: re }) && v == (Fx { m: 0 }) && re@ == error.message_v(),
            r.wf(),
    {
        let reason = error.message();
        GreeksError::InputError(InputErrorKind::InvalidVolatility {
            value: Fx { m: 0 },
            reason,
        })
    }
}

/// Result of any Greek calculation.
pub type GreeksResult<T> = Result<T, GreeksError>;

} // verus!
