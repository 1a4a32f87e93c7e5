//! Error construction and rendering.

use optionstratlib::error::{
    CalculationErrorKind, DecimalError, GreeksError, InputErrorKind, MathErrorKind,
    VolatilityError,
};
use optionstratlib::fixed::Fx;
use optionstratlib::positive::Positive;

fn fx(m: i128) -> Fx {
    Fx { m }
}

#[test]
fn test_invalid_volatility_error_creation() {
    let error = GreeksError::invalid_volatility(fx(-500_000_000_000), "Volatility cannot be negative");
    match error {
        GreeksError::InputError(InputErrorKind::InvalidVolatility { value, reason }) => {
            assert_eq!(value.m, -500_000_000_000);
            assert_eq!(reason, "Volatility cannot be negative");
        }
        _ => panic!("Wrong error type"),
    }
}

#[test]
fn test_delta_error_creation() {
    let error = GreeksError::delta_error("Failed to calculate delta");
    match error {
        GreeksError::CalculationError(CalculationErrorKind::DeltaError { reason }) => {
            assert_eq!(reason, "Failed to calculate delta");
        }
        _ => panic!("Wrong error type"),
    }
}

#[test]
fn test_math_error_display() {
    let error = GreeksError::MathError(MathErrorKind::DivisionByZero);
    assert_eq!(error.message(), "Mathematical error: Division by zero");

    let error = GreeksError::MathError(MathErrorKind::InvalidDomain {
        value: fx(1_500_000_000_000),
        reason: "Value out of range".to_string(),
    });
    assert_eq!(
        error.message(),
        "Mathematical error: Invalid domain value 1.5: Value out of range"
    );
}

#[test]
fn test_input_error_display() {
    let error = GreeksError::InputError(InputErrorKind::InvalidPrice {
        value: fx(-100_000_000_000_000),
        reason: "Price cannot be negative".to_string(),
    });
    assert_eq!(
        error.message(),
        "Input validation error: Invalid price -100: Price cannot be negative"
    );

    let error = GreeksError::InputError(InputErrorKind::InvalidRate {
        value: fx(2_500_000_000_000),
        reason: "Rate must be between 0 and 1".to_string(),
    });
    assert_eq!(
        error.message(),
        "Input validation error: Invalid rate 2.5: Rate must be between 0 and 1"
    );
}

#[test]
fn test_calculation_error_display() {
    let error = GreeksError::CalculationError(CalculationErrorKind::GammaError {
        reason: "Invalid input parameters".to_string(),
    });
    assert_eq!(
        error.message(),
        "Greek calculation error: Gamma calculation error: Invalid input parameters"
    );

    let error = GreeksError::CalculationError(CalculationErrorKind::VegaError {
        reason: "Calculation overflow".to_string(),
    });
    assert_eq!(
        error.message(),
        "Greek calculation error: Vega calculation error: Calculation overflow"
    );
}

#[test]
fn test_convergence_failure_display() {
    let error = GreeksError::MathError(MathErrorKind::ConvergenceFailure {
        iterations: 1000,
        tolerance: fx(100_000_000),
    });
    assert_eq!(
        error.message(),
        "Mathematical error: Failed to converge after 1000 iterations (tolerance: 0.0001)"
    );
}

#[test]
fn test_result_type() {
    fn test_function() -> optionstratlib::error::GreeksResult<Fx> {
        Err(GreeksError::delta_error("Test error"))
    }

    let result = test_function();
    assert!(result.is_err());
    match result {
        Err(GreeksError::CalculationError(CalculationErrorKind::DeltaError { reason })) => {
            assert_eq!(reason, "Test error");
        }
        _ => panic!("Wrong error type"),
    }
}

#[test]
fn test_debug_implementation() {
    let error = GreeksError::delta_error("Test error");
    let debug_string = format!("{:?}", error);
    assert!(debug_string.contains("DeltaError"));
    assert!(debug_string.contains("Test error"));
}

#[test]
fn test_greeks_error_std_error() {
    let error = GreeksError::StdError("An error occurred".to_string());
    assert_eq!(error.message(), "Standard error: An error occurred");
}

#[test]
fn test_math_error_overflow() {
    let error = MathErrorKind::Overflow;
    assert_eq!(error.message(), "Numerical overflow");
}

#[test]
fn test_input_error_invalid_volatility() {
    let error = InputErrorKind::InvalidVolatility {
        value: fx(500_000_000_000),
        reason: "Out of bounds".to_string(),
    };
    assert_eq!(error.message(), "Invalid volatility 0.5: Out of bounds");
}

#[test]
fn test_calculation_error_delta() {
    let error = CalculationErrorKind::DeltaError {
        reason: "Unable to compute delta".to_string(),
    };
    assert_eq!(
        error.message(),
        "Delta calculation error: Unable to compute delta"
    );
}

#[test]
fn test_calculation_error_theta() {
    let error = CalculationErrorKind::ThetaError {
        reason: "Negative time decay".to_string(),
    };
    assert_eq!(
        error.message(),
        "Theta calculation error: Negative time decay"
    );
}

#[test]
fn test_calculation_error_rho() {
    let error = CalculationErrorKind::RhoError {
        reason: "Interest rate too high".to_string(),
    };
    assert_eq!(
        error.message(),
        "Rho calculation error: Interest rate too high"
    );
}

#[test]
fn test_calculation_error_decimal() {
    let error = CalculationErrorKind::DecimalError {
        error: DecimalError::InvalidPrecision {
            precision: 0,
            reason: "Precision error".to_string(),
        },
    };
    assert_eq!(
        error.message(),
        "Decimal error: Invalid decimal precision 0: Precision error"
    );
}

#[test]
fn test_invalid_time_constructor() {
    let error = GreeksError::invalid_time(
        Positive { fx: fx(5_000_000_000_000) },
        "Time must be positive",
    );
    assert_eq!(
        error.message(),
        "Input validation error: Invalid time value 5: Time must be positive"
    );
}

#[test]
fn test_decimal_error_conversion() {
    let decimal_error = DecimalError::InvalidPrecision {
        precision: 0,
        reason: "Precision lost".to_string(),
    };

    let error: GreeksError = GreeksError::from_decimal(decimal_error);

    match error {
        GreeksError::CalculationError(CalculationErrorKind::DecimalError { error }) => {
            assert!(error.message().contains("Precision lost"));
        }
        _ => panic!("Wrong error variant"),
    }
}

#[test]
fn test_implied_volatility_error_conversion() {
    let iv_error = VolatilityError::ZeroVega;
    let error: GreeksError = GreeksError::from_volatility(iv_error);
    assert_eq!(
        error.message(),
        "Input validation error: Invalid volatility 0: Vega is zero, cannot calculate implied volatility"
    );
}

#[test]
fn test_fx_rendering() {
    assert_eq!(fx(0).to_text(), "0");
    assert_eq!(fx(1_500_000_000_000).to_text(), "1.5");
    assert_eq!(fx(-100_000_000_000_000).to_text(), "-100");
    assert_eq!(fx(100_000_000).to_text(), "0.0001");
    assert_eq!(fx(2_646_900_000_000_000).to_text(), "2646.9");
    assert_eq!(fx(1).to_text(), "0.000000000001");
}
