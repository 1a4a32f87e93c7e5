//! Option pricing and risk engine.
//!
//! The crate prices option contracts under several models (closed-form
//! Black-Scholes, binomial lattice, Monte Carlo and telegraph-process
//! simulation), recovers implied volatility by root finding, aggregates
//! per-leg Greeks into strategy-level net Greeks, and proposes the trades
//! that bring a multi-leg strategy back to delta neutrality.
//!
//! All quantities are carried by `fixed::Fx`, a signed fixed-point decimal
//! with twelve fractional digits, so every computation is exact integer
//! arithmetic with a stated rounding rule.

pub mod fixed;
pub mod special;
pub mod fmt;
pub mod positive;
pub mod error;
pub mod model;
pub mod black_scholes;
pub mod delta_neutral;
pub mod implied_vol;
pub mod binomial;
pub mod rng;
pub mod monte_carlo;
pub mod telegraph;
pub mod pnl;
