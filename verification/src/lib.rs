//! Technical-analysis indicators over price series, in fixed-point arithmetic.
//!
//! Prices are integers in whatever unit the caller quotes them (ticks,
//! cents, ...). Indicator values carry six decimal digits: the integer
//! `1_000_000` stands for one unit, and every division rounds towards
//! negative infinity.
//!
//! * [`kdj`] is the stochastic oscillator with its K, D and J lines.
//! * [`macd`] is the moving-average convergence/divergence indicator with
//!   its signal line and histogram.

pub mod error;
pub mod fixed;
pub mod kdj;
pub mod macd;
