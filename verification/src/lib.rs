//! The decision core of a mean-variance portfolio engine.
//!
//! The engine turns price observations into return statistics, finds an
//! optimal risky portfolio, spreads it over a leveraged frontier and measures
//! the downside risk of the result. The arithmetic on real numbers is done by
//! the caller; what is decided here is everything else: which observations
//! line up with which, which candidate portfolio wins, which observation is
//! the value at risk, and when a run has to be given up.

pub mod scalar;
pub mod ordering;
pub mod error;
pub mod optimization;
pub mod config;
pub mod data;
pub mod portfolio;
pub mod utils;
pub mod visualization;
