//! The ways in which a run of the engine is given up.

use vstd::prelude::*;
use vstd::string::StringExecFns;
use crate::scalar::Scalar;

verus! {

/// Why a run was given up. No run is retried: every step is a pure
/// computation on data that is already there, so a second try would fail
/// in the same way.
#[derive(Clone, Copy, Debug, PartialEq, Eq, Structural)]
pub enum PortfolioError {
    /// The observations name no asset at all.
    InsufficientAssets,
    /// Some asset has too few observations to give two returns; `shortest`
    /// is the number of observations of the asset that has the fewest.
    InsufficientHistory { shortest: usize },
    /// The covariance matrix has no inverse.
    SingularCovariance,
    /// The weights do not sum to one within the tolerance; `gap` is the
    /// distance of their sum from one.
    WeightNormalization { gap: Scalar },
    /// A vector or a matrix row does not have the length that the number of
    /// assets or of periods calls for.
    DimensionMismatch { expected: usize, found: usize },
    /// A frontier of fewer than two points was asked for.
    InvalidFrontierResolution { requested: usize },
    /// A risk measure was asked of an empty series of returns.
    EmptyReturns,
}

impl PortfolioError {
    /// What to tell the user, in a sentence.
    pub open spec fn spec_message(self) -> Seq<char> {
        match self {
            PortfolioError::InsufficientAssets => "No assets found in data."@,
            PortfolioError::InsufficientHistory { shortest } => if shortest < 2 {
                "Not enough data points to compute returns."@
            } else {
                "Not enough observations to compute covariance."@
            },
            PortfolioError::SingularCovariance => "The covariance matrix is singular."@,
            PortfolioError::WeightNormalization { .. } => "Optimal risky weights do not sum to 1."@,
            PortfolioError::DimensionMismatch { .. } => "Weights length doesn't match assets!"@,
            PortfolioError::InvalidFrontierResolution { .. } => "A frontier needs at least two points."@,
            PortfolioError::EmptyReturns => "No returns to measure the risk of."@,
        }
    }

    /// What to tell the user, in a sentence.
    pub fn message(&self) -> (r: String)
        ensures
            r@ == self.spec_message(),
    {
        match self {
            PortfolioError::InsufficientAssets => String::from_str("No assets found in data."),
            PortfolioError::InsufficientHistory { shortest } => if *shortest < 2 {
                String::from_str("Not enough data points to compute returns.")
            } else {
                String::from_str("Not enough observations to compute covariance.")
            },
            PortfolioError::SingularCovariance => String::from_str(
                "The covariance matrix is singular.",
            ),
            PortfolioError::WeightNormalization { .. } => String::from_str(
                "Optimal risky weights do not sum to 1.",
            ),
            PortfolioError::DimensionMismatch { .. } => String::from_str(
                "Weights length doesn't match assets!",
            ),
            PortfolioError::InvalidFrontierResolution { .. } => String::from_str(
                "A frontier needs at least two points.",
            ),
            PortfolioError::EmptyReturns => String::from_str("No returns to measure the risk of."),
        }
    }
}

} // verus!
