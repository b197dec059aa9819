//! The error kinds the engine can return.
//!
//! Every failure of the engine is reported as a typed, recoverable value;
//! no engine function panics on an input its contract admits.

use vstd::prelude::*;

verus! {

/// Everything that can go wrong inside the valuation and rebalancing engine.
#[derive(Debug, Clone)]
pub enum PortfolioError {
    /// Two money amounts with different currency tags were combined.
    CurrencyMismatch,
    /// A division had a zero divisor: a zero total value, a zero price for a
    /// position that must be traded, or a reinvestment sweep with no eligible
    /// positions.
    DivideByZero,
    /// A price refresh could not obtain a quote for the named symbol; no
    /// price of the batch was committed.
    PriceFetchFailed(String),
    /// A paper buy would cost more than the cash on hand.
    InsufficientCash,
    /// A paper sell asked for more than the quantity held.
    InsufficientHoldings,
    /// A paper trade was requested with a negative quantity.
    NegativeQuantity,
    /// The computed per-symbol weights do not sum to the whole: some position
    /// value was lost, which happens exactly when two positions share a
    /// symbol or a position is named like the reserved cash entry.
    WeightNormalizationError,
    /// The total value changed across a rebalance cycle. This is an internal
    /// consistency check; the engine proves it can never be returned.
    ValueConservationViolation,
    /// A quantity, amount or total would leave the range the engine's
    /// fixed-point arithmetic can represent.
    AmountOutOfRange,
}

impl PortfolioError {
    /// A short machine-independent name for the error kind.
    pub fn kind_name(&self) -> (r: &'static str)
        ensures
            r@ == self.spec_kind_name(),
    {
        match self {
            PortfolioError::CurrencyMismatch => "currency mismatch",
            PortfolioError::DivideByZero => "divide by zero",
            PortfolioError::PriceFetchFailed(_) => "price fetch failed",
            PortfolioError::InsufficientCash => "insufficient cash",
            PortfolioError::InsufficientHoldings => "insufficient holdings",
            PortfolioError::NegativeQuantity => "negative quantity",
            PortfolioError::WeightNormalizationError => "weight normalization error",
            PortfolioError::ValueConservationViolation => "value conservation violation",
            PortfolioError::AmountOutOfRange => "amount out of range",
        }
    }

    /// What `kind_name` returns for each variant.
    pub open spec fn spec_kind_name(&self) -> Seq<char> {
        match self {
            PortfolioError::CurrencyMismatch => "currency mismatch"@,
            PortfolioError::DivideByZero => "divide by zero"@,
            PortfolioError::PriceFetchFailed(_) => "price fetch failed"@,
            PortfolioError::InsufficientCash => "insufficient cash"@,
            PortfolioError::InsufficientHoldings => "insufficient holdings"@,
            PortfolioError::NegativeQuantity => "negative quantity"@,
            PortfolioError::WeightNormalizationError => "weight normalization error"@,
            PortfolioError::ValueConservationViolation => "value conservation violation"@,
            PortfolioError::AmountOutOfRange => "amount out of range"@,
        }
    }
}

} // verus!
