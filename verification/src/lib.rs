//! A single-portfolio valuation and rebalancing engine.
//!
//! The engine tracks a basket of priced positions plus a cash balance,
//! computes the total value and per-symbol weight of the basket, plans
//! threshold-based rebalancing trades, applies them as paper trades, and
//! sweeps residual cash back into holdings.
//!
//! All arithmetic is exact fixed-point integer arithmetic:
//! money is counted in units of 10^-8 dollars, prices in cents per share,
//! and quantities in millionths of a share, so that a position's value
//! (price times quantity) is always an exact number of money units.

pub mod errors;
pub mod laws;
pub mod money;
pub mod portfolio;
pub mod position;
pub mod rebalance;
pub mod safe_money;
pub mod text;

pub use errors::PortfolioError;
pub use money::{CurrencyTag, MoneyAmount};
pub use portfolio::{Portfolio, RebalanceType, WeightFraction};
pub use position::{AssetClass, Position};
pub use rebalance::TradeOrder;
pub use safe_money::{Currency, Discrete, USD};
