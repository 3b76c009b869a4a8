//! A small personal-finance portfolio: a store of holdings keyed by asset
//! identifier, a valuation of each holding, and a purchase operation that is
//! gated by the cash that the portfolio holds.
//!
//! Every executable function carries a contract over the mathematical model
//! of its data: a portfolio is viewed as a finite map from identifiers to
//! holdings, and its worth is the sum of the values of that map's entries.

pub mod asset;
pub mod holding;
pub mod portfolio;
pub mod valuation;

pub use asset::{AssetType, Cash, Stock, StockPrice, CASH_ID};
pub use holding::AssetHolding;
pub use portfolio::Portfolio;
