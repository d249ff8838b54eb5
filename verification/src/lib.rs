//! Verified core of a personal portfolio tracker: symbol mapping for crypto
//! exchanges, SQL filter construction, attribution and ranking rules, month
//! grouping of daily series, contract bookkeeping rules, drawdown spans and
//! exact time-weighted returns.

pub mod text;
pub mod symbols;
pub mod filter;
pub mod attribution;
pub mod contract;
pub mod monthly;
pub mod drawdown;
pub mod quotes;
pub mod schema;
pub mod bignum;
pub mod performance;

pub use filter::PerformanceFilter;
pub use symbols::{to_binance_symbol, to_gateio_pair};
