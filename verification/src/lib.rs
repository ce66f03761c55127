//! A minimal trading venue: an account ledger with deposits, withdrawals and
//! atomic transfers, and a price-time-priority matching engine that pairs
//! incoming limit orders against a resting order book.
//!
//! Amounts are fixed-point integer currency units held in `u64`. Every public
//! operation either fully commits or fully rejects, except the documented
//! partial commit of the match loop in [`trading_platform::TradingPlatform::order`].

pub mod accounting;
pub mod book;
pub mod errors;
pub mod matching;
pub mod trading_platform;
pub mod types;
