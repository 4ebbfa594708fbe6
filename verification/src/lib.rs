//! A minimal trading venue: an accounts ledger with non-negative,
//! non-overflowing integer balances, an order book matching limit orders
//! under price-time priority, and an append-only transaction journal whose
//! replay reproduces the ledger.

pub mod accounting;
pub mod errors;
pub mod orderbook;
pub mod trading_platform;
pub mod tx;
pub mod types;
