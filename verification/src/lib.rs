//! A limit order book with price-time priority matching.
//!
//! Prices are integer tick counts and quantities are integer lots, so every
//! comparison the matching engine makes is exact.

pub mod book;
pub mod clock;
pub mod fill;
pub mod history;
mod ladder;
pub mod laws;
pub mod level;
pub mod order;
pub mod soundness;
pub mod state;
pub mod types;
pub mod volume;

pub use book::OrderBook;
pub use fill::Fill;
pub use order::Order;
pub use types::{OrderStatus, OrderType, ValidationError, DEFAULT_TICK_SIZE, PRICE_SCALE};
