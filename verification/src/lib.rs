//! A price-time-priority order book with a separately maintained
//! aggregated-depth cache.
//!
//! The crate has two loosely coupled components:
//!
//! 1. `OrderBook`: keeps two price-sorted sides of resting orders,
//!    each price level holding its orders in arrival (FIFO) order.
//! 2. `MarketDepthCache`: keeps, per side, a mapping from a coarsened
//!    (integer) price level to the total resting quantity at that level.
//!
//! The book never feeds the cache directly: inserting an order returns an
//! `OrderEvent`, a plain value that the caller hands to the cache. This
//! keeps the two components free of any shared state, so a surrounding
//! program can guard each with its own lock.
//!
//! Prices are exact base-10 fixed-point values (`Price`), so aggregation
//! and comparison never suffer representation error.

pub mod market_depth_cache;
pub mod order_book;
pub mod price_index;
pub mod types;

pub use market_depth_cache::MarketDepthCache;
pub use order_book::OrderBook;

pub use types::AggregatedDepthMap;
pub use types::Order;
pub use types::OrderEvent;
pub use types::Price;
pub use types::PriceError;
pub use types::PriceLevelMap;
pub use types::Side;
