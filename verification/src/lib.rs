//! A continuous double-auction matching engine.
//!
//! The engine keeps a priced ladder of resting buy and sell orders, matches
//! crossing orders under price-time priority and reports the resulting trades.
//! Every operation is stated against a mathematical model of the book
//! (see [`ladder`], [`matching`] and [`book`]) and proved to follow it.

pub mod types;
pub mod order;
pub mod trade;
pub mod order_modify;
pub mod sums;
pub mod ladder;
pub mod ladder_lemmas;
pub mod matching;
pub mod book;
pub mod level;
pub mod order_book;

pub use types::{LevelInfo, OrderId, OrderIds, OrderResult, OrderStatus, OrderType, Price, Quantity, Side};
pub use order::{Order, Orders};
pub use trade::{Trade, TradeInfo, Trades};
pub use order_modify::OrderModify;
pub use order_book::{OrderBook, OrderbookLevelInfos};
