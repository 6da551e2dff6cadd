//! A matching engine for a binary-outcome prediction market.
//!
//! Two linked contracts, YES and NO, trade against each other: a price on one
//! contract corresponds to the complement of that price on the other. The
//! engine keeps one order book per contract, crosses every incoming limit
//! order first against its own book and then against the other book at the
//! complement price, and rests what is left.
//!
//! Every function carries a contract over a mathematical model of the books,
//! and the contracts are machine-checked:
//!
//! - [`price`]: exact prices and their ticks;
//! - [`order`]: orders and trades;
//! - [`level`]: the queue of orders at one tick;
//! - [`ladder`]: the model of one side of a book;
//! - [`book`]: the book of one contract;
//! - [`matching`]: the model of a sweep, with its laws;
//! - [`engine`]: the engine, its model and its laws;
//! - [`tree`]: the two library calls whose contracts are taken on trust.

pub mod price;
pub mod order;
pub mod level;
pub mod tree;
pub mod ladder;
pub mod book;
pub mod matching;
pub mod engine;

pub use book::OrderBook;
pub use engine::MatchingEngine;
pub use level::PriceLevel;
pub use order::{OptionType, Order, OrderType, Trade};
pub use price::Price;
