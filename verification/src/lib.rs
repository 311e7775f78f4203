//! The matching and settlement core of a two-asset limit order book.
//!
//! A market has a base and a quote asset, one book of resting bids and one of
//! resting asks, and one balance record per participant. Orders are matched by
//! price-time priority; what a participant has reserved for resting orders is
//! its locked balance, what fills have earned it is its free balance.
//!
//! The core moves no value and stores nothing itself: each operation works on
//! the state handed to it and names the amount the host has to transfer.
//!
//! - [`book`]: one side of the book, its order, insertion and removal.
//! - [`matching`]: the matching engine.
//! - [`place_order`], [`cancel_order`], [`settle_funds`]: the three operations.
//! - [`state`]: orders, balance records and the market; [`identity`] and
//!   [`error`]: who and why not.
//!
//! An operation that is refused leaves everything as it was. A fill against
//! a resting order changes its owner's balance record too, so that record has
//! to be handed in with the placement; a fill whose maker has no record there
//! refuses the whole placement.

pub mod book;
pub mod cancel_order;
pub mod error;
pub mod identity;
pub mod matching;
pub mod place_order;
pub mod settle_funds;
pub mod state;

pub use book::OrderBook;
pub use cancel_order::CancelOrder;
pub use error::ErrorCode;
pub use identity::Identity;
pub use place_order::{PlaceOrder, Placement};
pub use settle_funds::{Payout, SettleFunds};
pub use state::{Market, OpenOrders, Order};
