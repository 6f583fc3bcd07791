//! Order matching and settlement rules for a confidential trading venue.
//!
//! Orders are matched first in, first out, at a fixed one-to-one exchange
//! ratio, and the resulting fills are settled against the order records.
//!
//! * [`book`] says what the matching engine sees of a market's orders: the
//!   open orders of each side, queued by arrival, and what each has left.
//! * [`engine`] states the matching rule once, as a mathematical function of
//!   the book: [`engine::matched_fills`].
//! * [`matching`] is the plain matcher and [`circuits`] the fixed-work matcher
//!   over statically sized arrays. Both are proved to return exactly the
//!   fills of [`engine::matched_fills`], so they agree on every snapshot that
//!   fits the fixed capacity.
//! * [`ledger`] holds the order records and what placing and cancelling does
//!   to them; [`settlement`] applies a batch of fills to them, fill by fill,
//!   stopping at the first that is rejected.
//! * [`matcher`] and [`mxe`] prepare what a matching computation is queued
//!   with and read what it reports.
//! * [`laws`] proves what holds of every pass and every batch: matching is
//!   pure, the two matchers agree, no order is matched beyond its capacity,
//!   every fill is a one-to-one trade between an open bid and an open ask,
//!   and settlement never records more as matched than was committed.
//!
//! Nothing here reads accounts, moves tokens or talks to a network: every
//! function takes plain values and returns plain values.
pub mod book;
pub mod circuits;
pub mod engine;
pub mod laws;
pub mod ledger;
pub mod matcher;
pub mod matching;
pub mod mxe;
pub mod order;
pub mod settlement;

pub use circuits::match_orders_mpc;
pub use circuits::MatchResult;
pub use circuits::OrdersInput;
pub use circuits::PlainFill;
pub use circuits::PlainOrder;
pub use matching::match_orders;
pub use matching::ExecutionPlan;
pub use matching::Fill;
pub use matching::Order;
pub use order::OrderSide;
pub use order::OrderStatus;
