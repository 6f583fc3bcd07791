//! Side and lifecycle status of an order.
use vstd::prelude::*;

verus! {

/// Which side of the book an order rests on.
#[derive(Debug, Clone, Copy, PartialEq, Eq, Structural)]
pub enum OrderSide {
    /// Buys base with quote.
    Bid,
    /// Sells base for quote.
    Ask,
}

/// Lifecycle status of an order.
#[derive(Debug, Clone, Copy, PartialEq, Eq, Structural)]
pub enum OrderStatus {
    /// Placed and untouched by settlement.
    Open,
    /// Some, but not all, of the committed quantity has been matched.
    PartiallyFilled,
    /// The whole committed quantity has been matched.
    Filled,
    /// Withdrawn by its owner; terminal.
    Cancelled,
}

impl OrderSide {
    /// The other side of the book.
    pub open spec fn opposite(self) -> OrderSide {
        match self {
            OrderSide::Bid => OrderSide::Ask,
            OrderSide::Ask => OrderSide::Bid,
        }
    }
}

} // verus!
