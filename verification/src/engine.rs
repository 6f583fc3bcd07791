//! The matching rule, as a function of the book.
//!
//! One cursor walks the bid queue and one the ask queue. At each step the two
//! orders under the cursors either trade the smaller of their remaining
//! capacities or one of them is passed over. A pass ends when either queue is
//! exhausted.
use vstd::prelude::*;
use crate::book::ask_queue;
use crate::book::bid_queue;
use crate::book::capacity_at;
use crate::book::initial_capacity;
use crate::book::BookEntry;
use crate::matching::Fill;

verus! {

/// The state of a matching pass between two steps.
pub struct MatchState {
    /// Position in the bid queue.
    pub bid_cursor: nat,
    /// Position in the ask queue.
    pub ask_cursor: nat,
    /// Remaining capacity by order index.
    pub capacity: Map<u32, u64>,
    /// The fills emitted so far, oldest first.
    pub fills: Seq<Fill>,
}

/// Both cursors still point at an order.
pub open spec fn in_play(bids: Seq<BookEntry>, asks: Seq<BookEntry>, state: MatchState) -> bool {
    state.bid_cursor < bids.len() && state.ask_cursor < asks.len()
}

/// The smaller of two quantities.
pub open spec fn smaller(a: u64, b: u64) -> u64 {
    if a <= b {
        a
    } else {
        b
    }
}

/// One step of a pass, for a state that is in play.
///
/// An exhausted order is passed over, the bid first. Otherwise the two orders
/// can trade `smaller(remaining_bid, remaining_ask)`: if that is less than the
/// bid asks for, the bid is passed over and never retried; else the trade is
/// emitted at one to one, both capacities shrink by it, and every order that
/// is thereby exhausted is passed. The ask's own minimum is not consulted.
pub open spec fn step(bids: Seq<BookEntry>, asks: Seq<BookEntry>, state: MatchState) -> MatchState
    recommends
        in_play(bids, asks, state),
{
    let bid = bids[state.bid_cursor as int];
    let ask = asks[state.ask_cursor as int];
    let remaining_bid = capacity_at(state.capacity, bid.index);
    let remaining_ask = capacity_at(state.capacity, ask.index);
    let amount = smaller(remaining_bid, remaining_ask);
    if remaining_bid == 0 {
        MatchState { bid_cursor: state.bid_cursor + 1, ..state }
    } else if remaining_ask == 0 {
        MatchState { ask_cursor: state.ask_cursor + 1, ..state }
    } else if amount < bid.min_amount_out {
        MatchState { bid_cursor: state.bid_cursor + 1, ..state }
    } else {
        MatchState {
            bid_cursor: if remaining_bid == amount {
                state.bid_cursor + 1
            } else {
                state.bid_cursor
            },
            ask_cursor: if remaining_ask == amount {
                state.ask_cursor + 1
            } else {
                state.ask_cursor
            },
            capacity: state.capacity.insert(bid.index, (remaining_bid - amount) as u64).insert(
                ask.index,
                (remaining_ask - amount) as u64,
            ),
            fills: state.fills.push(
                Fill {
                    order_index: bid.index,
                    counterparty_index: ask.index,
                    amount_in: amount,
                    amount_out: amount,
                },
            ),
        }
    }
}

/// The state in which a pass that continues from `state` ends.
pub open spec fn run(bids: Seq<BookEntry>, asks: Seq<BookEntry>, state: MatchState) -> MatchState
    decreases bids.len() - state.bid_cursor + asks.len() - state.ask_cursor,
{
    if in_play(bids, asks, state) {
        run(bids, asks, step(bids, asks, state))
    } else {
        state
    }
}

/// The state a pass starts from.
pub open spec fn start(entries: Seq<BookEntry>) -> MatchState {
    MatchState {
        bid_cursor: 0,
        ask_cursor: 0,
        capacity: initial_capacity(entries),
        fills: Seq::empty(),
    }
}

/// The fills of one matching pass over a snapshot, in order of emission.
pub open spec fn matched_fills(entries: Seq<BookEntry>) -> Seq<Fill> {
    run(bid_queue(entries), ask_queue(entries), start(entries)).fills
}

} // verus!
