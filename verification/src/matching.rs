//! The plain matcher.
use std::collections::HashMap;
use vstd::prelude::*;
use vstd::std_specs::hash::group_hash_axioms;
use crate::book::ask_queue;
use crate::book::bid_queue;
use crate::book::capacity_at;
use crate::book::fifo_order;
use crate::book::initial_capacity;
use crate::book::is_open;
use crate::book::lemma_enqueue_between;
use crate::book::lemma_filter_nothing;
use crate::book::on_side;
use crate::book::open_entries;
use crate::book::recorded_capacity;
use crate::book::side_entries;
use crate::book::unused_quantity;
use crate::book::BookEntry;
use crate::engine::in_play;
use crate::engine::matched_fills;
use crate::engine::run;
use crate::engine::start;
use crate::engine::step;
use crate::engine::MatchState;
use crate::order::OrderSide;
use crate::order::OrderStatus;

verus! {

/// An order as the matcher sees it. Orders are named by a small index rather
/// than by their address; the caller keeps the mapping.
#[derive(Debug, Clone, Copy)]
pub struct Order {
    pub index: u32,
    pub side: OrderSide,
    pub amount_in: u64,
    pub filled_amount_in: u64,
    pub min_amount_out: u64,
    pub created_at: i64,
    pub status: OrderStatus,
}

/// A matched trade between a bid (`order_index`) and an ask
/// (`counterparty_index`).
#[derive(Debug, Clone, Copy)]
pub struct Fill {
    pub order_index: u32,
    pub counterparty_index: u32,
    pub amount_in: u64,
    pub amount_out: u64,
}

/// The fills of one matching pass, in the order in which they were emitted.
#[derive(Debug, Clone)]
pub struct ExecutionPlan {
    pub fills: Vec<Fill>,
}

impl Order {
    /// What the matching engine reads of this order.
    pub open spec fn entry(self) -> BookEntry {
        BookEntry {
            index: self.index,
            side: self.side,
            open: self.status == OrderStatus::Open,
            capacity: unused_quantity(self.amount_in, self.filled_amount_in),
            min_amount_out: self.min_amount_out,
            created_at: self.created_at,
        }
    }
}

/// The book entries of a snapshot of orders, in snapshot order.
pub open spec fn entries_of(orders: Seq<Order>) -> Seq<BookEntry> {
    orders.map_values(|o: Order| o.entry())
}

/// Taking one more order from a snapshot appends its entry.
proof fn lemma_entries_take_next(orders: Seq<Order>, i: int)
    requires
        0 <= i < orders.len(),
    ensures
        entries_of(orders.take(i + 1)) == entries_of(orders.take(i)).push(orders[i].entry()),
{
    assert(entries_of(orders.take(i + 1)) =~= entries_of(orders.take(i)).push(orders[i].entry()));
}

/// The orders that pass the eligibility gate, in snapshot order.
fn open_orders_of(orders: &[Order]) -> (open: Vec<Order>)
    ensures
        entries_of(open@) == open_entries(entries_of(orders@)),
{
    let mut open: Vec<Order> = Vec::new();
    let mut i: usize = 0;
    proof {
        lemma_filter_nothing(is_open());
        assert(entries_of(orders@.take(0)) =~= Seq::<BookEntry>::empty());
        assert(entries_of(open@) =~= Seq::<BookEntry>::empty());
    }
    while i < orders.len()
        invariant
            i <= orders.len(),
            entries_of(open@) == open_entries(entries_of(orders@.take(i as int))),
        decreases orders.len() - i,
    {
        let order = orders[i];
        proof {
            lemma_entries_take_next(orders@, i as int);
            entries_of(orders@.take(i as int)).lemma_filter_push(order.entry(), is_open());
        }
        if order.status == OrderStatus::Open {
            let ghost before = open@;
            open.push(order);
            assert(entries_of(open@) =~= entries_of(before).push(order.entry()));
        }
        i += 1;
    }
    assert(orders@.take(orders.len() as int) =~= orders@);
    open
}

/// The orders on one side, in the order given.
fn orders_on_side(orders: &Vec<Order>, side: OrderSide) -> (chosen: Vec<Order>)
    ensures
        entries_of(chosen@) == side_entries(entries_of(orders@), side),
{
    let mut chosen: Vec<Order> = Vec::new();
    let mut i: usize = 0;
    proof {
        lemma_filter_nothing(on_side(side));
        assert(entries_of(orders@.take(0)) =~= Seq::<BookEntry>::empty());
        assert(entries_of(chosen@) =~= Seq::<BookEntry>::empty());
    }
    while i < orders.len()
        invariant
            i <= orders.len(),
            entries_of(chosen@) == side_entries(entries_of(orders@.take(i as int)), side),
        decreases orders.len() - i,
    {
        let order = orders[i];
        proof {
            lemma_entries_take_next(orders@, i as int);
            entries_of(orders@.take(i as int)).lemma_filter_push(order.entry(), on_side(side));
        }
        if order.side == side {
            let ghost before = chosen@;
            chosen.push(order);
            assert(entries_of(chosen@) =~= entries_of(before).push(order.entry()));
        }
        i += 1;
    }
    assert(orders@.take(orders.len() as int) =~= orders@);
    chosen
}

/// The orders by arrival time, earliest first, ties in the order given.
fn sort_by_arrival(orders: &Vec<Order>) -> (queue: Vec<Order>)
    ensures
        entries_of(queue@) == fifo_order(entries_of(orders@)),
{
    let mut queue: Vec<Order> = Vec::new();
    let mut i: usize = 0;
    proof {
        assert(entries_of(orders@.take(0)) =~= Seq::<BookEntry>::empty());
        assert(entries_of(queue@) =~= Seq::<BookEntry>::empty());
    }
    while i < orders.len()
        invariant
            i <= orders.len(),
            entries_of(queue@) == fifo_order(entries_of(orders@.take(i as int))),
        decreases orders.len() - i,
    {
        let order = orders[i];
        let mut at: usize = queue.len();
        while at > 0 && queue[at - 1].created_at > order.created_at
            invariant
                at <= queue.len(),
                forall|k: int| at <= k < queue.len() ==> queue[k].created_at > order.created_at,
            decreases at,
        {
            at -= 1;
        }
        proof {
            let before = entries_of(queue@);
            let left = before.take(at as int);
            let right = before.skip(at as int);
            assert(before =~= left + right);
            lemma_enqueue_between(left, right, order.entry());
            lemma_entries_take_next(orders@, i as int);
            assert(entries_of(orders@.take(i as int + 1)).drop_last() =~= entries_of(
                orders@.take(i as int),
            ));
            assert(entries_of(queue@.insert(at as int, order)) =~= left.push(order.entry())
                + right);
        }
        queue.insert(at, order);
        i += 1;
    }
    assert(orders@.take(orders.len() as int) =~= orders@);
    queue
}

/// The capacity lookup: for each order in turn, what it has not yet used,
/// under its index.
fn record_capacity(orders: &Vec<Order>) -> (remaining: HashMap<u32, u64>)
    ensures
        remaining@ == recorded_capacity(entries_of(orders@)),
{
    broadcast use group_hash_axioms;

    let mut remaining: HashMap<u32, u64> = HashMap::new();
    let mut i: usize = 0;
    proof {
        assert(entries_of(orders@.take(0)) =~= Seq::<BookEntry>::empty());
        assert(remaining@ =~= Map::<u32, u64>::empty());
    }
    while i < orders.len()
        invariant
            i <= orders.len(),
            remaining@ == recorded_capacity(entries_of(orders@.take(i as int))),
        decreases orders.len() - i,
    {
        let order = orders[i];
        let unused = order.amount_in.saturating_sub(order.filled_amount_in);
        proof {
            lemma_entries_take_next(orders@, i as int);
            assert(entries_of(orders@.take(i as int + 1)).drop_last() =~= entries_of(
                orders@.take(i as int),
            ));
        }
        remaining.insert(order.index, unused);
        i += 1;
    }
    assert(orders@.take(orders.len() as int) =~= orders@);
    remaining
}

/// The book view of a snapshot: the open bids and the open asks, each queued
/// by arrival time, and what each open order has left to trade.
#[derive(Debug)]
pub struct BookView {
    pub bids: Vec<Order>,
    pub asks: Vec<Order>,
    /// Remaining capacity by order index.
    pub remaining: HashMap<u32, u64>,
}

/// Builds the book view of a snapshot of one market's orders.
///
/// Orders that are not open are left out. Each side is in order of arrival,
/// earliest first, and orders that arrived at the same instant stay in the
/// order of the snapshot. Every open order's index is given the quantity the
/// order committed less the quantity already matched, and zero if more is
/// recorded as matched than was committed; where several open orders carry
/// one index, the last of them in the snapshot decides.
pub fn book_view(orders: &[Order]) -> (view: BookView)
    ensures
        entries_of(view.bids@) == bid_queue(entries_of(orders@)),
        entries_of(view.asks@) == ask_queue(entries_of(orders@)),
        view.remaining@ == initial_capacity(entries_of(orders@)),
{
    let open_orders = open_orders_of(orders);
    let bids = sort_by_arrival(&orders_on_side(&open_orders, OrderSide::Bid));
    let asks = sort_by_arrival(&orders_on_side(&open_orders, OrderSide::Ask));
    let remaining = record_capacity(&open_orders);
    BookView { bids, asks, remaining }
}

/// Matches a snapshot of one market's orders, first in, first out, at one to
/// one.
///
/// Only open orders take part. Each side is queued by arrival time, ties in
/// snapshot order, and the two queues are walked once: see
/// [`crate::engine::step`]. The snapshot is not changed, so matching it again
/// gives the same plan.
pub fn match_orders(orders: &[Order]) -> (plan: ExecutionPlan)
    ensures
        plan.fills@ == matched_fills(entries_of(orders@)),
{
    broadcast use group_hash_axioms;

    let BookView { bids, asks, mut remaining } = book_view(orders);

    let mut fills: Vec<Fill> = Vec::new();
    let mut bid_idx: usize = 0;
    let mut ask_idx: usize = 0;

    let ghost snapshot = entries_of(orders@);
    let ghost bid_entries = entries_of(bids@);
    let ghost ask_entries = entries_of(asks@);
    assert(fills@ =~= Seq::<Fill>::empty());
    while bid_idx < bids.len() && ask_idx < asks.len()
        invariant
            bid_entries == entries_of(bids@),
            ask_entries == entries_of(asks@),
            bid_entries == bid_queue(snapshot),
            ask_entries == ask_queue(snapshot),
            bid_idx <= bids.len(),
            ask_idx <= asks.len(),
            run(
                bid_entries,
                ask_entries,
                MatchState {
                    bid_cursor: bid_idx as nat,
                    ask_cursor: ask_idx as nat,
                    capacity: remaining@,
                    fills: fills@,
                },
            ) == run(bid_entries, ask_entries, start(snapshot)),
        decreases bids.len() - bid_idx + asks.len() - ask_idx,
    {
        let ghost state = MatchState {
            bid_cursor: bid_idx as nat,
            ask_cursor: ask_idx as nat,
            capacity: remaining@,
            fills: fills@,
        };
        assert(in_play(bid_entries, ask_entries, state));
        let bid = bids[bid_idx];
        let ask = asks[ask_idx];

        let remaining_bid = match remaining.get(&bid.index) {
            Some(quantity) => *quantity,
            None => 0,
        };
        let remaining_ask = match remaining.get(&ask.index) {
            Some(quantity) => *quantity,
            None => 0,
        };
        assert(remaining_bid == capacity_at(state.capacity, bid_entries[bid_idx as int].index));
        assert(remaining_ask == capacity_at(state.capacity, ask_entries[ask_idx as int].index));

        if remaining_bid == 0 {
            // The bid is exhausted.
            bid_idx += 1;
        } else if remaining_ask == 0 {
            // The ask is exhausted.
            ask_idx += 1;
        } else {
            let match_amount = if remaining_bid <= remaining_ask {
                remaining_bid
            } else {
                remaining_ask
            };
            if match_amount == 0 {
                // Both capacities are positive here, so nothing reaches this
                // guard; it is kept so that a zero trade can never be emitted.
                bid_idx += 1;
                ask_idx += 1;
            } else if match_amount < bid.min_amount_out {
                // The bid asks for more than this ask can give; it is not
                // retried against later asks.
                bid_idx += 1;
            } else {
                fills.push(
                    Fill {
                        order_index: bid.index,
                        counterparty_index: ask.index,
                        amount_in: match_amount,
                        amount_out: match_amount,
                    },
                );
                let new_bid_remaining = remaining_bid - match_amount;
                let new_ask_remaining = remaining_ask - match_amount;
                remaining.insert(bid.index, new_bid_remaining);
                remaining.insert(ask.index, new_ask_remaining);
                if new_bid_remaining == 0 {
                    bid_idx += 1;
                }
                if new_ask_remaining == 0 {
                    ask_idx += 1;
                }
            }
        }
        assert(MatchState {
            bid_cursor: bid_idx as nat,
            ask_cursor: ask_idx as nat,
            capacity: remaining@,
            fills: fills@,
        } == step(bid_entries, ask_entries, state));
    }
    ExecutionPlan { fills }
}

} // verus!
