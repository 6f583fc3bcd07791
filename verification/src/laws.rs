//! What holds of every matching pass and of every settled batch.
use vstd::prelude::*;
use crate::book::ask_queue;
use crate::book::bid_queue;
use crate::book::capacity_at;
use crate::book::fifo_order;
use crate::book::is_open;
use crate::book::lemma_fifo_order_holds_the_entries;
use crate::book::on_side;
use crate::book::open_entries;
use crate::book::recorded_capacity;
use crate::book::side_entries;
use crate::book::unused_quantity;
use crate::book::BookEntry;
use crate::circuits::encoded;
use crate::circuits::encodes;
use crate::circuits::within_capacity;
use crate::circuits::MatchResult;
use crate::circuits::MAX_ORDERS;
use crate::circuits::OrdersInput;
use crate::engine::in_play;
use crate::engine::matched_fills;
use crate::engine::run;
use crate::engine::smaller;
use crate::engine::start;
use crate::engine::step;
use crate::engine::MatchState;
use crate::matching::entries_of;
use crate::matching::ExecutionPlan;
use crate::matching::Fill;
use crate::matching::Order;
use crate::ledger::Fill as LedgerFill;
use crate::ledger::Order as LedgerOrder;
use crate::ledger::Pubkey;
use crate::order::OrderSide;
use crate::settlement::credited;
use crate::settlement::fill_payouts;
use crate::settlement::fill_rejection;
use crate::settlement::lemma_lookup_finds_first;
use crate::settlement::lookup;
use crate::settlement::rejection;
use crate::settlement::settle_from;
use crate::settlement::settlement;
use crate::settlement::store_after_fill;
use crate::settlement::AccountRef;
use crate::settlement::OrderAccount;
use crate::settlement::Settled;

verus! {

/// Matching is a function of the snapshot: two plans made from the same
/// unmodified snapshot hold the same fills in the same order.
pub proof fn lemma_matching_is_pure(orders: Seq<Order>, first: ExecutionPlan, second: ExecutionPlan)
    requires
        first.fills@ == matched_fills(entries_of(orders)),
        second.fills@ == matched_fills(entries_of(orders)),
    ensures
        first.fills@ == second.fills@,
{
}

/// The same of the fixed-work matcher: two results for the same unmodified
/// snapshot hold the same fills in the same order, and the same padding.
pub proof fn lemma_fixed_work_matching_is_pure(
    input: OrdersInput,
    first: MatchResult,
    second: MatchResult,
)
    requires
        first.emitted() == matched_fills(input.entries()),
        first.padded(),
        second.emitted() == matched_fills(input.entries()),
        second.padded(),
    ensures
        first.emitted() == second.emitted(),
        first.count == second.count,
        forall|k: int| 0 <= k < MAX_ORDERS ==> first.fills[k]@ == second.fills[k]@,
{
    assert(first.emitted().len() == first.count);
    assert(second.emitted().len() == second.count);
    assert forall|k: int| 0 <= k < MAX_ORDERS implies first.fills[k]@ == second.fills[k]@ by {
        if k < first.count {
            assert(first.emitted()[k] == first.fills[k]@);
            assert(second.emitted()[k] == second.fills[k]@);
        } else {
            assert(first.fills[k].is_zero() && second.fills[k].is_zero());
        }
    }
}

/// The two matchers agree. For a set of orders within capacity, take the
/// snapshot that encodes them: the fixed-work matcher accepts it, it shows
/// the matching engine the same book as the orders themselves, and so the
/// fills that the fixed-work matcher emits for the snapshot,
/// `matched_fills(input.entries())`, are the fills that the plain matcher
/// emits for the orders, `matched_fills(entries_of(orders))`, in the same
/// order.
pub proof fn lemma_matchers_agree(orders: Seq<Order>, input: OrdersInput)
    requires
        within_capacity(orders),
        encodes(input, orders),
    ensures
        input.valid(),
        input.entries() == entries_of(orders),
        matched_fills(input.entries()) == matched_fills(entries_of(orders)),
{
    assert forall|k: int| 0 <= k < orders.len() implies encoded(orders[k]).entry()
        == orders[k].entry() by {}
    assert(input.entries() =~= entries_of(orders));
}

/// The same of what the two matchers hand back: a plan of the plain matcher
/// for the orders and a result of the fixed-work matcher for the snapshot
/// that encodes them hold the same fills in the same order.
pub proof fn lemma_plan_and_result_agree(
    orders: Seq<Order>,
    input: OrdersInput,
    plan: ExecutionPlan,
    result: MatchResult,
)
    requires
        within_capacity(orders),
        encodes(input, orders),
        plan.fills@ == matched_fills(entries_of(orders)),
        result.emitted() == matched_fills(input.entries()),
    ensures
        result.emitted() == plan.fills@,
{
    lemma_matchers_agree(orders, input);
}

/// What one fill attributes to an order index: its quantity in if the index
/// is the order's, its quantity out if the index is the counterparty's.
pub open spec fn attributed(fill: Fill, index: u32) -> int {
    (if fill.order_index == index {
        fill.amount_in as int
    } else {
        0
    }) + (if fill.counterparty_index == index {
        fill.amount_out as int
    } else {
        0
    })
}

/// The cumulative quantity that a list of fills attributes to an order
/// index.
pub open spec fn matched_quantity(fills: Seq<Fill>, index: u32) -> int
    decreases fills.len(),
{
    if fills.len() == 0 {
        0
    } else {
        matched_quantity(fills.drop_last(), index) + attributed(fills.last(), index)
    }
}

/// No two entries carry the same index.
pub open spec fn distinct_indices(entries: Seq<BookEntry>) -> bool {
    forall|i: int, j: int|
        0 <= i < j < entries.len() ==> (#[trigger] entries[i]).index != (#[trigger] entries[j]).index
}

/// No bid carries the index of an ask.
pub open spec fn sides_apart(bids: Seq<BookEntry>, asks: Seq<BookEntry>) -> bool {
    forall|i: int, j: int|
        0 <= i < bids.len() && 0 <= j < asks.len() ==> (#[trigger] bids[i]).index != (
        #[trigger] asks[j]).index
}

proof fn lemma_matched_quantity_push(fills: Seq<Fill>, fill: Fill, index: u32)
    ensures
        matched_quantity(fills.push(fill), index) == matched_quantity(fills, index) + attributed(
            fill,
            index,
        ),
{
    assert(fills.push(fill).drop_last() =~= fills);
}

/// A pass moves quantity from the capacity lookup to the fills and neither
/// makes nor loses any: for every index, what the fills attribute to it and
/// what the lookup still records for it add up to the same sum throughout.
pub proof fn lemma_run_conserves(
    bids: Seq<BookEntry>,
    asks: Seq<BookEntry>,
    state: MatchState,
    index: u32,
)
    requires
        sides_apart(bids, asks),
    ensures
        matched_quantity(run(bids, asks, state).fills, index) + capacity_at(
            run(bids, asks, state).capacity,
            index,
        ) == matched_quantity(state.fills, index) + capacity_at(state.capacity, index),
    decreases bids.len() - state.bid_cursor + asks.len() - state.ask_cursor,
{
    if in_play(bids, asks, state) {
        let bid = bids[state.bid_cursor as int];
        let ask = asks[state.ask_cursor as int];
        let remaining_bid = capacity_at(state.capacity, bid.index);
        let remaining_ask = capacity_at(state.capacity, ask.index);
        let amount = smaller(remaining_bid, remaining_ask);
        let next = step(bids, asks, state);
        assert(bid.index != ask.index);
        if remaining_bid != 0 && remaining_ask != 0 && amount >= bid.min_amount_out {
            lemma_matched_quantity_push(
                state.fills,
                Fill {
                    order_index: bid.index,
                    counterparty_index: ask.index,
                    amount_in: amount,
                    amount_out: amount,
                },
                index,
            );
        }
        assert(matched_quantity(next.fills, index) + capacity_at(next.capacity, index)
            == matched_quantity(state.fills, index) + capacity_at(state.capacity, index));
        lemma_run_conserves(bids, asks, next, index);
    }
}

/// Filtering keeps indices distinct, and keeps only entries of the list that
/// pass the filter.
proof fn lemma_filter_keeps_distinct(entries: Seq<BookEntry>, pred: spec_fn(BookEntry) -> bool)
    requires
        distinct_indices(entries),
    ensures
        distinct_indices(entries.filter(pred)),
        forall|k: int|
            0 <= k < entries.filter(pred).len() ==> entries.contains(
                #[trigger] entries.filter(pred)[k],
            ) && pred(entries.filter(pred)[k]),
    decreases entries.len(),
{
    reveal(Seq::filter);
    if entries.len() > 0 {
        let front = entries.drop_last();
        let last = entries.last();
        let kept = front.filter(pred);
        lemma_filter_keeps_distinct(front, pred);
        assert forall|k: int| 0 <= k < kept.len() implies entries.contains(#[trigger] kept[k])
            && kept[k].index != last.index by {
            let i = choose|i: int| 0 <= i < front.len() && front[i] == kept[k];
            assert(entries[i] == kept[k]);
        }
    }
}

/// With distinct indices, the capacity lookup records for each entry's index
/// that entry's capacity, and nothing for an index that no entry carries.
proof fn lemma_recorded_capacity(entries: Seq<BookEntry>, index: u32)
    requires
        distinct_indices(entries),
    ensures
        forall|k: int|
            0 <= k < entries.len() && (#[trigger] entries[k]).index == index ==> capacity_at(
                recorded_capacity(entries),
                index,
            ) == entries[k].capacity,
        (forall|k: int| 0 <= k < entries.len() ==> (#[trigger] entries[k]).index != index)
            ==> capacity_at(recorded_capacity(entries), index) == 0,
    decreases entries.len(),
{
    if entries.len() > 0 {
        let front = entries.drop_last();
        lemma_recorded_capacity(front, index);
        assert forall|k: int| 0 <= k < front.len() implies front[k] == entries[k] by {}
        if entries.last().index != index {
            assert forall|k: int|
                0 <= k < entries.len() && (#[trigger] entries[k]).index == index implies capacity_at(
                recorded_capacity(entries),
                index,
            ) == entries[k].capacity by {
                assert(front[k].index == index);
            }
            if forall|k: int| 0 <= k < entries.len() ==> (#[trigger] entries[k]).index != index {
                assert forall|k: int| 0 <= k < front.len() implies (#[trigger] front[k]).index
                    != index by {
                    assert(entries[k].index != index);
                }
            }
        }
    }
}

/// With distinct indices in the snapshot, no bid in the queue carries the
/// index of an ask in the queue.
proof fn lemma_queues_apart(entries: Seq<BookEntry>)
    requires
        distinct_indices(entries),
    ensures
        sides_apart(bid_queue(entries), ask_queue(entries)),
{
    let open = open_entries(entries);
    let bids = side_entries(open, OrderSide::Bid);
    let asks = side_entries(open, OrderSide::Ask);
    lemma_filter_keeps_distinct(entries, is_open());
    lemma_filter_keeps_distinct(open, on_side(OrderSide::Bid));
    lemma_filter_keeps_distinct(open, on_side(OrderSide::Ask));
    lemma_fifo_order_holds_the_entries(bids);
    lemma_fifo_order_holds_the_entries(asks);
    assert forall|i: int, j: int|
        0 <= i < bid_queue(entries).len() && 0 <= j < ask_queue(entries).len() implies (
    #[trigger] bid_queue(entries)[i]).index != (#[trigger] ask_queue(entries)[j]).index by {
        let bid = bid_queue(entries)[i];
        let ask = ask_queue(entries)[j];
        assert(fifo_order(bids)[i] == bid);
        assert(fifo_order(asks)[j] == ask);
        assert(fifo_order(bids).contains(bid));
        assert(fifo_order(asks).contains(ask));
        assert(bids.contains(bid));
        assert(asks.contains(ask));
        let b = choose|b: int| 0 <= b < bids.len() && bids[b] == bid;
        let a = choose|a: int| 0 <= a < asks.len() && asks[a] == ask;
        assert(open.contains(bids[b]) && on_side(OrderSide::Bid)(bids[b]));
        assert(open.contains(asks[a]) && on_side(OrderSide::Ask)(asks[a]));
        let p = choose|p: int| 0 <= p < open.len() && open[p] == bid;
        let q = choose|q: int| 0 <= q < open.len() && open[q] == ask;
        if p < q {
            assert(open[p].index != open[q].index);
        } else if q < p {
            assert(open[q].index != open[p].index);
        }
    }
}

/// Conservation: whenever no two orders of the snapshot carry the same
/// index, the cumulative quantity that a pass attributes to any order does
/// not exceed the capacity that the order had when the pass began.
pub proof fn lemma_conservation(entries: Seq<BookEntry>, k: int)
    requires
        distinct_indices(entries),
        0 <= k < entries.len(),
    ensures
        matched_quantity(matched_fills(entries), entries[k].index) <= entries[k].capacity,
{
    let index = entries[k].index;
    let open = open_entries(entries);
    lemma_queues_apart(entries);
    lemma_run_conserves(bid_queue(entries), ask_queue(entries), start(entries), index);
    assert(matched_quantity(start(entries).fills, index) == 0);
    lemma_filter_keeps_distinct(entries, is_open());
    lemma_recorded_capacity(open, index);
    if entries[k].open {
        entries.lemma_filter_contains(is_open(), k);
        let p = choose|p: int| 0 <= p < open.len() && open[p] == entries[k];
        assert(open[p].index == index);
    } else {
        assert forall|p: int| 0 <= p < open.len() implies (#[trigger] open[p]).index != index by {
            let i = choose|i: int| 0 <= i < entries.len() && entries[i] == open[p];
            if i < k {
                assert(entries[i].index != entries[k].index);
            } else if k < i {
                assert(entries[k].index != entries[i].index);
            }
        }
    }
}

/// Conservation for a snapshot of orders: with distinct indices, what a
/// pass attributes to an order never exceeds what the order had committed
/// and not yet used when the pass began.
pub proof fn lemma_orders_conservation(orders: Seq<Order>, k: int)
    requires
        distinct_indices(entries_of(orders)),
        0 <= k < orders.len(),
    ensures
        matched_quantity(matched_fills(entries_of(orders)), orders[k].index) <= unused_quantity(
            orders[k].amount_in,
            orders[k].filled_amount_in,
        ),
{
    lemma_conservation(entries_of(orders), k);
}

/// No step trades more than either of its two orders has left at that
/// moment: a step emits nothing, or it emits one fill whose quantity is at
/// most the remaining capacity recorded for the bid and for the ask.
pub proof fn lemma_step_trades_within_capacity(
    bids: Seq<BookEntry>,
    asks: Seq<BookEntry>,
    state: MatchState,
)
    requires
        in_play(bids, asks, state),
    ensures
        step(bids, asks, state).fills == state.fills || {
            let fill = step(bids, asks, state).fills.last();
            &&& step(bids, asks, state).fills == state.fills.push(fill)
            &&& fill.amount_in <= capacity_at(state.capacity, fill.order_index)
            &&& fill.amount_out <= capacity_at(state.capacity, fill.counterparty_index)
        },
{
}

proof fn lemma_run_emits_at_most_one_fill_a_step(
    bids: Seq<BookEntry>,
    asks: Seq<BookEntry>,
    state: MatchState,
)
    requires
        state.bid_cursor <= bids.len(),
        state.ask_cursor <= asks.len(),
        state.fills.len() <= state.bid_cursor + state.ask_cursor,
    ensures
        run(bids, asks, state).fills.len() <= bids.len() + asks.len(),
        in_play(bids, asks, state) ==> run(bids, asks, state).fills.len() < bids.len() + asks.len(),
    decreases bids.len() - state.bid_cursor + asks.len() - state.ask_cursor,
{
    if in_play(bids, asks, state) {
        let next = step(bids, asks, state);
        lemma_run_emits_at_most_one_fill_a_step(bids, asks, next);
        assert(run(bids, asks, state) == run(bids, asks, next));
        if !in_play(bids, asks, next) {
            assert(run(bids, asks, next) == next);
        }
    } else {
        assert(run(bids, asks, state) == state);
    }
}

/// The two sides of a list of entries are all of its entries.
proof fn lemma_sides_cover(entries: Seq<BookEntry>)
    ensures
        side_entries(entries, OrderSide::Bid).len() + side_entries(entries, OrderSide::Ask).len()
            == entries.len(),
    decreases entries.len(),
{
    reveal(Seq::filter);
    if entries.len() > 0 {
        lemma_sides_cover(entries.drop_last());
    }
}

/// A pass emits fewer fills than the snapshot has open orders, and none if
/// it has none. A result with as many slots as a snapshot therefore holds
/// every fill of a pass over the snapshot.
pub proof fn lemma_fills_are_fewer_than_open_orders(entries: Seq<BookEntry>)
    ensures
        matched_fills(entries).len() <= open_entries(entries).len() <= entries.len(),
        matched_fills(entries).len() > 0 ==> matched_fills(entries).len() < open_entries(
            entries,
        ).len(),
{
    let open = open_entries(entries);
    entries.lemma_filter_len(is_open());
    lemma_sides_cover(open);
    lemma_fifo_order_holds_the_entries(side_entries(open, OrderSide::Bid));
    lemma_fifo_order_holds_the_entries(side_entries(open, OrderSide::Ask));
    lemma_run_emits_at_most_one_fill_a_step(
        bid_queue(entries),
        ask_queue(entries),
        start(entries),
    );
    if !in_play(bid_queue(entries), ask_queue(entries), start(entries)) {
        assert(matched_fills(entries) =~= Seq::<Fill>::empty());
    }
}

/// Every order in a queue is an order of the snapshot that is open and on
/// the queue's side.
pub proof fn lemma_queue_members(entries: Seq<BookEntry>, side: OrderSide, entry: BookEntry)
    requires
        fifo_order(side_entries(open_entries(entries), side)).contains(entry),
    ensures
        entries.contains(entry),
        entry.open,
        entry.side == side,
{
    let open = open_entries(entries);
    let chosen = side_entries(open, side);
    lemma_fifo_order_holds_the_entries(chosen);
    assert(chosen.contains(entry));
    let c = choose|c: int| 0 <= c < chosen.len() && chosen[c] == entry;
    open.lemma_filter_pred(on_side(side), c);
    open.lemma_filter_contains_rev(on_side(side), entry);
    let p = choose|p: int| 0 <= p < open.len() && open[p] == entry;
    entries.lemma_filter_pred(is_open(), p);
    entries.lemma_filter_contains_rev(is_open(), entry);
}

/// A book with open orders on one side only matches nothing. This covers
/// the empty snapshot and the snapshot without open orders.
pub proof fn lemma_one_sided_book_matches_nothing(entries: Seq<BookEntry>, side: OrderSide)
    requires
        forall|k: int|
            0 <= k < entries.len() && (#[trigger] entries[k]).open ==> entries[k].side == side,
    ensures
        matched_fills(entries) == Seq::<Fill>::empty(),
{
    let other = side.opposite();
    let absent = side_entries(open_entries(entries), other);
    lemma_fifo_order_holds_the_entries(absent);
    if absent.len() > 0 {
        assert(fifo_order(absent).contains(fifo_order(absent)[0]));
        lemma_queue_members(entries, other, fifo_order(absent)[0]);
        let i = choose|i: int| 0 <= i < entries.len() && entries[i] == fifo_order(absent)[0];
        assert(entries[i].side == side);
    }
    assert(!in_play(bid_queue(entries), ask_queue(entries), start(entries)));
    assert(matched_fills(entries) =~= Seq::<Fill>::empty());
}

/// Whether a fill is a trade between a bid and an ask: it names both, gives
/// as much as it takes, moves a positive quantity, and that quantity is at
/// least what the bid asks for.
pub open spec fn is_trade_between(fill: Fill, bid: BookEntry, ask: BookEntry) -> bool {
    &&& fill.order_index == bid.index
    &&& fill.counterparty_index == ask.index
    &&& fill.amount_in == fill.amount_out
    &&& fill.amount_in > 0
    &&& fill.amount_in >= bid.min_amount_out
}

/// Whether a fill is a trade between some bid and some ask of two queues.
pub open spec fn is_trade(fill: Fill, bids: Seq<BookEntry>, asks: Seq<BookEntry>) -> bool {
    exists|i: int, j: int|
        0 <= i < bids.len() && 0 <= j < asks.len() && is_trade_between(
            fill,
            #[trigger] bids[i],
            #[trigger] asks[j],
        )
}

proof fn lemma_run_emits_trades(bids: Seq<BookEntry>, asks: Seq<BookEntry>, state: MatchState)
    requires
        forall|k: int| 0 <= k < state.fills.len() ==> is_trade(#[trigger] state.fills[k], bids, asks),
    ensures
        forall|k: int|
            0 <= k < run(bids, asks, state).fills.len() ==> is_trade(
                #[trigger] run(bids, asks, state).fills[k],
                bids,
                asks,
            ),
    decreases bids.len() - state.bid_cursor + asks.len() - state.ask_cursor,
{
    if in_play(bids, asks, state) {
        let next = step(bids, asks, state);
        assert forall|k: int| 0 <= k < next.fills.len() implies is_trade(
            #[trigger] next.fills[k],
            bids,
            asks,
        ) by {
            if k < state.fills.len() {
                assert(next.fills[k] == state.fills[k]);
            } else {
                assert(is_trade_between(
                    next.fills[k],
                    bids[state.bid_cursor as int],
                    asks[state.ask_cursor as int],
                ));
            }
        }
        lemma_run_emits_trades(bids, asks, next);
        assert(run(bids, asks, state) == run(bids, asks, next));
    } else {
        assert(run(bids, asks, state) == state);
    }
}

/// Every fill of a pass is a trade, one to one and of a positive quantity,
/// between an open bid and an open ask of the snapshot, and gives the bid no
/// less than the bid asks for.
pub proof fn lemma_fills_are_trades(entries: Seq<BookEntry>, k: int)
    requires
        0 <= k < matched_fills(entries).len(),
    ensures
        exists|bid: BookEntry, ask: BookEntry|
            {
                &&& entries.contains(bid) && bid.open && bid.side == OrderSide::Bid
                &&& entries.contains(ask) && ask.open && ask.side == OrderSide::Ask
                &&& #[trigger] is_trade_between(matched_fills(entries)[k], bid, ask)
            },
{
    let bids = bid_queue(entries);
    let asks = ask_queue(entries);
    lemma_run_emits_trades(bids, asks, start(entries));
    let fill = matched_fills(entries)[k];
    assert(is_trade(fill, bids, asks));
    let (i, j) = choose|i: int, j: int|
        0 <= i < bids.len() && 0 <= j < asks.len() && is_trade_between(
            fill,
            #[trigger] bids[i],
            #[trigger] asks[j],
        );
    assert(bids.contains(bids[i]));
    assert(asks.contains(asks[j]));
    lemma_queue_members(entries, OrderSide::Bid, bids[i]);
    lemma_queue_members(entries, OrderSide::Ask, asks[j]);
    assert(is_trade_between(matched_fills(entries)[k], bids[i], asks[j]));
}

/// Whether a fill would push the matched quantity of one of its two records
/// above what that record committed.
pub open spec fn overshoots(store: Seq<OrderAccount>, fill: LedgerFill) -> bool {
    &&& lookup(store, fill.order) matches Some(i)
    &&& lookup(store, fill.counterparty) matches Some(j)
    &&& (store[i].order.filled_amount_in + fill.amount_in > store[i].order.amount_in
        || store[j].order.filled_amount_in + fill.amount_out > store[j].order.amount_in)
}

/// A fill that overshoots is rejected, whatever else holds of it, and the
/// batch stops in front of it with every record as it was.
pub proof fn lemma_overshoot_is_rejected(
    state: Settled,
    market_key: Pubkey,
    accounts: Seq<AccountRef>,
    fills: Seq<LedgerFill>,
)
    requires
        state.applied < fills.len(),
        state.rejection is None,
        overshoots(state.store, fills[state.applied as int]),
    ensures
        fill_rejection(
            state.store,
            market_key,
            accounts,
            state.applied as int,
            fills[state.applied as int],
        ) is Some,
        settle_from(state, market_key, accounts, fills).rejection is Some,
        settle_from(state, market_key, accounts, fills).store == state.store,
        settle_from(state, market_key, accounts, fills).applied == state.applied,
        settle_from(state, market_key, accounts, fills).payouts == state.payouts,
{
}

/// A fill that used up one of its two records is rejected when it is
/// settled a second time: the matched quantity already accounts for it.
pub proof fn lemma_exhausting_fill_is_not_settled_twice(
    order: LedgerOrder,
    counterparty: LedgerOrder,
    market_key: Pubkey,
    fill: LedgerFill,
)
    requires
        rejection(order, counterparty, market_key, fill) is None,
        (fill.amount_in > 0 && order.filled_amount_in + fill.amount_in == order.amount_in) || (
        fill.amount_out > 0 && counterparty.filled_amount_in + fill.amount_out
            == counterparty.amount_in),
    ensures
        rejection(
            credited(order, fill.amount_in),
            credited(counterparty, fill.amount_out),
            market_key,
            fill,
        ) is Some,
{
}

/// Every record is sound: no more is matched than was committed.
pub open spec fn all_sound(store: Seq<OrderAccount>) -> bool {
    forall|k: int| 0 <= k < store.len() ==> (#[trigger] store[k]).order.sound()
}

/// Whether `after` can come of `before` by settling fills: the same records
/// at the same addresses, nothing changed but status and matched quantity,
/// and no matched quantity smaller than it was.
pub open spec fn only_credited(before: Seq<OrderAccount>, after: Seq<OrderAccount>) -> bool {
    &&& after.len() == before.len()
    &&& forall|k: int|
        0 <= k < before.len() ==> {
            &&& (#[trigger] after[k]).key == before[k].key
            &&& after[k].order.owner == before[k].order.owner
            &&& after[k].order.market == before[k].order.market
            &&& after[k].order.side == before[k].order.side
            &&& after[k].order.amount_in == before[k].order.amount_in
            &&& after[k].order.min_amount_out == before[k].order.min_amount_out
            &&& after[k].order.created_at == before[k].order.created_at
            &&& after[k].order.filled_amount_in >= before[k].order.filled_amount_in
        }
}

proof fn lemma_settle_from_keeps_records_sound(
    begin: Seq<OrderAccount>,
    state: Settled,
    market_key: Pubkey,
    accounts: Seq<AccountRef>,
    fills: Seq<LedgerFill>,
)
    requires
        all_sound(state.store),
        only_credited(begin, state.store),
        state.payouts.len() == 2 * state.applied,
        state.applied <= fills.len(),
    ensures
        all_sound(settle_from(state, market_key, accounts, fills).store),
        only_credited(begin, settle_from(state, market_key, accounts, fills).store),
        settle_from(state, market_key, accounts, fills).payouts.len() == 2 * settle_from(
            state,
            market_key,
            accounts,
            fills,
        ).applied,
        settle_from(state, market_key, accounts, fills).applied <= fills.len(),
    decreases fills.len() - state.applied,
{
    if state.applied < fills.len() {
        let fill = fills[state.applied as int];
        if fill_rejection(state.store, market_key, accounts, state.applied as int, fill) is None {
            lemma_lookup_finds_first(state.store, fill.order);
            lemma_lookup_finds_first(state.store, fill.counterparty);
            let i = lookup(state.store, fill.order)->0;
            let j = lookup(state.store, fill.counterparty)->0;
            assert(rejection(state.store[i].order, state.store[j].order, market_key, fill) is None);
            assert(i != j);
            assert(all_sound(store_after_fill(state.store, fill)));
            assert(only_credited(begin, store_after_fill(state.store, fill)));
            let pay = fill_payouts(state.store, accounts, state.applied as int, fill);
            lemma_settle_from_keeps_records_sound(
                begin,
                Settled {
                    store: store_after_fill(state.store, fill),
                    applied: state.applied + 1,
                    payouts: state.payouts.push(pay.0).push(pay.1),
                    rejection: None,
                },
                market_key,
                accounts,
                fills,
            );
        }
    }
}

/// Settlement keeps the records sound and changes nothing of a record but
/// its status and its matched quantity, which never shrinks; and it owes
/// exactly two payments for each fill it settled.
pub proof fn lemma_settlement_keeps_records_sound(
    store: Seq<OrderAccount>,
    market_key: Pubkey,
    token_program: Pubkey,
    accounts: Seq<AccountRef>,
    fills: Seq<LedgerFill>,
)
    requires
        all_sound(store),
    ensures
        all_sound(settlement(store, market_key, token_program, accounts, fills).store),
        only_credited(store, settlement(store, market_key, token_program, accounts, fills).store),
        settlement(store, market_key, token_program, accounts, fills).payouts.len() == 2
            * settlement(store, market_key, token_program, accounts, fills).applied,
        settlement(store, market_key, token_program, accounts, fills).applied <= fills.len(),
{
    lemma_settle_from_keeps_records_sound(
        store,
        Settled { store, applied: 0, payouts: Seq::empty(), rejection: None },
        market_key,
        accounts,
        fills,
    );
}

} // verus!
