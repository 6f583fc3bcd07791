use darkpool::circuits::encode_orders;
use darkpool::circuits::match_orders_mpc;
use darkpool::circuits::match_snapshot;
use darkpool::circuits::order_to_plain;
use darkpool::circuits::plain_to_order;
use darkpool::circuits::MatchResult;
use darkpool::circuits::OrdersInput;
use darkpool::circuits::PlainFill;
use darkpool::circuits::PlainOrder;
use darkpool::circuits::ValidationError;
use darkpool::circuits::MAX_ORDERS;
use darkpool::matching::book_view;
use darkpool::matching::match_orders;
use darkpool::matching::Fill;
use darkpool::matching::Order;
use darkpool::order::OrderSide;
use darkpool::order::OrderStatus;

fn order(index: u32, side: OrderSide, amount_in: u64, min_amount_out: u64, created_at: i64) -> Order {
    Order {
        index,
        side,
        amount_in,
        filled_amount_in: 0,
        min_amount_out,
        created_at,
        status: OrderStatus::Open,
    }
}

fn bid(index: u32, amount_in: u64, min_amount_out: u64, created_at: i64) -> Order {
    order(index, OrderSide::Bid, amount_in, min_amount_out, created_at)
}

fn ask(index: u32, amount_in: u64, min_amount_out: u64, created_at: i64) -> Order {
    order(index, OrderSide::Ask, amount_in, min_amount_out, created_at)
}

fn zero_order() -> PlainOrder {
    PlainOrder {
        index: 0,
        side: 0,
        amount_in: 0,
        filled_amount_in: 0,
        min_amount_out: 0,
        created_at: 0,
        status: 0,
    }
}

fn snapshot(orders: &[Order]) -> OrdersInput {
    let mut slots = [zero_order(); 100];
    for (i, order) in orders.iter().enumerate() {
        slots[i] = order_to_plain(order);
    }
    OrdersInput { orders: slots, count: orders.len() as u32 }
}

fn tuples(fills: &[Fill]) -> Vec<(u32, u32, u64, u64)> {
    fills.iter().map(|f| (f.order_index, f.counterparty_index, f.amount_in, f.amount_out)).collect()
}

fn plain_tuples(result: &MatchResult) -> Vec<(u32, u32, u64, u64)> {
    result.fills[..result.count as usize]
        .iter()
        .map(|f| (f.order_index, f.counterparty_index, f.amount_in, f.amount_out))
        .collect()
}

fn is_zero(fill: &PlainFill) -> bool {
    fill.order_index == 0 && fill.counterparty_index == 0 && fill.amount_in == 0 && fill.amount_out == 0
}

/// Runs both matchers, checks that they agree and that the fixed-work result
/// is padded with zeros, and returns the fills.
fn both(orders: &[Order]) -> Vec<(u32, u32, u64, u64)> {
    let plan = match_orders(orders);
    let input = snapshot(orders);
    assert!(input.validate().is_ok());
    let result = match_orders_mpc(&input);
    assert_eq!(tuples(&plan.fills), plain_tuples(&result));
    assert_eq!(tuples(&result.emitted_fills()), plain_tuples(&result));
    assert!(result.count as usize <= MAX_ORDERS);
    for k in result.count as usize..MAX_ORDERS {
        assert!(is_zero(&result.fills[k]));
    }
    tuples(&plan.fills)
}

/// A small linear congruential generator, so that the generated order sets
/// are the same on every run.
struct Lcg(u64);

impl Lcg {
    fn next(&mut self) -> u64 {
        self.0 = self.0.wrapping_mul(6364136223846793005).wrapping_add(1442695040888963407);
        self.0 >> 33
    }

    fn below(&mut self, bound: u64) -> u64 {
        self.next() % bound
    }
}

fn generated_orders(rng: &mut Lcg, count: usize, distinct: bool) -> Vec<Order> {
    let mut orders = Vec::new();
    for i in 0..count {
        let amount_in = rng.below(200);
        let filled = if rng.below(4) == 0 { rng.below(220) } else { 0 };
        let status = match rng.below(8) {
            0 => OrderStatus::Cancelled,
            1 => OrderStatus::Filled,
            2 => OrderStatus::PartiallyFilled,
            _ => OrderStatus::Open,
        };
        orders.push(Order {
            index: if distinct { i as u32 } else { rng.below(100) as u32 },
            side: if rng.below(2) == 0 { OrderSide::Bid } else { OrderSide::Ask },
            amount_in,
            filled_amount_in: filled,
            min_amount_out: rng.below(120),
            created_at: rng.below(12) as i64 - 4,
            status,
        });
    }
    orders
}

#[test]
fn fifo_scenario_gives_one_fill() {
    let orders = vec![
        bid(0, 50, 45, 1000),
        bid(1, 100, 90, 2000),
        ask(2, 60, 55, 1001),
        ask(3, 80, 75, 2001),
    ];
    assert_eq!(both(&orders), vec![(0, 2, 50, 50)]);
}

#[test]
fn min_out_guard_blocks_the_trade() {
    let orders = vec![bid(0, 100, 95, 1000), ask(1, 90, 0, 1001)];
    assert_eq!(both(&orders), vec![]);
}

#[test]
fn pass_ends_when_the_asks_are_exhausted() {
    let orders = vec![bid(0, 100, 0, 1000), ask(1, 50, 0, 1001)];
    assert_eq!(both(&orders), vec![(0, 1, 50, 50)]);
}

#[test]
fn degenerate_snapshots_match_nothing() {
    assert_eq!(both(&[]), vec![]);
    assert_eq!(both(&[bid(0, 100, 90, 1000), bid(1, 10, 0, 1001)]), vec![]);
    assert_eq!(both(&[ask(0, 100, 90, 1000), ask(1, 10, 0, 1001)]), vec![]);
}

#[test]
fn one_bid_is_served_by_several_asks() {
    let orders = vec![bid(0, 100, 0, 10), ask(1, 30, 0, 11), ask(2, 30, 0, 12), ask(3, 50, 0, 13)];
    assert_eq!(both(&orders), vec![(0, 1, 30, 30), (0, 2, 30, 30), (0, 3, 40, 40)]);
}

#[test]
fn earlier_arrival_goes_first_whatever_the_snapshot_order() {
    let orders = vec![bid(0, 10, 0, 30), ask(1, 10, 0, 5), bid(2, 10, 0, 20), bid(3, 10, 0, 10)];
    assert_eq!(both(&orders), vec![(3, 1, 10, 10)]);
}

#[test]
fn equal_arrivals_keep_snapshot_order() {
    let first = vec![bid(0, 10, 0, 5), bid(1, 10, 0, 5), ask(2, 10, 0, 5)];
    assert_eq!(both(&first), vec![(0, 2, 10, 10)]);
    let second = vec![bid(1, 10, 0, 5), bid(0, 10, 0, 5), ask(2, 10, 0, 5)];
    assert_eq!(both(&second), vec![(1, 2, 10, 10)]);
    let asks = vec![ask(7, 4, 0, 9), bid(1, 10, 0, 5), ask(3, 4, 0, 9), ask(5, 4, 0, 9)];
    assert_eq!(both(&asks), vec![(1, 7, 4, 4), (1, 3, 4, 4), (1, 5, 2, 2)]);
}

#[test]
fn negative_timestamps_sort_before_positive_ones() {
    let orders = vec![bid(0, 10, 0, 3), bid(1, 10, 0, -3), ask(2, 10, 0, 0)];
    assert_eq!(both(&orders), vec![(1, 2, 10, 10)]);
}

#[test]
fn a_passed_over_bid_is_not_retried() {
    let orders = vec![bid(0, 100, 95, 1), bid(1, 50, 0, 2), ask(2, 90, 0, 3), ask(3, 100, 0, 4)];
    assert_eq!(both(&orders), vec![(1, 2, 50, 50)]);
}

#[test]
fn the_minimum_of_the_ask_is_not_consulted() {
    let orders = vec![bid(0, 10, 0, 1), ask(1, 100, 50, 2)];
    assert_eq!(both(&orders), vec![(0, 1, 10, 10)]);
}

#[test]
fn a_bid_that_asks_for_exactly_the_trade_is_served() {
    let orders = vec![bid(0, 100, 90, 1), ask(1, 90, 0, 2)];
    assert_eq!(both(&orders), vec![(0, 1, 90, 90)]);
}

#[test]
fn only_open_orders_take_part() {
    let mut partly = bid(0, 100, 0, 1);
    partly.status = OrderStatus::PartiallyFilled;
    partly.filled_amount_in = 10;
    let mut filled = bid(1, 100, 0, 2);
    filled.status = OrderStatus::Filled;
    let mut cancelled = bid(2, 100, 0, 3);
    cancelled.status = OrderStatus::Cancelled;
    let orders = vec![partly, filled, cancelled, bid(3, 7, 0, 4), ask(4, 100, 0, 5)];
    assert_eq!(both(&orders), vec![(3, 4, 7, 7)]);
}

#[test]
fn used_capacity_is_not_matched_again() {
    let mut used = bid(0, 100, 0, 1);
    used.filled_amount_in = 60;
    let orders = vec![used, ask(1, 100, 0, 2)];
    assert_eq!(both(&orders), vec![(0, 1, 40, 40)]);
}

#[test]
fn capacity_is_floored_at_zero() {
    let mut overdrawn = bid(0, 100, 0, 1);
    overdrawn.filled_amount_in = 150;
    let orders = vec![overdrawn, bid(1, 5, 0, 2), ask(2, 100, 0, 3)];
    assert_eq!(both(&orders), vec![(1, 2, 5, 5)]);
}

#[test]
fn an_exhausted_ask_is_passed_over() {
    let mut spent = ask(0, 10, 0, 1);
    spent.filled_amount_in = 10;
    let orders = vec![spent, ask(1, 10, 0, 2), bid(2, 25, 0, 3)];
    assert_eq!(both(&orders), vec![(2, 1, 10, 10)]);
}

#[test]
fn a_shared_index_uses_the_capacity_recorded_last() {
    let orders = vec![bid(0, 100, 0, 1), bid(0, 30, 0, 2), ask(1, 200, 0, 3)];
    assert_eq!(both(&orders), vec![(0, 1, 30, 30)]);
    let swapped = vec![bid(0, 30, 0, 2), bid(0, 100, 0, 1), ask(1, 200, 0, 3)];
    assert_eq!(both(&swapped), vec![(0, 1, 100, 100)]);
}

#[test]
fn large_quantities_do_not_overflow() {
    let orders = vec![bid(0, u64::MAX, u64::MAX, i64::MIN), ask(1, u64::MAX, 0, i64::MAX)];
    assert_eq!(both(&orders), vec![(0, 1, u64::MAX, u64::MAX)]);
}

#[test]
fn a_full_snapshot_is_exhausted_in_the_fixed_rounds() {
    let mut orders = Vec::new();
    for i in 0..50u32 {
        orders.push(bid(i, 1, 0, i as i64));
        orders.push(ask(50 + i, 1, 0, i as i64));
    }
    let fills = both(&orders);
    assert_eq!(fills.len(), 50);
    for (i, fill) in fills.iter().enumerate() {
        assert_eq!(*fill, (i as u32, 50 + i as u32, 1, 1));
    }
    let mut chain = vec![bid(0, 99, 0, 0)];
    for i in 1..100u32 {
        chain.push(ask(i, 1, 0, 100 - i as i64));
    }
    let fills = both(&chain);
    assert_eq!(fills.len(), 99);
    for (i, fill) in fills.iter().enumerate() {
        assert_eq!(*fill, (0, 99 - i as u32, 1, 1));
    }
}

#[test]
fn matchers_agree_on_generated_order_sets() {
    let mut rng = Lcg(7);
    for round in 0..400 {
        let count = if round % 10 == 0 { 100 } else { rng.below(101) as usize };
        let orders = generated_orders(&mut rng, count, round % 2 == 0);
        both(&orders);
    }
}

#[test]
fn matching_twice_gives_the_same_plan() {
    let mut rng = Lcg(11);
    for _ in 0..50 {
        let orders = generated_orders(&mut rng, 40, true);
        let before: Vec<(u32, u64, u64)> =
            orders.iter().map(|o| (o.index, o.amount_in, o.filled_amount_in)).collect();
        let first = match_orders(&orders);
        let second = match_orders(&orders);
        assert_eq!(tuples(&first.fills), tuples(&second.fills));
        let after: Vec<(u32, u64, u64)> =
            orders.iter().map(|o| (o.index, o.amount_in, o.filled_amount_in)).collect();
        assert_eq!(before, after);
        let input = snapshot(&orders);
        assert_eq!(plain_tuples(&match_orders_mpc(&input)), plain_tuples(&match_orders_mpc(&input)));
    }
}

#[test]
fn matched_quantity_stays_within_capacity() {
    let mut rng = Lcg(23);
    for _ in 0..200 {
        let count = rng.below(101) as usize;
        let orders = generated_orders(&mut rng, count, true);
        let fills = both(&orders);
        for order in &orders {
            let mut matched: u128 = 0;
            for fill in &fills {
                if fill.0 == order.index {
                    matched += fill.2 as u128;
                }
                if fill.1 == order.index {
                    matched += fill.3 as u128;
                }
            }
            let capacity = order.amount_in.saturating_sub(order.filled_amount_in);
            assert!(matched <= capacity as u128);
            if order.status != OrderStatus::Open {
                assert_eq!(matched, 0);
            }
        }
    }
}

#[test]
fn every_fill_is_a_one_to_one_trade_that_meets_the_bid() {
    let mut rng = Lcg(31);
    for _ in 0..200 {
        let count = rng.below(101) as usize;
        let orders = generated_orders(&mut rng, count, true);
        for fill in both(&orders) {
            let bid = orders.iter().find(|o| o.index == fill.0).unwrap();
            let ask = orders.iter().find(|o| o.index == fill.1).unwrap();
            assert_eq!(bid.side, OrderSide::Bid);
            assert_eq!(ask.side, OrderSide::Ask);
            assert_eq!(bid.status, OrderStatus::Open);
            assert_eq!(ask.status, OrderStatus::Open);
            assert_eq!(fill.2, fill.3);
            assert!(fill.2 > 0);
            assert!(fill.2 >= bid.min_amount_out);
        }
    }
}

#[test]
fn padding_slots_are_not_read() {
    let mut input = snapshot(&[bid(0, 10, 0, 1)]);
    input.orders[1] = order_to_plain(&ask(1, 10, 0, 2));
    input.orders[99] = order_to_plain(&ask(2, 10, 0, 0));
    let result = match_orders_mpc(&input);
    assert_eq!(result.count, 0);
    input.count = 2;
    assert_eq!(plain_tuples(&match_orders_mpc(&input)), vec![(0, 1, 10, 10)]);
}

#[test]
fn any_side_byte_but_zero_is_an_ask() {
    let mut input = snapshot(&[bid(0, 10, 0, 1), ask(1, 10, 0, 2)]);
    input.orders[1].side = 9;
    assert_eq!(plain_tuples(&match_orders_mpc(&input)), vec![(0, 1, 10, 10)]);
}

#[test]
fn any_status_byte_but_zero_is_closed() {
    let mut input = snapshot(&[bid(0, 10, 0, 1), ask(1, 10, 0, 2)]);
    input.orders[1].status = 9;
    assert_eq!(match_orders_mpc(&input).count, 0);
}

#[test]
fn validate_accepts_a_snapshot_within_capacity() {
    let mut input = snapshot(&[bid(99, 10, 0, 1), ask(0, 10, 0, 2)]);
    assert_eq!(input.validate(), Ok(()));
    input.count = 100;
    assert_eq!(input.validate(), Ok(()));
}

#[test]
fn validate_rejects_a_count_past_the_slots() {
    let mut input = snapshot(&[bid(0, 10, 0, 1)]);
    input.count = 101;
    assert_eq!(input.validate(), Err(ValidationError::TooManyOrders));
    assert!(matches!(match_snapshot(&input), Err(ValidationError::TooManyOrders)));
}

#[test]
fn validate_rejects_an_open_order_without_a_capacity_slot() {
    let input = snapshot(&[bid(0, 10, 0, 1), ask(100, 10, 0, 2)]);
    assert_eq!(input.validate(), Err(ValidationError::IndexOutOfRange));
    assert!(matches!(match_snapshot(&input), Err(ValidationError::IndexOutOfRange)));
}

#[test]
fn validate_ignores_the_index_of_closed_orders_and_of_padding() {
    let mut closed = ask(5000, 10, 0, 2);
    closed.status = OrderStatus::Cancelled;
    let mut input = snapshot(&[bid(0, 10, 0, 1), closed, ask(2, 4, 0, 3)]);
    input.orders[50].index = 7000;
    assert_eq!(input.validate(), Ok(()));
    let result = match_snapshot(&input).unwrap();
    assert_eq!(plain_tuples(&result), vec![(0, 2, 4, 4)]);
}

#[test]
fn encode_orders_builds_the_padded_snapshot() {
    let orders = vec![bid(3, 10, 2, 1), ask(4, 20, 5, -2)];
    let input = encode_orders(&orders).unwrap();
    assert_eq!(input.count, 2);
    assert_eq!(input.orders[0].index, 3);
    assert_eq!(input.orders[0].side, 0);
    assert_eq!(input.orders[0].amount_in, 10);
    assert_eq!(input.orders[0].min_amount_out, 2);
    assert_eq!(input.orders[0].created_at, 1);
    assert_eq!(input.orders[0].status, 0);
    assert_eq!(input.orders[1].index, 4);
    assert_eq!(input.orders[1].side, 1);
    assert_eq!(input.orders[1].created_at, -2);
    for k in 2..100 {
        let slot = input.orders[k];
        assert_eq!(
            (slot.index, slot.side, slot.amount_in, slot.filled_amount_in),
            (0, 0, 0, 0)
        );
        assert_eq!((slot.min_amount_out, slot.created_at, slot.status), (0, 0, 0));
    }
    assert_eq!(plain_tuples(&match_orders_mpc(&input)), vec![(3, 4, 10, 10)]);
}

#[test]
fn encode_orders_rejects_what_is_not_within_capacity() {
    let many: Vec<Order> = (0..101).map(|i| bid(i % 100, 1, 0, 0)).collect();
    assert!(matches!(encode_orders(&many), Err(ValidationError::TooManyOrders)));
    let full: Vec<Order> = (0..100).map(|i| bid(i, 1, 0, 0)).collect();
    assert_eq!(encode_orders(&full).unwrap().count, 100);
    assert!(matches!(
        encode_orders(&[bid(100, 1, 0, 0)]),
        Err(ValidationError::IndexOutOfRange)
    ));
    let mut closed = bid(100, 1, 0, 0);
    closed.status = OrderStatus::Filled;
    assert!(encode_orders(&[closed]).is_ok());
    let mut too_many_and_out_of_range = many.clone();
    too_many_and_out_of_range[0].index = 500;
    assert!(matches!(
        encode_orders(&too_many_and_out_of_range),
        Err(ValidationError::TooManyOrders)
    ));
}

#[test]
fn emitted_fills_go_by_the_count_alone() {
    let zero = PlainFill { order_index: 0, counterparty_index: 0, amount_in: 0, amount_out: 0 };
    let mut fills = [zero; 100];
    fills[0] = PlainFill { order_index: 1, counterparty_index: 2, amount_in: 3, amount_out: 3 };
    fills[2] = PlainFill { order_index: 4, counterparty_index: 5, amount_in: 6, amount_out: 6 };
    let result = MatchResult { fills, count: 2 };
    assert_eq!(tuples(&result.emitted_fills()), vec![(1, 2, 3, 3), (0, 0, 0, 0)]);
    let none = MatchResult { fills, count: 0 };
    assert!(none.emitted_fills().is_empty());
    let over = MatchResult { fills, count: 4000 };
    assert_eq!(over.emitted_fills().len(), 100);
}

#[test]
fn each_status_and_side_has_its_code() {
    let codes = [
        (OrderStatus::Open, 0u8),
        (OrderStatus::PartiallyFilled, 1),
        (OrderStatus::Filled, 2),
        (OrderStatus::Cancelled, 3),
    ];
    for (status, code) in codes {
        let mut o = bid(1, 2, 3, 4);
        o.status = status;
        let plain = order_to_plain(&o);
        assert_eq!(plain.status, code);
        assert_eq!(plain.side, 0);
        assert_eq!(plain_to_order(&plain).status, status);
    }
    assert_eq!(order_to_plain(&ask(1, 2, 3, 4)).side, 1);
}

#[test]
fn decoding_reads_unknown_codes_leniently() {
    let mut plain = order_to_plain(&bid(1, 2, 3, 4));
    plain.status = 4;
    plain.side = 2;
    let decoded = plain_to_order(&plain);
    assert_eq!(decoded.status, OrderStatus::Open);
    assert_eq!(decoded.side, OrderSide::Ask);
    plain.status = 255;
    assert_eq!(plain_to_order(&plain).status, OrderStatus::Open);
}

#[test]
fn book_view_queues_each_side_and_records_what_is_left() {
    let mut used = bid(0, 100, 0, 30);
    used.filled_amount_in = 40;
    let mut closed = ask(9, 5, 0, 1);
    closed.status = OrderStatus::Filled;
    let mut overdrawn = ask(5, 5, 0, 40);
    overdrawn.filled_amount_in = 6;
    let orders = vec![
        used,
        ask(1, 10, 0, 20),
        bid(2, 7, 0, 10),
        closed,
        ask(3, 8, 0, 20),
        bid(4, 5, 0, 10),
        overdrawn,
    ];
    let view = book_view(&orders);
    let bids: Vec<u32> = view.bids.iter().map(|o| o.index).collect();
    let asks: Vec<u32> = view.asks.iter().map(|o| o.index).collect();
    assert_eq!(bids, vec![2, 4, 0]);
    assert_eq!(asks, vec![1, 3, 5]);
    assert_eq!(view.remaining.len(), 6);
    assert_eq!(view.remaining.get(&0), Some(&60));
    assert_eq!(view.remaining.get(&1), Some(&10));
    assert_eq!(view.remaining.get(&2), Some(&7));
    assert_eq!(view.remaining.get(&3), Some(&8));
    assert_eq!(view.remaining.get(&4), Some(&5));
    assert_eq!(view.remaining.get(&5), Some(&0));
    assert_eq!(view.remaining.get(&9), None);
}

#[test]
fn book_view_of_nothing_is_empty() {
    let view = book_view(&[]);
    assert!(view.bids.is_empty());
    assert!(view.asks.is_empty());
    assert!(view.remaining.is_empty());
}

#[test]
fn an_index_shared_across_sides_is_matched_against_itself() {
    let orders = vec![bid(0, 100, 0, 1), ask(0, 100, 0, 2)];
    assert_eq!(both(&orders), vec![(0, 0, 100, 100)]);
}
