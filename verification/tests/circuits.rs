use darkpool::circuits::match_orders_mpc;
use darkpool::circuits::order_to_plain;
use darkpool::circuits::plain_to_order;
use darkpool::circuits::OrdersInput;
use darkpool::circuits::PlainOrder;
use darkpool::matching::match_orders;
use darkpool::matching::Order;
use darkpool::order::OrderSide;
use darkpool::order::OrderStatus;

/// Runs both matchers on the same orders and compares what they emit, after
/// checking that every order survives the trip through its encoding.
fn test_matching_equivalence(orders: &[Order]) {
    let plain_result = match_orders(orders);

    let mut plain_orders = [PlainOrder {
        index: 0,
        side: 0,
        amount_in: 0,
        filled_amount_in: 0,
        min_amount_out: 0,
        created_at: 0,
        status: 0,
    }; 100];

    for (i, order) in orders.iter().enumerate() {
        plain_orders[i] = order_to_plain(order);
    }

    for (i, order) in orders.iter().enumerate() {
        let plain = &plain_orders[i];
        let reconstructed = plain_to_order(plain);
        assert_eq!(order.index, reconstructed.index);
        assert_eq!(order.side, reconstructed.side);
        assert_eq!(order.amount_in, reconstructed.amount_in);
        assert_eq!(order.filled_amount_in, reconstructed.filled_amount_in);
        assert_eq!(order.min_amount_out, reconstructed.min_amount_out);
        assert_eq!(order.created_at, reconstructed.created_at);
        assert_eq!(order.status, reconstructed.status);
    }

    let input = OrdersInput { orders: plain_orders, count: orders.len() as u32 };
    let mpc_result = match_orders_mpc(&input);
    assert_eq!(plain_result.fills.len(), mpc_result.count as usize);
    for i in 0..plain_result.fills.len() {
        assert_eq!(plain_result.fills[i].order_index, mpc_result.fills[i].order_index);
        assert_eq!(plain_result.fills[i].counterparty_index, mpc_result.fills[i].counterparty_index);
        assert_eq!(plain_result.fills[i].amount_in, mpc_result.fills[i].amount_in);
        assert_eq!(plain_result.fills[i].amount_out, mpc_result.fills[i].amount_out);
    }

    println!("Plain matcher produced {} fills", plain_result.fills.len());
}

#[test]
fn test_single_bid_and_ask_equivalence() {
    let orders = vec![
        Order {
            index: 0,
            side: OrderSide::Bid,
            amount_in: 100,
            filled_amount_in: 0,
            min_amount_out: 90,
            created_at: 1000,
            status: OrderStatus::Open,
        },
        Order {
            index: 1,
            side: OrderSide::Ask,
            amount_in: 100,
            filled_amount_in: 0,
            min_amount_out: 95,
            created_at: 1001,
            status: OrderStatus::Open,
        },
    ];

    test_matching_equivalence(&orders);
}

#[test]
fn test_fifo_matching_equivalence() {
    let orders = vec![
        Order {
            index: 0,
            side: OrderSide::Bid,
            amount_in: 50,
            filled_amount_in: 0,
            min_amount_out: 45,
            created_at: 1000,
            status: OrderStatus::Open,
        },
        Order {
            index: 1,
            side: OrderSide::Bid,
            amount_in: 100,
            filled_amount_in: 0,
            min_amount_out: 90,
            created_at: 2000,
            status: OrderStatus::Open,
        },
        Order {
            index: 2,
            side: OrderSide::Ask,
            amount_in: 60,
            filled_amount_in: 0,
            min_amount_out: 55,
            created_at: 1001,
            status: OrderStatus::Open,
        },
        Order {
            index: 3,
            side: OrderSide::Ask,
            amount_in: 80,
            filled_amount_in: 0,
            min_amount_out: 75,
            created_at: 2001,
            status: OrderStatus::Open,
        },
    ];

    test_matching_equivalence(&orders);
}

#[test]
fn test_min_amount_out_equivalence() {
    let orders = vec![
        Order {
            index: 0,
            side: OrderSide::Bid,
            amount_in: 100,
            filled_amount_in: 0,
            min_amount_out: 95,
            created_at: 1000,
            status: OrderStatus::Open,
        },
        Order {
            index: 1,
            side: OrderSide::Ask,
            amount_in: 90,
            filled_amount_in: 0,
            min_amount_out: 85,
            created_at: 1001,
            status: OrderStatus::Open,
        },
    ];

    test_matching_equivalence(&orders);
}

#[test]
fn test_partial_fills_equivalence() {
    let orders = vec![
        Order {
            index: 0,
            side: OrderSide::Bid,
            amount_in: 100,
            filled_amount_in: 0,
            min_amount_out: 50,
            created_at: 1000,
            status: OrderStatus::Open,
        },
        Order {
            index: 1,
            side: OrderSide::Ask,
            amount_in: 50,
            filled_amount_in: 0,
            min_amount_out: 45,
            created_at: 1001,
            status: OrderStatus::Open,
        },
    ];

    test_matching_equivalence(&orders);
}

#[test]
fn test_empty_input_equivalence() {
    let orders: Vec<Order> = vec![];
    test_matching_equivalence(&orders);
}

#[test]
fn test_multiple_fills_equivalence() {
    let orders = vec![
        Order {
            index: 0,
            side: OrderSide::Bid,
            amount_in: 100,
            filled_amount_in: 0,
            min_amount_out: 50,
            created_at: 1000,
            status: OrderStatus::Open,
        },
        Order {
            index: 1,
            side: OrderSide::Bid,
            amount_in: 50,
            filled_amount_in: 0,
            min_amount_out: 45,
            created_at: 2000,
            status: OrderStatus::Open,
        },
        Order {
            index: 2,
            side: OrderSide::Ask,
            amount_in: 60,
            filled_amount_in: 0,
            min_amount_out: 55,
            created_at: 1001,
            status: OrderStatus::Open,
        },
        Order {
            index: 3,
            side: OrderSide::Ask,
            amount_in: 50,
            filled_amount_in: 0,
            min_amount_out: 45,
            created_at: 2001,
            status: OrderStatus::Open,
        },
    ];

    test_matching_equivalence(&orders);
}

#[test]
fn test_conversion_roundtrip() {
    // Order -> PlainOrder -> Order preserves all data
    let order = Order {
        index: 42,
        side: OrderSide::Bid,
        amount_in: 1000,
        filled_amount_in: 250,
        min_amount_out: 900,
        created_at: 12345678,
        status: OrderStatus::Open,
    };

    let plain = order_to_plain(&order);
    let reconstructed = plain_to_order(&plain);

    assert_eq!(order.index, reconstructed.index);
    assert_eq!(order.side, reconstructed.side);
    assert_eq!(order.amount_in, reconstructed.amount_in);
    assert_eq!(order.filled_amount_in, reconstructed.filled_amount_in);
    assert_eq!(order.min_amount_out, reconstructed.min_amount_out);
    assert_eq!(order.created_at, reconstructed.created_at);
    assert_eq!(order.status, reconstructed.status);
}
