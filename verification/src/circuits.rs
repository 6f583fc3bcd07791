//! The fixed-work matcher.
//!
//! This matcher is meant to run where neither timing nor memory access may
//! depend on the orders: every loop runs [`MAX_ORDERS`] times, every table has
//! [`MAX_ORDERS`] slots, the queues are sorted by a bubble sort whose
//! comparisons follow a fixed schedule, and the capacity lookup is an array
//! addressed by order index. Snapshots and results are zero-padded arrays with
//! an explicit count; the count alone says which slots are in use.
use vstd::prelude::*;
use crate::book::arranged;
use crate::book::capacity_at;
use crate::book::is_open;
use crate::book::lemma_filter_nothing;
use crate::book::on_side;
use crate::book::open_entries;
use crate::book::recorded_capacity;
use crate::book::side_entries;
use crate::book::fifo_order;
use crate::book::has_priority;
use crate::book::is_fifo_arrangement;
use crate::book::lemma_fifo_order_is_the_arrangement;
use crate::book::unused_quantity;
use crate::book::BookEntry;
use crate::engine::in_play;
use crate::engine::matched_fills;
use crate::engine::run;
use crate::engine::start;
use crate::engine::step;
use crate::engine::MatchState;
use crate::matching::entries_of;
use crate::matching::Fill;
use crate::matching::Order;
use crate::order::OrderSide;
use crate::order::OrderStatus;

verus! {

/// Capacity of a snapshot and of a result, in orders and in fills.
pub const MAX_ORDERS: usize = 100;

/// `MAX_ORDERS` as a count: the number of times every loop of the fixed-work
/// matcher runs.
const ROUNDS: u32 = 100;

/// An order in its fixed-width encoding.
#[derive(Debug, Clone, Copy)]
pub struct PlainOrder {
    pub index: u32,
    /// `0` for a bid; any other value is read as an ask (`1` is written).
    pub side: u8,
    pub amount_in: u64,
    pub filled_amount_in: u64,
    pub min_amount_out: u64,
    pub created_at: i64,
    /// `0` open, `1` partially filled, `2` filled, `3` cancelled; only `0` is
    /// eligible for matching.
    pub status: u8,
}

/// A fill in its fixed-width encoding.
#[derive(Debug, Clone, Copy)]
pub struct PlainFill {
    pub order_index: u32,
    pub counterparty_index: u32,
    pub amount_in: u64,
    pub amount_out: u64,
}

/// A snapshot of up to [`MAX_ORDERS`] orders: the first `count` slots hold
/// orders, the others are padding.
#[derive(Debug, Clone, Copy)]
pub struct OrdersInput {
    pub orders: [PlainOrder; MAX_ORDERS],
    pub count: u32,
}

/// The fills of one pass: the first `count` slots hold fills in order of
/// emission, the others are zero.
#[derive(Debug, Clone, Copy)]
pub struct MatchResult {
    pub fills: [PlainFill; MAX_ORDERS],
    pub count: u32,
}

/// Why a snapshot cannot be matched by the fixed-work matcher.
#[derive(Debug, Clone, Copy, PartialEq, Eq, Structural)]
pub enum ValidationError {
    /// More orders than a snapshot has slots.
    TooManyOrders,
    /// An eligible order whose index has no slot in the capacity table.
    IndexOutOfRange,
}

impl PlainOrder {
    /// What the matching engine reads of this order.
    pub open spec fn entry(self) -> BookEntry {
        BookEntry {
            index: self.index,
            side: if self.side == 0 {
                OrderSide::Bid
            } else {
                OrderSide::Ask
            },
            open: self.status == 0,
            capacity: unused_quantity(self.amount_in, self.filled_amount_in),
            min_amount_out: self.min_amount_out,
            created_at: self.created_at,
        }
    }

    /// The padding value: every field zero.
    pub open spec fn is_zero(self) -> bool {
        &&& self.index == 0
        &&& self.side == 0
        &&& self.amount_in == 0
        &&& self.filled_amount_in == 0
        &&& self.min_amount_out == 0
        &&& self.created_at == 0
        &&& self.status == 0
    }
}

impl View for PlainFill {
    type V = Fill;

    open spec fn view(&self) -> Fill {
        Fill {
            order_index: self.order_index,
            counterparty_index: self.counterparty_index,
            amount_in: self.amount_in,
            amount_out: self.amount_out,
        }
    }
}

impl PlainFill {
    /// The padding value: every field zero.
    pub open spec fn is_zero(self) -> bool {
        &&& self.order_index == 0
        &&& self.counterparty_index == 0
        &&& self.amount_in == 0
        &&& self.amount_out == 0
    }
}

/// The book entries of encoded orders, in the order given.
pub open spec fn plain_entries(orders: Seq<PlainOrder>) -> Seq<BookEntry> {
    orders.map_values(|p: PlainOrder| p.entry())
}

/// Whether an encoded order can be given a slot in the capacity table: only
/// eligible orders need one.
pub open spec fn addressable(order: PlainOrder) -> bool {
    order.status == 0 ==> order.index < MAX_ORDERS
}

impl OrdersInput {
    /// The orders in use.
    pub open spec fn used(self) -> Seq<PlainOrder> {
        self.orders@.take(self.count as int)
    }

    /// The book entries of the orders in use, in snapshot order.
    pub open spec fn entries(self) -> Seq<BookEntry> {
        plain_entries(self.used())
    }

    /// The snapshot is within capacity: the count fits the slots and every
    /// eligible order in use has a slot in the capacity table.
    pub open spec fn valid(self) -> bool {
        &&& self.count <= MAX_ORDERS
        &&& forall|k: int| 0 <= k < self.count ==> addressable(#[trigger] self.orders[k])
    }

    /// Which error [`OrdersInput::validate`] reports, if any.
    pub open spec fn defect(self) -> Option<ValidationError> {
        if self.count > MAX_ORDERS {
            Some(ValidationError::TooManyOrders)
        } else if !self.valid() {
            Some(ValidationError::IndexOutOfRange)
        } else {
            None
        }
    }
}

impl MatchResult {
    /// The fills in use, in order of emission.
    pub open spec fn emitted(self) -> Seq<Fill> {
        Seq::new(self.count as nat, |k: int| self.fills[k]@)
    }

    /// The count fits the slots and every slot past it is zero.
    pub open spec fn padded(self) -> bool {
        &&& self.count <= MAX_ORDERS
        &&& forall|k: int| self.count <= k < MAX_ORDERS ==> (#[trigger] self.fills[k]).is_zero()
    }
}

/// The fixed-width encoding of an order.
pub open spec fn encoded(order: Order) -> PlainOrder {
    PlainOrder {
        index: order.index,
        side: match order.side {
            OrderSide::Bid => 0u8,
            OrderSide::Ask => 1u8,
        },
        amount_in: order.amount_in,
        filled_amount_in: order.filled_amount_in,
        min_amount_out: order.min_amount_out,
        created_at: order.created_at,
        status: match order.status {
            OrderStatus::Open => 0u8,
            OrderStatus::PartiallyFilled => 1u8,
            OrderStatus::Filled => 2u8,
            OrderStatus::Cancelled => 3u8,
        },
    }
}

/// The order that an encoding stands for. A side other than `0` is an ask; a
/// status outside `0..=3` is read as open.
pub open spec fn decoded(plain: PlainOrder) -> Order {
    Order {
        index: plain.index,
        side: if plain.side == 0 {
            OrderSide::Bid
        } else {
            OrderSide::Ask
        },
        amount_in: plain.amount_in,
        filled_amount_in: plain.filled_amount_in,
        min_amount_out: plain.min_amount_out,
        created_at: plain.created_at,
        status: if plain.status == 1 {
            OrderStatus::PartiallyFilled
        } else if plain.status == 2 {
            OrderStatus::Filled
        } else if plain.status == 3 {
            OrderStatus::Cancelled
        } else {
            OrderStatus::Open
        },
    }
}

/// Encodes an order for the fixed-work matcher.
pub fn order_to_plain(order: &Order) -> (plain: PlainOrder)
    ensures
        plain == encoded(*order),
        plain.entry() == order.entry(),
        decoded(plain) == *order,
{
    PlainOrder {
        index: order.index,
        side: match order.side {
            OrderSide::Bid => 0,
            OrderSide::Ask => 1,
        },
        amount_in: order.amount_in,
        filled_amount_in: order.filled_amount_in,
        min_amount_out: order.min_amount_out,
        created_at: order.created_at,
        status: match order.status {
            OrderStatus::Open => 0,
            OrderStatus::PartiallyFilled => 1,
            OrderStatus::Filled => 2,
            OrderStatus::Cancelled => 3,
        },
    }
}

/// Decodes an order.
pub fn plain_to_order(plain: &PlainOrder) -> (order: Order)
    ensures
        order == decoded(*plain),
        plain.status <= 3 ==> order.entry() == plain.entry(),
{
    Order {
        index: plain.index,
        side: if plain.side == 0 {
            OrderSide::Bid
        } else {
            OrderSide::Ask
        },
        amount_in: plain.amount_in,
        filled_amount_in: plain.filled_amount_in,
        min_amount_out: plain.min_amount_out,
        created_at: plain.created_at,
        status: match plain.status {
            0 => OrderStatus::Open,
            1 => OrderStatus::PartiallyFilled,
            2 => OrderStatus::Filled,
            3 => OrderStatus::Cancelled,
            _ => OrderStatus::Open,
        },
    }
}

impl OrdersInput {
    /// Checks that the snapshot is within capacity.
    pub fn validate(&self) -> (checked: Result<(), ValidationError>)
        ensures
            checked is Ok <==> self.valid(),
            checked == match self.defect() {
                Some(error) => Err::<(), ValidationError>(error),
                None => Ok(()),
            },
    {
        if self.count > ROUNDS {
            return Err(ValidationError::TooManyOrders);
        }
        let mut i: u32 = 0;
        while i < self.count
            invariant
                i <= self.count,
                self.count <= MAX_ORDERS,
                forall|k: int| 0 <= k < i ==> addressable(#[trigger] self.orders[k]),
            decreases self.count - i,
        {
            let order = self.orders[i as usize];
            if order.status == 0 && order.index >= ROUNDS {
                assert(!addressable(self.orders[i as int]));
                return Err(ValidationError::IndexOutOfRange);
            }
            i += 1;
        }
        Ok(())
    }
}

impl MatchResult {
    /// The fills in use, in order of emission. A count past the last slot is
    /// read as a full table.
    pub fn emitted_fills(&self) -> (fills: Vec<Fill>)
        ensures
            fills@ == fills_in(
                self.fills@,
                if self.count <= MAX_ORDERS {
                    self.count as int
                } else {
                    MAX_ORDERS as int
                },
            ),
            self.count <= MAX_ORDERS ==> fills@ == self.emitted(),
    {
        let used: u32 = if self.count <= ROUNDS {
            self.count
        } else {
            ROUNDS
        };
        let mut fills: Vec<Fill> = Vec::new();
        let mut i: u32 = 0;
        while i < used
            invariant
                i <= used,
                used <= MAX_ORDERS,
                fills@ == fills_in(self.fills@, i as int),
            decreases used - i,
        {
            let fill = self.fills[i as usize];
            fills.push(
                Fill {
                    order_index: fill.order_index,
                    counterparty_index: fill.counterparty_index,
                    amount_in: fill.amount_in,
                    amount_out: fill.amount_out,
                },
            );
            i += 1;
        }
        fills
    }
}

/// Whether `input` is the snapshot that encodes `orders`: one slot per order,
/// in order, and zeros in every other slot.
pub open spec fn encodes(input: OrdersInput, orders: Seq<Order>) -> bool {
    &&& input.count == orders.len()
    &&& orders.len() <= MAX_ORDERS
    &&& forall|k: int| 0 <= k < orders.len() ==> #[trigger] input.orders[k] == encoded(orders[k])
    &&& forall|k: int| orders.len() <= k < MAX_ORDERS ==> (#[trigger] input.orders[k]).is_zero()
}

/// Whether a set of orders is within the capacity of the fixed-work matcher:
/// no more orders than slots, and every open order has an index below the
/// number of slots.
pub open spec fn within_capacity(orders: Seq<Order>) -> bool {
    &&& orders.len() <= MAX_ORDERS
    &&& forall|k: int|
        0 <= k < orders.len() && (#[trigger] orders[k]).status == OrderStatus::Open
            ==> orders[k].index < MAX_ORDERS
}

/// Builds the snapshot for the fixed-work matcher from a set of orders.
///
/// Fails with `TooManyOrders` if there are more orders than slots, else with
/// `IndexOutOfRange` if an open order has an index that the capacity table
/// cannot address.
pub fn encode_orders(orders: &[Order]) -> (snapshot: Result<OrdersInput, ValidationError>)
    ensures
        snapshot is Ok <==> within_capacity(orders@),
        snapshot matches Ok(input) ==> encodes(input, orders@) && input.valid() && input.entries()
            == entries_of(orders@),
        snapshot matches Err(error) ==> error == if orders@.len() > MAX_ORDERS {
            ValidationError::TooManyOrders
        } else {
            ValidationError::IndexOutOfRange
        },
{
    if orders.len() > MAX_ORDERS {
        return Err(ValidationError::TooManyOrders);
    }
    let mut slots = [zero_order();MAX_ORDERS];
    let mut i: usize = 0;
    while i < orders.len()
        invariant
            i <= orders.len(),
            orders.len() <= MAX_ORDERS,
            forall|k: int| 0 <= k < i ==> #[trigger] slots[k] == encoded(orders[k]),
            forall|k: int| i <= k < MAX_ORDERS ==> (#[trigger] slots[k]).is_zero(),
            forall|k: int|
                0 <= k < i && (#[trigger] orders[k]).status == OrderStatus::Open
                    ==> orders[k].index < MAX_ORDERS,
        decreases orders.len() - i,
    {
        let plain = order_to_plain(&orders[i]);
        if plain.status == 0 && plain.index >= ROUNDS {
            return Err(ValidationError::IndexOutOfRange);
        }
        slots[i] = plain;
        i += 1;
    }
    let input = OrdersInput { orders: slots, count: orders.len() as u32 };
    proof {
        assert(input.entries() =~= entries_of(orders@));
    }
    Ok(input)
}

/// Validates a snapshot and matches it with a fixed amount of work. A
/// snapshot that is not within capacity is rejected before any matching.
pub fn match_snapshot(input: &OrdersInput) -> (outcome: Result<MatchResult, ValidationError>)
    ensures
        outcome is Ok <==> input.valid(),
        outcome matches Ok(result) ==> result.emitted() == matched_fills(input.entries())
            && result.padded(),
        outcome matches Err(error) ==> Some(error) == input.defect(),
{
    match input.validate() {
        Ok(()) => Ok(match_orders_mpc(input)),
        Err(error) => Err(error),
    }
}

/// Whether a capacity table stands for a capacity lookup: slot `index` holds
/// what the lookup records for `index`, and nothing is recorded past the table.
pub open spec fn table_holds(table: Seq<u64>, capacity: Map<u32, u64>) -> bool {
    forall|index: u32| #[trigger]
        capacity_at(capacity, index) == if index < MAX_ORDERS {
            table[index as int]
        } else {
            0
        }
}

/// Writing a slot of the table records the same capacity in the lookup.
proof fn lemma_table_write(table: Seq<u64>, capacity: Map<u32, u64>, index: u32, quantity: u64)
    requires
        table_holds(table, capacity),
        table.len() == MAX_ORDERS,
        index < MAX_ORDERS,
    ensures
        table_holds(table.update(index as int, quantity), capacity.insert(index, quantity)),
{
    assert forall|other: u32| #[trigger]
        capacity_at(capacity.insert(index, quantity), other) == if other < MAX_ORDERS {
            table.update(index as int, quantity)[other as int]
        } else {
            0
        } by {
        assert(capacity_at(capacity, other) == if other < MAX_ORDERS {
            table[other as int]
        } else {
            0
        });
    }
}

/// Taking one more encoded order appends its entry.
proof fn lemma_plain_take_next(orders: Seq<PlainOrder>, i: int)
    requires
        0 <= i < orders.len(),
    ensures
        plain_entries(orders.take(i + 1)) == plain_entries(orders.take(i)).push(orders[i].entry()),
        plain_entries(orders.take(i + 1)).drop_last() == plain_entries(orders.take(i)),
{
    assert(plain_entries(orders.take(i + 1)) =~= plain_entries(orders.take(i)).push(
        orders[i].entry(),
    ));
    assert(plain_entries(orders.take(i + 1)).drop_last() =~= plain_entries(orders.take(i)));
}

/// Writing the slot just past the part in use appends to the part in use.
proof fn lemma_plain_append(before: Seq<PlainOrder>, after: Seq<PlainOrder>, n: int, order: PlainOrder)
    requires
        0 <= n < before.len(),
        after == before.update(n, order),
    ensures
        plain_entries(after.take(n + 1)) == plain_entries(before.take(n)).push(order.entry()),
{
    assert(plain_entries(after.take(n + 1)) =~= plain_entries(before.take(n)).push(order.entry()));
}

/// The padding value of an order slot.
fn zero_order() -> (order: PlainOrder)
    ensures
        order.is_zero(),
{
    PlainOrder {
        index: 0,
        side: 0,
        amount_in: 0,
        filled_amount_in: 0,
        min_amount_out: 0,
        created_at: 0,
        status: 0,
    }
}

/// The eligible orders of a snapshot, in snapshot order, in the first slots
/// of a table, with their number.
fn collect_open(input: &OrdersInput) -> (open: ([PlainOrder; MAX_ORDERS], u32))
    requires
        input.valid(),
    ensures
        open.1 <= input.count,
        plain_entries(open.0@.take(open.1 as int)) == open_entries(input.entries()),
        forall|k: int| 0 <= k < open.1 ==> (#[trigger] open.0[k]).index < MAX_ORDERS,
{
    let mut open_orders = [zero_order();MAX_ORDERS];
    let mut open_count: u32 = 0;
    let mut i: u32 = 0;
    proof {
        lemma_filter_nothing(is_open());
        assert(plain_entries(input.orders@.take(0)) =~= Seq::<BookEntry>::empty());
        assert(plain_entries(open_orders@.take(0)) =~= Seq::<BookEntry>::empty());
    }
    while i < ROUNDS
        invariant
            i <= ROUNDS,
            input.valid(),
            open_count <= i,
            open_count <= input.count,
            plain_entries(open_orders@.take(open_count as int)) == open_entries(
                plain_entries(
                    input.orders@.take(
                        if i < input.count {
                            i as int
                        } else {
                            input.count as int
                        },
                    ),
                ),
            ),
            forall|k: int| 0 <= k < open_count ==> (#[trigger] open_orders[k]).index < MAX_ORDERS,
        decreases ROUNDS - i,
    {
        if i < input.count {
            let order = input.orders[i as usize];
            proof {
                lemma_plain_take_next(input.orders@, i as int);
                plain_entries(input.orders@.take(i as int)).lemma_filter_push(
                    order.entry(),
                    is_open(),
                );
                assert(addressable(input.orders[i as int]));
            }
            if order.status == 0 {
                let ghost before = open_orders@;
                open_orders[open_count as usize] = order;
                proof {
                    lemma_plain_append(before, open_orders@, open_count as int, order);
                }
                open_count = open_count + 1;
            }
        }
        i += 1;
    }
    (open_orders, open_count)
}

/// The two sides of a table of eligible orders, each in the order given, with
/// their numbers: bids, number of bids, asks, number of asks.
fn split_sides(open_orders: &[PlainOrder; MAX_ORDERS], open_count: u32) -> (sides: (
    [PlainOrder; MAX_ORDERS],
    u32,
    [PlainOrder; MAX_ORDERS],
    u32,
))
    requires
        open_count <= MAX_ORDERS,
        forall|k: int| 0 <= k < open_count ==> (#[trigger] open_orders[k]).index < MAX_ORDERS,
    ensures
        sides.1 + sides.3 == open_count,
        plain_entries(sides.0@.take(sides.1 as int)) == side_entries(
            plain_entries(open_orders@.take(open_count as int)),
            OrderSide::Bid,
        ),
        plain_entries(sides.2@.take(sides.3 as int)) == side_entries(
            plain_entries(open_orders@.take(open_count as int)),
            OrderSide::Ask,
        ),
        forall|k: int| 0 <= k < sides.1 ==> (#[trigger] sides.0[k]).index < MAX_ORDERS,
        forall|k: int| 0 <= k < sides.3 ==> (#[trigger] sides.2[k]).index < MAX_ORDERS,
{
    let mut bids = [zero_order();MAX_ORDERS];
    let mut bid_count: u32 = 0;
    let mut asks = [zero_order();MAX_ORDERS];
    let mut ask_count: u32 = 0;
    let mut i: u32 = 0;
    proof {
        lemma_filter_nothing(on_side(OrderSide::Bid));
        lemma_filter_nothing(on_side(OrderSide::Ask));
        assert(plain_entries(open_orders@.take(0)) =~= Seq::<BookEntry>::empty());
        assert(plain_entries(bids@.take(0)) =~= Seq::<BookEntry>::empty());
        assert(plain_entries(asks@.take(0)) =~= Seq::<BookEntry>::empty());
    }
    while i < ROUNDS
        invariant
            i <= ROUNDS,
            open_count <= MAX_ORDERS,
            forall|k: int| 0 <= k < open_count ==> (#[trigger] open_orders[k]).index < MAX_ORDERS,
            bid_count + ask_count == if i < open_count {
                i as int
            } else {
                open_count as int
            },
            plain_entries(bids@.take(bid_count as int)) == side_entries(
                plain_entries(
                    open_orders@.take(
                        if i < open_count {
                            i as int
                        } else {
                            open_count as int
                        },
                    ),
                ),
                OrderSide::Bid,
            ),
            plain_entries(asks@.take(ask_count as int)) == side_entries(
                plain_entries(
                    open_orders@.take(
                        if i < open_count {
                            i as int
                        } else {
                            open_count as int
                        },
                    ),
                ),
                OrderSide::Ask,
            ),
            forall|k: int| 0 <= k < bid_count ==> (#[trigger] bids[k]).index < MAX_ORDERS,
            forall|k: int| 0 <= k < ask_count ==> (#[trigger] asks[k]).index < MAX_ORDERS,
        decreases ROUNDS - i,
    {
        if i < open_count {
            let order = open_orders[i as usize];
            proof {
                lemma_plain_take_next(open_orders@, i as int);
                plain_entries(open_orders@.take(i as int)).lemma_filter_push(
                    order.entry(),
                    on_side(OrderSide::Bid),
                );
                plain_entries(open_orders@.take(i as int)).lemma_filter_push(
                    order.entry(),
                    on_side(OrderSide::Ask),
                );
            }
            if order.side == 0 {
                let ghost before = bids@;
                bids[bid_count as usize] = order;
                proof {
                    lemma_plain_append(before, bids@, bid_count as int, order);
                }
                bid_count = bid_count + 1;
            } else {
                let ghost before = asks@;
                asks[ask_count as usize] = order;
                proof {
                    lemma_plain_append(before, asks@, ask_count as int, order);
                }
                ask_count = ask_count + 1;
            }
        }
        i += 1;
    }
    (bids, bid_count, asks, ask_count)
}

/// The capacity table: slot `index` holds what the last eligible order with
/// that index has not yet used, and zero where there is no such order.
fn capacity_table(open_orders: &[PlainOrder; MAX_ORDERS], open_count: u32) -> (remaining: [u64;
    MAX_ORDERS])
    requires
        open_count <= MAX_ORDERS,
        forall|k: int| 0 <= k < open_count ==> (#[trigger] open_orders[k]).index < MAX_ORDERS,
    ensures
        table_holds(
            remaining@,
            recorded_capacity(plain_entries(open_orders@.take(open_count as int))),
        ),
{
    let mut remaining = [0u64;MAX_ORDERS];
    let mut i: u32 = 0;
    proof {
        assert(plain_entries(open_orders@.take(0)) =~= Seq::<BookEntry>::empty());
    }
    while i < ROUNDS
        invariant
            i <= ROUNDS,
            open_count <= MAX_ORDERS,
            forall|k: int| 0 <= k < open_count ==> (#[trigger] open_orders[k]).index < MAX_ORDERS,
            table_holds(
                remaining@,
                recorded_capacity(
                    plain_entries(
                        open_orders@.take(
                            if i < open_count {
                                i as int
                            } else {
                                open_count as int
                            },
                        ),
                    ),
                ),
            ),
        decreases ROUNDS - i,
    {
        if i < open_count {
            let order = open_orders[i as usize];
            let rem = if order.amount_in >= order.filled_amount_in {
                order.amount_in - order.filled_amount_in
            } else {
                0
            };
            proof {
                lemma_plain_take_next(open_orders@, i as int);
                lemma_table_write(
                    remaining@,
                    recorded_capacity(plain_entries(open_orders@.take(i as int))),
                    order.index,
                    rem,
                );
            }
            remaining[order.index as usize] = rem;
        }
        i += 1;
    }
    remaining
}

/// Sorts the first `count` slots of a queue by arrival time, earliest first,
/// ties in the order given. The slots past `count` are left alone.
///
/// This is a bubble sort: `MAX_ORDERS` passes of `MAX_ORDERS` steps each,
/// whatever the queue holds. A step looks at two neighbours and swaps them
/// only if the first arrived strictly later, so equal arrivals never pass
/// each other.
fn sort_queue(queue: &mut [PlainOrder; MAX_ORDERS], count: u32)
    requires
        count <= MAX_ORDERS,
        forall|k: int| 0 <= k < count ==> (#[trigger] old(queue)[k]).index < MAX_ORDERS,
    ensures
        plain_entries(final(queue)@.take(count as int)) == fifo_order(
            plain_entries(old(queue)@.take(count as int)),
        ),
        forall|k: int| 0 <= k < count ==> (#[trigger] final(queue)[k]).index < MAX_ORDERS,
        forall|k: int| count <= k < MAX_ORDERS ==> final(queue)[k] == old(queue)[k],
{
    let ghost src = queue@;
    let ghost mut perm: Seq<int> = Seq::new(count as nat, |k: int| k);
    let ghost mut inv: Seq<int> = Seq::new(count as nat, |k: int| k);
    let mut i: u32 = 0;
    while i < ROUNDS
        invariant
            i <= ROUNDS,
            count <= MAX_ORDERS,
            src.len() == MAX_ORDERS,
            forall|k: int| 0 <= k < count ==> (#[trigger] src[k]).index < MAX_ORDERS,
            perm.len() == count,
            inv.len() == count,
            forall|k: int|
                0 <= k < count ==> 0 <= #[trigger] perm[k] < count && queue[k] == src[perm[k]]
                    && inv[perm[k]] == k,
            forall|v: int| 0 <= v < count ==> 0 <= #[trigger] inv[v] < count && perm[inv[v]] == v,
            forall|k: int| count <= k < MAX_ORDERS ==> queue[k] == src[k],
            forall|a: int, b: int|
                0 <= a < b < count && src[#[trigger] perm[a]].created_at
                    == src[#[trigger] perm[b]].created_at ==> perm[a] < perm[b],
            forall|a: int, b: int|
                0 <= a < b < count && b >= count - i ==> (#[trigger] queue[a]).created_at
                    <= (#[trigger] queue[b]).created_at,
        decreases ROUNDS - i,
    {
        if i < count {
            let limit: u32 = count - 1 - i;
            let mut j: u32 = 0;
            while j < ROUNDS
                invariant
                    j <= ROUNDS,
                    i < count,
                    count <= MAX_ORDERS,
                    limit == count - 1 - i,
                    src.len() == MAX_ORDERS,
                    perm.len() == count,
                    inv.len() == count,
                    forall|k: int|
                        0 <= k < count ==> 0 <= #[trigger] perm[k] < count && queue[k]
                            == src[perm[k]] && inv[perm[k]] == k,
                    forall|v: int|
                        0 <= v < count ==> 0 <= #[trigger] inv[v] < count && perm[inv[v]] == v,
                    forall|k: int| count <= k < MAX_ORDERS ==> queue[k] == src[k],
                    forall|a: int, b: int|
                        0 <= a < b < count && src[#[trigger] perm[a]].created_at
                            == src[#[trigger] perm[b]].created_at ==> perm[a] < perm[b],
                    forall|a: int, b: int|
                        0 <= a < b < count && b >= count - i ==> (#[trigger] queue[a]).created_at
                            <= (#[trigger] queue[b]).created_at,
                    forall|a: int|
                        0 <= a <= j && a <= limit ==> (#[trigger] queue[a]).created_at <= queue[if j
                            < limit {
                            j as int
                        } else {
                            limit as int
                        }].created_at,
                decreases ROUNDS - j,
            {
                if j < limit {
                    let first = queue[j as usize];
                    let second = queue[j as usize + 1];
                    if first.created_at > second.created_at {
                        queue[j as usize] = second;
                        queue[j as usize + 1] = first;
                        proof {
                            let p = perm[j as int];
                            let q = perm[j as int + 1];
                            assert(inv[p] == j as int && inv[q] == j as int + 1);
                            perm = perm.update(j as int, q).update(j as int + 1, p);
                            inv = inv.update(q, j as int).update(p, j as int + 1);
                        }
                    }
                }
                j += 1;
            }
        }
        i += 1;
    }
    proof {
        let entries = plain_entries(src.take(count as int));
        assert forall|a: int, b: int| 0 <= a < b < perm.len() implies has_priority(
            entries,
            #[trigger] perm[a],
            #[trigger] perm[b],
        ) by {
            assert(queue[a].created_at <= queue[b].created_at);
        }
        assert(is_fifo_arrangement(entries, perm, inv));
        lemma_fifo_order_is_the_arrangement(entries, perm, inv);
        assert(arranged(entries, perm) =~= plain_entries(queue@.take(count as int)));
        assert forall|k: int| 0 <= k < count implies (#[trigger] queue[k]).index < MAX_ORDERS by {
            assert(queue[k] == src[perm[k]]);
        }
    }
}

/// The padding value of a fill slot.
fn zero_fill() -> (fill: PlainFill)
    ensures
        fill.is_zero(),
{
    PlainFill { order_index: 0, counterparty_index: 0, amount_in: 0, amount_out: 0 }
}

/// The fills held in the first `count` slots of a table.
pub open spec fn fills_in(table: Seq<PlainFill>, count: int) -> Seq<Fill> {
    Seq::new(count as nat, |k: int| table[k]@)
}

/// Matches a snapshot with a fixed amount of work.
///
/// The result holds exactly the fills that the matching rule gives for the
/// orders in use, in order of emission, and zeros in every other slot. The
/// pass runs `MAX_ORDERS` rounds whatever the snapshot holds; a snapshot
/// within capacity is always exhausted by then, because every round in which
/// both cursors point at an order moves at least one of them on.
pub fn match_orders_mpc(input: &OrdersInput) -> (result: MatchResult)
    requires
        input.valid(),
    ensures
        result.emitted() == matched_fills(input.entries()),
        result.padded(),
{
    let (open_orders, open_count) = collect_open(input);
    let (mut bids, bid_count, mut asks, ask_count) = split_sides(&open_orders, open_count);
    sort_queue(&mut bids, bid_count);
    sort_queue(&mut asks, ask_count);
    let mut remaining = capacity_table(&open_orders, open_count);

    let mut fills = [zero_fill();MAX_ORDERS];
    let mut fill_count: u32 = 0;
    let mut bid_idx: u32 = 0;
    let mut ask_idx: u32 = 0;

    let ghost snapshot = input.entries();
    let ghost bid_entries = plain_entries(bids@.take(bid_count as int));
    let ghost ask_entries = plain_entries(asks@.take(ask_count as int));
    let ghost mut capacity = start(snapshot).capacity;
    assert(fills_in(fills@, 0) =~= Seq::<Fill>::empty());

    let mut round: u32 = 0;
    while round < ROUNDS
        invariant
            round <= ROUNDS,
            bid_count + ask_count <= MAX_ORDERS,
            bid_entries == plain_entries(bids@.take(bid_count as int)),
            ask_entries == plain_entries(asks@.take(ask_count as int)),
            forall|k: int| 0 <= k < bid_count ==> (#[trigger] bids[k]).index < MAX_ORDERS,
            forall|k: int| 0 <= k < ask_count ==> (#[trigger] asks[k]).index < MAX_ORDERS,
            bid_idx <= bid_count,
            ask_idx <= ask_count,
            fill_count <= round,
            bid_idx < bid_count && ask_idx < ask_count ==> bid_idx + ask_idx >= round,
            table_holds(remaining@, capacity),
            forall|k: int| fill_count <= k < MAX_ORDERS ==> (#[trigger] fills[k]).is_zero(),
            run(
                bid_entries,
                ask_entries,
                MatchState {
                    bid_cursor: bid_idx as nat,
                    ask_cursor: ask_idx as nat,
                    capacity,
                    fills: fills_in(fills@, fill_count as int),
                },
            ) == run(bid_entries, ask_entries, start(snapshot)),
        decreases ROUNDS - round,
    {
        if bid_idx < bid_count && ask_idx < ask_count {
            let ghost state = MatchState {
                bid_cursor: bid_idx as nat,
                ask_cursor: ask_idx as nat,
                capacity,
                fills: fills_in(fills@, fill_count as int),
            };
            assert(in_play(bid_entries, ask_entries, state));
            let bid = bids[bid_idx as usize];
            let ask = asks[ask_idx as usize];
            assert(bid.entry() == bid_entries[bid_idx as int]);
            assert(ask.entry() == ask_entries[ask_idx as int]);

            let remaining_bid = remaining[bid.index as usize];
            let remaining_ask = remaining[ask.index as usize];
            assert(remaining_bid == capacity_at(capacity, bid.index));
            assert(remaining_ask == capacity_at(capacity, ask.index));

            if remaining_bid == 0 {
                bid_idx = bid_idx + 1;
            } else if remaining_ask == 0 {
                ask_idx = ask_idx + 1;
            } else {
                let match_amount = if remaining_bid < remaining_ask {
                    remaining_bid
                } else {
                    remaining_ask
                };
                if match_amount == 0 {
                    // Both capacities are positive here, so nothing reaches
                    // this guard; it is kept so that a zero trade can never
                    // be emitted.
                    bid_idx = bid_idx + 1;
                    ask_idx = ask_idx + 1;
                } else if match_amount < bid.min_amount_out {
                    bid_idx = bid_idx + 1;
                } else {
                    let ghost emitted = fills_in(fills@, fill_count as int);
                    let fill = PlainFill {
                        order_index: bid.index,
                        counterparty_index: ask.index,
                        amount_in: match_amount,
                        amount_out: match_amount,
                    };
                    fills[fill_count as usize] = fill;
                    fill_count = fill_count + 1;
                    assert(fills_in(fills@, fill_count as int) =~= emitted.push(fill@));

                    let new_bid_remaining = remaining_bid - match_amount;
                    let new_ask_remaining = remaining_ask - match_amount;
                    proof {
                        lemma_table_write(remaining@, capacity, bid.index, new_bid_remaining);
                        lemma_table_write(
                            remaining@.update(bid.index as int, new_bid_remaining),
                            capacity.insert(bid.index, new_bid_remaining),
                            ask.index,
                            new_ask_remaining,
                        );
                        capacity =
                        capacity.insert(bid.index, new_bid_remaining).insert(
                            ask.index,
                            new_ask_remaining,
                        );
                    }
                    remaining[bid.index as usize] = new_bid_remaining;
                    remaining[ask.index as usize] = new_ask_remaining;

                    if new_bid_remaining == 0 {
                        bid_idx = bid_idx + 1;
                    }
                    if new_ask_remaining == 0 {
                        ask_idx = ask_idx + 1;
                    }
                }
            }
            assert(MatchState {
                bid_cursor: bid_idx as nat,
                ask_cursor: ask_idx as nat,
                capacity,
                fills: fills_in(fills@, fill_count as int),
            } == step(bid_entries, ask_entries, state));
        }
        round += 1;
    }
    let result = MatchResult { fills, count: fill_count };
    assert(result.emitted() =~= fills_in(fills@, fill_count as int));
    result
}

} // verus!
