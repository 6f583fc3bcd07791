//! Settlement: applying a batch of fills to the order records.
//!
//! A batch comes with a list of account handles: first the base vault, the
//! quote vault, the market and the token program, then six handles per fill:
//! the order, the counterparty, and the base and quote token accounts of the
//! order's owner and of the counterparty's owner. Fills are settled one by
//! one, in order. The first fill that is rejected stops the batch; what was
//! settled before it stays settled.
use vstd::prelude::*;
use crate::ledger::same_key;
use crate::ledger::Asset;
use crate::ledger::BatchSettled;
use crate::ledger::DarkpoolError;
use crate::ledger::Fill;
use crate::ledger::Order;
use crate::ledger::Payout;
use crate::ledger::Pubkey;
use crate::order::OrderSide;
use crate::order::OrderStatus;

verus! {

/// Number of handles ahead of the first fill's.
pub const FIXED_ACCOUNTS: usize = 4;

/// Number of handles per fill.
pub const ACCOUNTS_PER_FILL: usize = 6;

/// What settlement reads of an account handle: its address and the program
/// that owns it.
#[derive(Debug, Clone, Copy)]
pub struct AccountRef {
    pub key: Pubkey,
    pub owner: Pubkey,
}

/// An order record at its address.
#[derive(Debug, Clone, Copy)]
pub struct OrderAccount {
    pub key: Pubkey,
    pub order: Order,
}

/// Why the handles that every batch starts with are refused, if they are:
/// one of the four is missing, a vault is not a token account, the market is
/// not the one addressed, or the token program is another.
pub open spec fn header_error(
    accounts: Seq<AccountRef>,
    market_key: Pubkey,
    token_program: Pubkey,
) -> Option<DarkpoolError> {
    if accounts.len() < FIXED_ACCOUNTS {
        Some(DarkpoolError::OrderNotFound)
    } else if accounts[0].owner != token_program {
        Some(DarkpoolError::InvalidTokenAccount)
    } else if accounts[1].owner != token_program {
        Some(DarkpoolError::InvalidTokenAccount)
    } else if accounts[2].key != market_key {
        Some(DarkpoolError::MismatchedMarket)
    } else if accounts[3].key != token_program {
        Some(DarkpoolError::InvalidTokenAccount)
    } else {
        None
    }
}

/// Where the handles of the fill at `position` start.
pub open spec fn first_handle(position: int) -> int {
    FIXED_ACCOUNTS + ACCOUNTS_PER_FILL * position
}

/// Why the handles of one fill are refused, if they are: one of the six is
/// missing, or the first two are not the fill's order and counterparty.
pub open spec fn handles_error(accounts: Seq<AccountRef>, position: int, fill: Fill) -> Option<
    DarkpoolError,
> {
    let first = first_handle(position);
    if accounts.len() < first + ACCOUNTS_PER_FILL {
        Some(DarkpoolError::OrderNotFound)
    } else if accounts[first].key != fill.order {
        Some(DarkpoolError::OrderNotFound)
    } else if accounts[first + 1].key != fill.counterparty {
        Some(DarkpoolError::OrderNotFound)
    } else {
        None
    }
}

/// The place of the first record stored at `key`, if there is one.
pub open spec fn lookup(store: Seq<OrderAccount>, key: Pubkey) -> Option<int>
    decreases store.len(),
{
    if store.len() == 0 {
        None
    } else {
        match lookup(store.drop_last(), key) {
            Some(place) => Some(place),
            None => if store.last().key == key {
                Some(store.len() - 1)
            } else {
                None
            },
        }
    }
}

/// Why a fill between two records is rejected, if it is. The checks are made
/// in this order: same market, not cancelled, opposite sides, then for the
/// order and after it for the counterparty: the new matched quantity fits
/// the integer type and does not exceed the committed quantity.
pub open spec fn rejection(
    order: Order,
    counterparty: Order,
    market_key: Pubkey,
    fill: Fill,
) -> Option<DarkpoolError> {
    if order.market != market_key || counterparty.market != market_key {
        Some(DarkpoolError::MismatchedMarket)
    } else if order.status == OrderStatus::Cancelled || counterparty.status
        == OrderStatus::Cancelled {
        Some(DarkpoolError::OrderCancelled)
    } else if order.side == counterparty.side {
        Some(DarkpoolError::SameSideOrders)
    } else if order.filled_amount_in + fill.amount_in > u64::MAX {
        Some(DarkpoolError::MathOverflow)
    } else if order.filled_amount_in + fill.amount_in > order.amount_in {
        Some(DarkpoolError::InsufficientRemaining)
    } else if counterparty.filled_amount_in + fill.amount_out > u64::MAX {
        Some(DarkpoolError::MathOverflow)
    } else if counterparty.filled_amount_in + fill.amount_out > counterparty.amount_in {
        Some(DarkpoolError::InsufficientRemaining)
    } else {
        None
    }
}

/// The record after `quantity` more of it has been matched: filled if
/// nothing is left, else partially filled.
pub open spec fn credited(order: Order, quantity: u64) -> Order {
    let filled = (order.filled_amount_in + quantity) as u64;
    Order {
        filled_amount_in: filled,
        status: if filled == order.amount_in {
            OrderStatus::Filled
        } else {
            OrderStatus::PartiallyFilled
        },
        ..order
    }
}

/// Why the fill at `position` is rejected on a store, if it is: its handles
/// are refused, or one of its two records is not in the store, or the fill
/// between them is rejected.
pub open spec fn fill_rejection(
    store: Seq<OrderAccount>,
    market_key: Pubkey,
    accounts: Seq<AccountRef>,
    position: int,
    fill: Fill,
) -> Option<DarkpoolError> {
    if handles_error(accounts, position, fill) is Some {
        handles_error(accounts, position, fill)
    } else if lookup(store, fill.order) is None || lookup(store, fill.counterparty) is None {
        Some(DarkpoolError::OrderNotFound)
    } else {
        rejection(
            store[lookup(store, fill.order)->0].order,
            store[lookup(store, fill.counterparty)->0].order,
            market_key,
            fill,
        )
    }
}

/// The store after an accepted fill: both records credited, nothing else
/// touched.
pub open spec fn store_after_fill(store: Seq<OrderAccount>, fill: Fill) -> Seq<OrderAccount> {
    let i = lookup(store, fill.order)->0;
    let j = lookup(store, fill.counterparty)->0;
    store.update(i, OrderAccount { key: store[i].key, order: credited(store[i].order, fill.amount_in) })
        .update(
        j,
        OrderAccount { key: store[j].key, order: credited(store[j].order, fill.amount_out) },
    )
}

/// The two payments of an accepted fill, in the order in which they are
/// made. The owner of the bid is paid the base that the ask delivers, the
/// owner of the ask the quote that the bid pays; the order's owner is paid
/// first.
pub open spec fn fill_payouts(
    store: Seq<OrderAccount>,
    accounts: Seq<AccountRef>,
    position: int,
    fill: Fill,
) -> (Payout, Payout) {
    let first = first_handle(position);
    match store[lookup(store, fill.order)->0].order.side {
        OrderSide::Bid => (
            Payout { asset: Asset::Base, recipient: accounts[first + 2].key, amount: fill.amount_out },
            Payout { asset: Asset::Quote, recipient: accounts[first + 5].key, amount: fill.amount_in },
        ),
        OrderSide::Ask => (
            Payout { asset: Asset::Quote, recipient: accounts[first + 3].key, amount: fill.amount_out },
            Payout { asset: Asset::Base, recipient: accounts[first + 4].key, amount: fill.amount_in },
        ),
    }
}

/// How far a batch has got.
pub struct Settled {
    /// The order records.
    pub store: Seq<OrderAccount>,
    /// How many fills have been settled.
    pub applied: nat,
    /// The payments of those fills, two per fill.
    pub payouts: Seq<Payout>,
    /// Why the next fill was rejected, if one was.
    pub rejection: Option<DarkpoolError>,
}

/// Where a batch ends if it continues from `state`: the fills from
/// `state.applied` on are settled in turn until one is rejected.
pub open spec fn settle_from(
    state: Settled,
    market_key: Pubkey,
    accounts: Seq<AccountRef>,
    fills: Seq<Fill>,
) -> Settled
    decreases fills.len() - state.applied,
{
    if state.applied >= fills.len() {
        state
    } else {
        let fill = fills[state.applied as int];
        let refused = fill_rejection(state.store, market_key, accounts, state.applied as int, fill);
        if refused is Some {
            Settled { rejection: refused, ..state }
        } else {
            let pay = fill_payouts(state.store, accounts, state.applied as int, fill);
            settle_from(
                Settled {
                    store: store_after_fill(state.store, fill),
                    applied: state.applied + 1,
                    payouts: state.payouts.push(pay.0).push(pay.1),
                    rejection: None,
                },
                market_key,
                accounts,
                fills,
            )
        }
    }
}

/// Where a batch ends: nothing is settled if the leading handles are
/// refused; else the fills are settled in turn until one is rejected.
pub open spec fn settlement(
    store: Seq<OrderAccount>,
    market_key: Pubkey,
    token_program: Pubkey,
    accounts: Seq<AccountRef>,
    fills: Seq<Fill>,
) -> Settled {
    let untouched = Settled { store, applied: 0, payouts: Seq::empty(), rejection: None };
    if header_error(accounts, market_key, token_program) is Some {
        Settled { rejection: header_error(accounts, market_key, token_program), ..untouched }
    } else {
        settle_from(untouched, market_key, accounts, fills)
    }
}

/// A record found in a prefix of the store is the record found in the store.
proof fn lemma_lookup_prefix(store: Seq<OrderAccount>, key: Pubkey, k: int)
    requires
        0 <= k <= store.len(),
        lookup(store.take(k), key) is Some,
    ensures
        lookup(store, key) == lookup(store.take(k), key),
    decreases store.len() - k,
{
    if k == store.len() {
        assert(store.take(k) =~= store);
    } else {
        assert(store.drop_last().take(k) =~= store.take(k));
        lemma_lookup_prefix(store.drop_last(), key, k);
    }
}

/// What `lookup` finds: the first record at the key, or none if no record is
/// at the key.
pub proof fn lemma_lookup_finds_first(store: Seq<OrderAccount>, key: Pubkey)
    ensures
        match lookup(store, key) {
            Some(place) => 0 <= place < store.len() && store[place].key == key && forall|k: int|
                0 <= k < place ==> (#[trigger] store[k]).key != key,
            None => forall|k: int| 0 <= k < store.len() ==> (#[trigger] store[k]).key != key,
        },
    decreases store.len(),
{
    if store.len() > 0 {
        lemma_lookup_finds_first(store.drop_last(), key);
        assert forall|k: int| 0 <= k < store.len() - 1 implies store[k] == store.drop_last()[k] by {}
    }
}

/// Checks the four handles that every batch starts with.
pub fn check_settlement_accounts(
    accounts: &[AccountRef],
    market_key: &Pubkey,
    token_program: &Pubkey,
) -> (checked: Result<(), DarkpoolError>)
    ensures
        checked == match header_error(accounts@, *market_key, *token_program) {
            Some(error) => Err::<(), DarkpoolError>(error),
            None => Ok(()),
        },
{
    if accounts.len() < FIXED_ACCOUNTS {
        return Err(DarkpoolError::OrderNotFound);
    }
    if !same_key(&accounts[0].owner, token_program) {
        return Err(DarkpoolError::InvalidTokenAccount);
    }
    if !same_key(&accounts[1].owner, token_program) {
        return Err(DarkpoolError::InvalidTokenAccount);
    }
    if !same_key(&accounts[2].key, market_key) {
        return Err(DarkpoolError::MismatchedMarket);
    }
    if !same_key(&accounts[3].key, token_program) {
        return Err(DarkpoolError::InvalidTokenAccount);
    }
    Ok(())
}

/// Finds the first record stored at `key`.
pub fn find_order(store: &Vec<OrderAccount>, key: &Pubkey) -> (found: Option<usize>)
    ensures
        match found {
            Some(place) => lookup(store@, *key) == Some(place as int),
            None => lookup(store@, *key) is None,
        },
{
    let mut i: usize = 0;
    while i < store.len()
        invariant
            i <= store.len(),
            lookup(store@.take(i as int), *key) is None,
        decreases store.len() - i,
    {
        assert(store@.take(i as int + 1).drop_last() =~= store@.take(i as int));
        if same_key(&store[i].key, key) {
            proof {
                lemma_lookup_prefix(store@, *key, i as int + 1);
            }
            return Some(i);
        }
        i += 1;
    }
    assert(store@.take(store.len() as int) =~= store@);
    None
}

/// Settles one fill between two records, or says why it is rejected.
pub fn apply_fill(order: &Order, counterparty: &Order, market_key: &Pubkey, fill: &Fill) -> (outcome:
    Result<(Order, Order), DarkpoolError>)
    ensures
        outcome == match rejection(*order, *counterparty, *market_key, *fill) {
            Some(error) => Err::<(Order, Order), DarkpoolError>(error),
            None => Ok(
                (credited(*order, fill.amount_in), credited(*counterparty, fill.amount_out)),
            ),
        },
        outcome matches Ok(pair) ==> pair.0.sound() && pair.1.sound(),
{
    if !same_key(&order.market, market_key) {
        return Err(DarkpoolError::MismatchedMarket);
    }
    if !same_key(&counterparty.market, market_key) {
        return Err(DarkpoolError::MismatchedMarket);
    }
    if order.status == OrderStatus::Cancelled {
        return Err(DarkpoolError::OrderCancelled);
    }
    if counterparty.status == OrderStatus::Cancelled {
        return Err(DarkpoolError::OrderCancelled);
    }
    if order.side == counterparty.side {
        return Err(DarkpoolError::SameSideOrders);
    }
    let order_new_filled = match order.filled_amount_in.checked_add(fill.amount_in) {
        Some(filled) => filled,
        None => {
            return Err(DarkpoolError::MathOverflow);
        },
    };
    if order_new_filled > order.amount_in {
        return Err(DarkpoolError::InsufficientRemaining);
    }
    let counterparty_new_filled = match counterparty.filled_amount_in.checked_add(fill.amount_out) {
        Some(filled) => filled,
        None => {
            return Err(DarkpoolError::MathOverflow);
        },
    };
    if counterparty_new_filled > counterparty.amount_in {
        return Err(DarkpoolError::InsufficientRemaining);
    }
    let mut new_order = *order;
    let mut new_counterparty = *counterparty;
    new_order.filled_amount_in = order_new_filled;
    new_counterparty.filled_amount_in = counterparty_new_filled;
    if new_order.filled_amount_in == new_order.amount_in {
        new_order.status = OrderStatus::Filled;
    } else {
        new_order.status = OrderStatus::PartiallyFilled;
    }
    if new_counterparty.filled_amount_in == new_counterparty.amount_in {
        new_counterparty.status = OrderStatus::Filled;
    } else {
        new_counterparty.status = OrderStatus::PartiallyFilled;
    }
    Ok((new_order, new_counterparty))
}

/// Settles the fill at `position` of a batch on the store: checks its
/// handles, finds its two records, settles the fill between them and writes
/// both back. Returns the two payments to make, in order. A rejected fill
/// leaves the store as it was.
pub fn settle_fill(
    orders: &mut Vec<OrderAccount>,
    market_key: &Pubkey,
    accounts: &[AccountRef],
    position: usize,
    fill: &Fill,
) -> (outcome: Result<(Payout, Payout), DarkpoolError>)
    ensures
        match fill_rejection(old(orders)@, *market_key, accounts@, position as int, *fill) {
            Some(error) => outcome == Err::<(Payout, Payout), DarkpoolError>(error)
                && final(orders)@ == old(orders)@,
            None => outcome == Ok::<(Payout, Payout), DarkpoolError>(
                fill_payouts(old(orders)@, accounts@, position as int, *fill),
            ) && final(orders)@ == store_after_fill(old(orders)@, *fill),
        },
{
    let handles = accounts.len();
    if position > (usize::MAX - FIXED_ACCOUNTS - ACCOUNTS_PER_FILL) / ACCOUNTS_PER_FILL {
        // More handles than can exist would be needed.
        return Err(DarkpoolError::OrderNotFound);
    }
    let first: usize = FIXED_ACCOUNTS + ACCOUNTS_PER_FILL * position;
    if handles < first + ACCOUNTS_PER_FILL {
        return Err(DarkpoolError::OrderNotFound);
    }
    if !same_key(&accounts[first].key, &fill.order) {
        return Err(DarkpoolError::OrderNotFound);
    }
    if !same_key(&accounts[first + 1].key, &fill.counterparty) {
        return Err(DarkpoolError::OrderNotFound);
    }
    let order_at = match find_order(orders, &fill.order) {
        Some(place) => place,
        None => {
            return Err(DarkpoolError::OrderNotFound);
        },
    };
    let counterparty_at = match find_order(orders, &fill.counterparty) {
        Some(place) => place,
        None => {
            return Err(DarkpoolError::OrderNotFound);
        },
    };
    proof {
        lemma_lookup_finds_first(orders@, fill.order);
        lemma_lookup_finds_first(orders@, fill.counterparty);
    }
    let order = orders[order_at].order;
    let counterparty = orders[counterparty_at].order;
    let (new_order, new_counterparty) = match apply_fill(&order, &counterparty, market_key, fill) {
        Ok(pair) => pair,
        Err(error) => {
            return Err(error);
        },
    };
    let order_key = orders[order_at].key;
    let counterparty_key = orders[counterparty_at].key;
    orders[order_at] = OrderAccount { key: order_key, order: new_order };
    orders[counterparty_at] = OrderAccount { key: counterparty_key, order: new_counterparty };
    let payouts = match order.side {
        OrderSide::Bid => (
            Payout { asset: Asset::Base, recipient: accounts[first + 2].key, amount: fill.amount_out },
            Payout { asset: Asset::Quote, recipient: accounts[first + 5].key, amount: fill.amount_in },
        ),
        OrderSide::Ask => (
            Payout { asset: Asset::Quote, recipient: accounts[first + 3].key, amount: fill.amount_out },
            Payout { asset: Asset::Base, recipient: accounts[first + 4].key, amount: fill.amount_in },
        ),
    };
    Ok(payouts)
}

/// What a batch did.
#[derive(Debug)]
pub struct BatchOutcome {
    /// How many fills were settled; they are the first of the batch.
    pub applied: usize,
    /// The payments of the settled fills, two per fill, in the order in
    /// which they are to be made.
    pub payouts: Vec<Payout>,
    /// The event to emit if every fill was settled; else why the batch
    /// stopped.
    pub result: Result<BatchSettled, DarkpoolError>,
}

/// Settles a batch of fills on the store.
///
/// The leading handles are checked first; if they are refused nothing is
/// settled. Then the fills are settled in order. The first rejected fill
/// stops the batch: the fills ahead of it stay settled and their payments
/// stay owed, the rejected fill and those behind it change nothing. The
/// authorization that came with the batch is not looked into; it is handed
/// on in the event of a batch that was settled whole.
pub fn settle_batch(
    market_key: &Pubkey,
    token_program: &Pubkey,
    accounts: &[AccountRef],
    orders: &mut Vec<OrderAccount>,
    fills: &[Fill],
    arcium_signature: Vec<u8>,
) -> (outcome: BatchOutcome)
    ensures
        final(orders)@ == settlement(
            old(orders)@,
            *market_key,
            *token_program,
            accounts@,
            fills@,
        ).store,
        outcome.applied == settlement(
            old(orders)@,
            *market_key,
            *token_program,
            accounts@,
            fills@,
        ).applied,
        outcome.payouts@ == settlement(
            old(orders)@,
            *market_key,
            *token_program,
            accounts@,
            fills@,
        ).payouts,
        match settlement(old(orders)@, *market_key, *token_program, accounts@, fills@).rejection {
            Some(error) => outcome.result == Err::<BatchSettled, DarkpoolError>(error),
            None => outcome.result == Ok::<BatchSettled, DarkpoolError>(
                BatchSettled { fills_count: (fills@.len() % 256) as u8, arcium_signature },
            ),
        },
{
    let mut payouts: Vec<Payout> = Vec::new();
    match check_settlement_accounts(accounts, market_key, token_program) {
        Ok(()) => {},
        Err(error) => {
            return BatchOutcome { applied: 0, payouts, result: Err(error) };
        },
    }
    let ghost begin = Settled {
        store: orders@,
        applied: 0,
        payouts: Seq::<Payout>::empty(),
        rejection: None,
    };
    let mut applied: usize = 0;
    while applied < fills.len()
        invariant
            applied <= fills.len(),
            header_error(accounts@, *market_key, *token_program) is None,
            begin == (Settled {
                store: old(orders)@,
                applied: 0,
                payouts: Seq::<Payout>::empty(),
                rejection: None,
            }),
            settle_from(
                Settled {
                    store: orders@,
                    applied: applied as nat,
                    payouts: payouts@,
                    rejection: None,
                },
                *market_key,
                accounts@,
                fills@,
            ) == settle_from(begin, *market_key, accounts@, fills@),
        decreases fills.len() - applied,
    {
        match settle_fill(orders, market_key, accounts, applied, &fills[applied]) {
            Ok((first, second)) => {
                payouts.push(first);
                payouts.push(second);
                applied += 1;
            },
            Err(error) => {
                return BatchOutcome { applied, payouts, result: Err(error) };
            },
        }
    }
    let fills_count = (fills.len() % 256) as u8;
    BatchOutcome { applied, payouts, result: Ok(BatchSettled { fills_count, arcium_signature }) }
}

} // verus!
