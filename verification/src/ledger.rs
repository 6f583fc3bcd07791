//! The ledger: order records, what placing and cancelling an order does to
//! them and to escrow, and the settlement of fills.
//!
//! Every function here works on plain values. Reading and writing accounts,
//! moving tokens and emitting events are left to the caller, who is handed
//! the transfers to make and the events to emit.
use vstd::prelude::*;
use crate::order::OrderSide;
use crate::order::OrderStatus;

verus! {

/// The address of an account.
pub type Pubkey = [u8; 32];

/// Venue-wide configuration.
#[derive(Debug, Clone, Copy)]
pub struct Config {
    pub admin: Pubkey,
    pub bump: u8,
}

impl Config {
    /// Stored size in bytes: the admin and the bump.
    pub const LEN: usize = 32 + 1;
}

/// A market for one pair of assets, with the escrow vault of each.
#[derive(Debug, Clone, Copy)]
pub struct Market {
    pub base_mint: Pubkey,
    pub quote_mint: Pubkey,
    pub base_vault: Pubkey,
    pub quote_vault: Pubkey,
    pub bump: u8,
}

impl Market {
    /// Stored size in bytes: four addresses and the bump.
    pub const LEN: usize = 32 + 32 + 32 + 32 + 1;
}

/// An order record.
#[derive(Debug, Clone, Copy)]
pub struct Order {
    pub owner: Pubkey,
    pub market: Pubkey,
    pub side: OrderSide,
    /// Committed quantity.
    pub amount_in: u64,
    /// Cumulative matched quantity.
    pub filled_amount_in: u64,
    pub min_amount_out: u64,
    pub status: OrderStatus,
    pub created_at: i64,
    pub bump: u8,
    pub nonce: u64,
}

impl Order {
    /// Stored size in bytes, field by field.
    pub const LEN: usize = 32 + 32 + 1 + 8 + 8 + 8 + 1 + 8 + 1 + 8;

    /// No more has been matched than was committed.
    pub open spec fn sound(self) -> bool {
        self.filled_amount_in <= self.amount_in
    }

    /// Committed quantity that has not been matched.
    pub open spec fn remaining(self) -> int {
        self.amount_in - self.filled_amount_in
    }
}

/// A trade to settle: `amount_in` is matched against the order and
/// `amount_out` against the counterparty.
#[derive(Debug, Clone, Copy)]
pub struct Fill {
    pub order: Pubkey,
    pub counterparty: Pubkey,
    pub amount_in: u64,
    pub amount_out: u64,
}

/// Emitted when an order is placed.
#[derive(Debug, Clone, Copy)]
pub struct OrderPlaced {
    pub order: Pubkey,
    pub owner: Pubkey,
    pub market: Pubkey,
    pub side: OrderSide,
    pub amount_in: u64,
    pub min_amount_out: u64,
}

/// Emitted when an order is cancelled.
#[derive(Debug, Clone, Copy)]
pub struct OrderCancelled {
    pub order: Pubkey,
    pub owner: Pubkey,
    pub remaining: u64,
}

/// Emitted when every fill of a batch has been settled.
#[derive(Debug, Clone)]
pub struct BatchSettled {
    /// Number of fills, modulo 256.
    pub fills_count: u8,
    /// The authorization the batch came with; not interpreted here.
    pub arcium_signature: Vec<u8>,
}

/// Why the ledger refuses an action.
#[derive(Debug, Clone, Copy, PartialEq, Eq, Structural)]
pub enum DarkpoolError {
    /// The signer is not the one the action is reserved to.
    Unauthorized,
    /// The order is not open.
    OrderNotOpen,
    /// An order, or a handle that a fill needs, is missing.
    OrderNotFound,
    /// More would be matched than the order committed.
    InsufficientRemaining,
    /// The order, or the market handle, belongs to another market.
    MismatchedMarket,
    /// The order is cancelled.
    OrderCancelled,
    /// A vault is not a token account, or the token program is another.
    InvalidTokenAccount,
    /// A token account holds another asset than the market trades.
    InvalidMint,
    /// A quantity does not fit the integer type.
    MathOverflow,
    /// The order has nothing left to return.
    NothingToCancel,
    /// A fill between two orders on the same side.
    SameSideOrders,
}

/// One of the two assets of a market.
#[derive(Debug, Clone, Copy, PartialEq, Eq, Structural)]
pub enum Asset {
    /// The asset that asks deliver.
    Base,
    /// The asset that bids pay.
    Quote,
}

/// A movement between an owner and the market's escrow of one asset.
#[derive(Debug, Clone, Copy)]
pub struct EscrowTransfer {
    pub asset: Asset,
    pub amount: u64,
}

/// A payment out of escrow to a token account.
#[derive(Debug, Clone, Copy)]
pub struct Payout {
    pub asset: Asset,
    pub recipient: Pubkey,
    pub amount: u64,
}

/// The asset an order commits: a bid pays quote, an ask delivers base.
pub open spec fn committed_asset(side: OrderSide) -> Asset {
    match side {
        OrderSide::Bid => Asset::Quote,
        OrderSide::Ask => Asset::Base,
    }
}

/// Whether two addresses are the same.
pub fn same_key(a: &Pubkey, b: &Pubkey) -> (same: bool)
    ensures
        same == (*a == *b),
{
    let mut i: usize = 0;
    while i < 32
        invariant
            i <= 32,
            forall|k: int| 0 <= k < i ==> a[k] == b[k],
        decreases 32 - i,
    {
        if a[i] != b[i] {
            return false;
        }
        i += 1;
    }
    assert(*a =~= *b);
    true
}

/// The venue's configuration with its first admin.
pub fn initialize_config(admin: Pubkey, bump: u8) -> (config: Config)
    ensures
        config.admin == admin,
        config.bump == bump,
{
    Config { admin, bump }
}

/// A market for a pair of assets and its two vaults.
pub fn create_market(
    base_mint: Pubkey,
    quote_mint: Pubkey,
    base_vault: Pubkey,
    quote_vault: Pubkey,
    bump: u8,
) -> (market: Market)
    ensures
        market.base_mint == base_mint,
        market.quote_mint == quote_mint,
        market.base_vault == base_vault,
        market.quote_vault == quote_vault,
        market.bump == bump,
{
    Market { base_mint, quote_mint, base_vault, quote_vault, bump }
}

/// What placing an order produces: the new record, the deposit to take into
/// escrow, and the event to emit.
#[derive(Debug, Clone, Copy)]
pub struct Placement {
    pub order: Order,
    pub deposit: EscrowTransfer,
    pub event: OrderPlaced,
}

/// Places an order: the record starts open with nothing filled, and the whole
/// committed quantity is owed to escrow in the asset that the side commits.
pub fn place_order(
    order_key: Pubkey,
    owner: Pubkey,
    market: Pubkey,
    side: OrderSide,
    amount_in: u64,
    min_amount_out: u64,
    nonce: u64,
    created_at: i64,
    bump: u8,
) -> (placement: Placement)
    ensures
        placement.order == (Order {
            owner,
            market,
            side,
            amount_in,
            filled_amount_in: 0,
            min_amount_out,
            status: OrderStatus::Open,
            created_at,
            bump,
            nonce,
        }),
        placement.order.sound(),
        placement.deposit == (EscrowTransfer { asset: committed_asset(side), amount: amount_in }),
        placement.event == (OrderPlaced {
            order: order_key,
            owner,
            market,
            side,
            amount_in,
            min_amount_out,
        }),
{
    let order = Order {
        owner,
        market,
        side,
        amount_in,
        filled_amount_in: 0,
        min_amount_out,
        status: OrderStatus::Open,
        created_at,
        bump,
        nonce,
    };
    let asset = match side {
        OrderSide::Bid => Asset::Quote,
        OrderSide::Ask => Asset::Base,
    };
    Placement {
        order,
        deposit: EscrowTransfer { asset, amount: amount_in },
        event: OrderPlaced { order: order_key, owner, market, side, amount_in, min_amount_out },
    }
}

/// Why an order cannot be cancelled, if it cannot: it is not open, or more
/// is recorded as matched than was committed, or nothing is left to return.
pub open spec fn cancel_refusal(order: Order) -> Option<DarkpoolError> {
    if order.status != OrderStatus::Open {
        Some(DarkpoolError::OrderNotOpen)
    } else if order.remaining() < 0 {
        Some(DarkpoolError::MathOverflow)
    } else if order.remaining() == 0 {
        Some(DarkpoolError::NothingToCancel)
    } else {
        None
    }
}

/// What cancelling an order produces: the refund owed out of escrow and the
/// event to emit.
#[derive(Debug, Clone, Copy)]
pub struct Cancellation {
    pub refund: EscrowTransfer,
    pub event: OrderCancelled,
}

/// Cancels an open order: the record becomes cancelled, and what it has not
/// used is owed back to its owner in the asset it committed. A refused
/// cancellation leaves the record as it was.
pub fn cancel_order(order_key: Pubkey, order: &mut Order) -> (outcome: Result<
    Cancellation,
    DarkpoolError,
>)
    ensures
        match cancel_refusal(*old(order)) {
            Some(error) => outcome == Err::<Cancellation, DarkpoolError>(error) && *final(order)
                == *old(order),
            None => {
                &&& outcome matches Ok(cancellation)
                &&& cancellation.refund == (EscrowTransfer {
                    asset: committed_asset(old(order).side),
                    amount: old(order).remaining() as u64,
                })
                &&& cancellation.event == (OrderCancelled {
                    order: order_key,
                    owner: old(order).owner,
                    remaining: old(order).remaining() as u64,
                })
                &&& *final(order) == (Order { status: OrderStatus::Cancelled, ..*old(order) })
            },
        },
{
    if order.status != OrderStatus::Open {
        return Err(DarkpoolError::OrderNotOpen);
    }
    let remaining = match order.amount_in.checked_sub(order.filled_amount_in) {
        Some(quantity) => quantity,
        None => {
            return Err(DarkpoolError::MathOverflow);
        },
    };
    if remaining == 0 {
        return Err(DarkpoolError::NothingToCancel);
    }
    let asset = match order.side {
        OrderSide::Bid => Asset::Quote,
        OrderSide::Ask => Asset::Base,
    };
    let event = OrderCancelled { order: order_key, owner: order.owner, remaining };
    order.status = OrderStatus::Cancelled;
    Ok(Cancellation { refund: EscrowTransfer { asset, amount: remaining }, event })
}

} // verus!
