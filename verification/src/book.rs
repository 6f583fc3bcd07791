//! The book view: what the matching engine sees of a market's orders.
//!
//! Only open orders are eligible. Each side is queued by arrival time, orders
//! that arrived at the same instant keeping the order of the snapshot. Every
//! eligible order starts with the capacity it has not yet used.
use vstd::prelude::*;
use vstd::seq_lib::to_multiset_build;
use vstd::seq_lib::to_multiset_contains;
use crate::order::OrderSide;

verus! {

/// What the matching engine reads of one order.
pub struct BookEntry {
    /// Stable identifier; the capacity lookup is keyed by it.
    pub index: u32,
    /// The side of the book the order rests on.
    pub side: OrderSide,
    /// Whether the order is eligible for matching.
    pub open: bool,
    /// Committed quantity that has not been matched yet.
    pub capacity: u64,
    /// Smallest counter-quantity the order accepts.
    pub min_amount_out: u64,
    /// Arrival timestamp.
    pub created_at: i64,
}

/// Committed quantity less matched quantity, floored at zero.
pub open spec fn unused_quantity(amount_in: u64, filled_amount_in: u64) -> u64 {
    if amount_in >= filled_amount_in {
        (amount_in - filled_amount_in) as u64
    } else {
        0
    }
}

/// The eligibility gate.
pub open spec fn is_open() -> spec_fn(BookEntry) -> bool {
    |e: BookEntry| e.open
}

/// Membership of one side of the book.
pub open spec fn on_side(side: OrderSide) -> spec_fn(BookEntry) -> bool {
    |e: BookEntry| e.side == side
}

/// The eligible entries of a snapshot, in snapshot order.
pub open spec fn open_entries(entries: Seq<BookEntry>) -> Seq<BookEntry> {
    entries.filter(is_open())
}

/// The entries on one side, in the order given.
pub open spec fn side_entries(entries: Seq<BookEntry>, side: OrderSide) -> Seq<BookEntry> {
    entries.filter(on_side(side))
}

/// `queue` with `entry` put in from the back: behind the hindmost entry that
/// arrived no later. In a queue that is in order of arrival, that is behind
/// every entry that arrived no later and ahead of every entry that arrived
/// later.
pub open spec fn enqueue(queue: Seq<BookEntry>, entry: BookEntry) -> Seq<BookEntry>
    decreases queue.len(),
{
    if queue.len() == 0 || queue.last().created_at <= entry.created_at {
        queue.push(entry)
    } else {
        enqueue(queue.drop_last(), entry).push(queue.last())
    }
}

/// The entries by arrival time, earliest first; entries with the same
/// timestamp stay in the order in which `entries` lists them.
pub open spec fn fifo_order(entries: Seq<BookEntry>) -> Seq<BookEntry>
    decreases entries.len(),
{
    if entries.len() == 0 {
        entries
    } else {
        enqueue(fifo_order(entries.drop_last()), entries.last())
    }
}

/// The queue of eligible bids.
pub open spec fn bid_queue(entries: Seq<BookEntry>) -> Seq<BookEntry> {
    fifo_order(side_entries(open_entries(entries), OrderSide::Bid))
}

/// The queue of eligible asks.
pub open spec fn ask_queue(entries: Seq<BookEntry>) -> Seq<BookEntry> {
    fifo_order(side_entries(open_entries(entries), OrderSide::Ask))
}

/// The capacity lookup after recording the entries in order: each index maps
/// to the capacity of the last entry that carries it.
pub open spec fn recorded_capacity(entries: Seq<BookEntry>) -> Map<u32, u64>
    decreases entries.len(),
{
    if entries.len() == 0 {
        Map::empty()
    } else {
        recorded_capacity(entries.drop_last()).insert(entries.last().index, entries.last().capacity)
    }
}

/// The capacity lookup a matching pass starts from.
pub open spec fn initial_capacity(entries: Seq<BookEntry>) -> Map<u32, u64> {
    recorded_capacity(open_entries(entries))
}

/// Remaining capacity recorded for `index`; zero where nothing is recorded.
pub open spec fn capacity_at(capacity: Map<u32, u64>, index: u32) -> u64 {
    if capacity.contains_key(index) {
        capacity[index]
    } else {
        0
    }
}

/// Where `enqueue` puts an entry: behind `left`, whose last entry arrived no
/// later, and ahead of `right`, all of which arrived later.
pub proof fn lemma_enqueue_between(left: Seq<BookEntry>, right: Seq<BookEntry>, entry: BookEntry)
    requires
        left.len() == 0 || left.last().created_at <= entry.created_at,
        forall|k: int| 0 <= k < right.len() ==> right[k].created_at > entry.created_at,
    ensures
        enqueue(left + right, entry) == left.push(entry) + right,
    decreases right.len(),
{
    let queue = left + right;
    if right.len() == 0 {
        assert(queue =~= left);
        assert(left.push(entry) + right =~= left.push(entry));
    } else {
        assert(queue.last() == right.last());
        assert(queue.drop_last() =~= left + right.drop_last());
        lemma_enqueue_between(left, right.drop_last(), entry);
        assert((left.push(entry) + right.drop_last()).push(right.last()) =~= left.push(entry)
            + right);
    }
}

/// Queueing an entry adds that entry and nothing else.
pub proof fn lemma_enqueue_adds_the_entry(queue: Seq<BookEntry>, entry: BookEntry)
    ensures
        enqueue(queue, entry).len() == queue.len() + 1,
        enqueue(queue, entry).to_multiset() == queue.to_multiset().insert(entry),
    decreases queue.len(),
{
    if queue.len() == 0 || queue.last().created_at <= entry.created_at {
        to_multiset_build(queue, entry);
    } else {
        let front = queue.drop_last();
        lemma_enqueue_adds_the_entry(front, entry);
        to_multiset_build(enqueue(front, entry), queue.last());
        to_multiset_build(front, queue.last());
        assert(front.push(queue.last()) =~= queue);
        assert(front.to_multiset().insert(entry).insert(queue.last())
            =~= front.to_multiset().insert(queue.last()).insert(entry));
    }
}

/// Queueing an entry into a queue that is in order of arrival leaves it in
/// order of arrival.
pub proof fn lemma_enqueue_keeps_order(queue: Seq<BookEntry>, entry: BookEntry)
    requires
        forall|a: int, b: int|
            0 <= a < b < queue.len() ==> queue[a].created_at <= queue[b].created_at,
    ensures
        forall|a: int, b: int|
            0 <= a < b < enqueue(queue, entry).len() ==> enqueue(queue, entry)[a].created_at
                <= enqueue(queue, entry)[b].created_at,
    decreases queue.len(),
{
    if queue.len() == 0 || queue.last().created_at <= entry.created_at {
    } else {
        let front = queue.drop_last();
        let shorter = enqueue(front, entry);
        lemma_enqueue_keeps_order(front, entry);
        lemma_enqueue_adds_the_entry(front, entry);
        // The last of the shorter queue is the entry or the last of `front`;
        // either way it arrived no later than the last of `queue`.
        assert(shorter.last().created_at <= queue.last().created_at) by {
            if front.len() > 0 && front.last().created_at > entry.created_at {
                assert(shorter.last() == front.last());
                assert(front.last() == queue[queue.len() - 2]);
            } else {
                assert(shorter.last() == entry);
            }
        }
        assert forall|a: int| 0 <= a < shorter.len() implies shorter[a].created_at
            <= queue.last().created_at by {
            if a < shorter.len() - 1 {
                assert(shorter[a].created_at <= shorter[shorter.len() - 1].created_at);
            }
        }
    }
}

/// FIFO order holds the entries it was given, each as often as it was given.
pub proof fn lemma_fifo_order_holds_the_entries(entries: Seq<BookEntry>)
    ensures
        fifo_order(entries).len() == entries.len(),
        fifo_order(entries).to_multiset() == entries.to_multiset(),
        forall|e: BookEntry| fifo_order(entries).contains(e) <==> entries.contains(e),
    decreases entries.len(),
{
    if entries.len() > 0 {
        let front = entries.drop_last();
        lemma_fifo_order_holds_the_entries(front);
        lemma_enqueue_adds_the_entry(fifo_order(front), entries.last());
        to_multiset_build(front, entries.last());
        assert(front.push(entries.last()) =~= entries);
    }
    assert forall|e: BookEntry| fifo_order(entries).contains(e) <==> entries.contains(e) by {
        to_multiset_contains(fifo_order(entries), e);
        to_multiset_contains(entries, e);
    }
}

/// FIFO order is in order of arrival: no entry stands ahead of one that
/// arrived earlier.
pub proof fn lemma_fifo_order_is_by_arrival(entries: Seq<BookEntry>)
    ensures
        forall|a: int, b: int|
            0 <= a < b < fifo_order(entries).len() ==> fifo_order(entries)[a].created_at
                <= fifo_order(entries)[b].created_at,
    decreases entries.len(),
{
    if entries.len() > 0 {
        lemma_fifo_order_is_by_arrival(entries.drop_last());
        lemma_enqueue_keeps_order(fifo_order(entries.drop_last()), entries.last());
    }
}

/// Whether the entry at snapshot position `a` has priority over the one at
/// position `b`: it arrived earlier, or at the same instant and stands first.
pub open spec fn has_priority(entries: Seq<BookEntry>, a: int, b: int) -> bool {
    entries[a].created_at < entries[b].created_at || (entries[a].created_at
        == entries[b].created_at && a < b)
}

/// `positions` lists every position of `entries` exactly once, by priority.
/// `inverse` says where in `positions` each position of `entries` stands.
pub open spec fn is_fifo_arrangement(
    entries: Seq<BookEntry>,
    positions: Seq<int>,
    inverse: Seq<int>,
) -> bool {
    &&& positions.len() == entries.len()
    &&& inverse.len() == entries.len()
    &&& forall|k: int| 0 <= k < positions.len() ==> 0 <= #[trigger] positions[k] < entries.len()
    &&& forall|v: int|
        0 <= v < inverse.len() ==> 0 <= #[trigger] inverse[v] < positions.len()
            && positions[inverse[v]] == v
    &&& forall|a: int, b: int|
        0 <= a < b < positions.len() ==> has_priority(
            entries,
            #[trigger] positions[a],
            #[trigger] positions[b],
        )
}

/// The entries read in the order of `positions`.
pub open spec fn arranged(entries: Seq<BookEntry>, positions: Seq<int>) -> Seq<BookEntry> {
    Seq::new(positions.len(), |k: int| entries[positions[k]])
}

/// FIFO order is the one arrangement by priority: however the entries were
/// sorted, if the result lists each of them once, earlier arrivals first and
/// ties in snapshot order, it is `fifo_order`.
pub proof fn lemma_fifo_order_is_the_arrangement(
    entries: Seq<BookEntry>,
    positions: Seq<int>,
    inverse: Seq<int>,
)
    requires
        is_fifo_arrangement(entries, positions, inverse),
    ensures
        arranged(entries, positions) == fifo_order(entries),
    decreases entries.len(),
{
    let n = entries.len() as int;
    let out = arranged(entries, positions);
    if n == 0 {
        assert(out =~= entries);
    } else {
        let last = n - 1;
        let j = inverse[last];
        let fewer = entries.drop_last();
        let fewer_positions = positions.remove(j);
        let fewer_inverse = Seq::new(
            (n - 1) as nat,
            |v: int|
                if inverse[v] < j {
                    inverse[v]
                } else {
                    inverse[v] - 1
                },
        );
        assert forall|k: int| 0 <= k < n && k != j implies positions[k] != last by {
            if k < j {
                assert(has_priority(entries, positions[k], positions[j]));
            } else {
                assert(has_priority(entries, positions[j], positions[k]));
            }
        }
        assert forall|v: int| 0 <= v < n - 1 implies inverse[v] != j by {
            assert(positions[inverse[v]] == v);
        }
        assert forall|a: int, b: int| 0 <= a < b < fewer_positions.len() implies has_priority(
            fewer,
            #[trigger] fewer_positions[a],
            #[trigger] fewer_positions[b],
        ) by {
            let a0 = if a < j {
                a
            } else {
                a + 1
            };
            let b0 = if b < j {
                b
            } else {
                b + 1
            };
            assert(has_priority(entries, positions[a0], positions[b0]));
        }
        assert(is_fifo_arrangement(fewer, fewer_positions, fewer_inverse));
        lemma_fifo_order_is_the_arrangement(fewer, fewer_positions, fewer_inverse);
        let fewer_out = arranged(fewer, fewer_positions);
        let left = out.take(j);
        let right = out.skip(j + 1);
        assert(fewer_out =~= left + right);
        assert(left.len() == 0 || left.last().created_at <= entries[last].created_at) by {
            if j > 0 {
                assert(has_priority(entries, positions[j - 1], positions[j]));
            }
        }
        assert forall|k: int| 0 <= k < right.len() implies right[k].created_at
            > entries[last].created_at by {
            assert(has_priority(entries, positions[j], positions[j + 1 + k]));
        }
        lemma_enqueue_between(left, right, entries[last]);
        assert(out =~= left.push(entries[last]) + right);
    }
}

/// An empty snapshot has no eligible entries, and an empty list no side.
pub proof fn lemma_filter_nothing(pred: spec_fn(BookEntry) -> bool)
    ensures
        Seq::<BookEntry>::empty().filter(pred) == Seq::<BookEntry>::empty(),
{
    reveal(Seq::filter);
}

} // verus!
