//! The experience stream: a bounded ring of events that many producers and
//! consumers share through `&self`.
//!
//! Every write takes a ticket from a counter and stores the event, with its
//! ticket, in the slot `ticket % capacity`; each slot sits behind its own
//! reader-writer lock, so a writer and a sampler meet for the length of one
//! slot update at most. A sample reads the counter, copies the slots of the
//! last `window_size` tickets and keeps those that hold exactly the ticket
//! it expects there. A slot that a writer has reserved but not yet filled,
//! or that a later write has already reused, is passed over; a torn event
//! is never seen. A writer that is held up for a whole turn of the ring
//! stores its event over a newer one; that slot is passed over until the
//! next write reaches it.
//!
//! What the shared cells hold at any moment depends on the other threads.
//! Verus is told nothing about it: the functions that read them promise
//! only what holds of every outcome, and [`sample_from`] states what a
//! sample is for each snapshot that may come back.

use vstd::prelude::*;
use std::sync::atomic::AtomicU64;
use std::sync::atomic::Ordering;
use crate::experience::ExperienceEvent;
use crate::experience::StreamError;
use crate::hot_buffer::keep_last;
use crate::sampling::at_most;
use crate::sampling::pick_batch;
use crate::sampling::picked;
use crate::sampling::SamplingStrategy;
use crate::sampling::GOLDEN_GAMMA;

verus! {

/// The reader-writer lock of `lock_api`, which `parking_lot::RwLock` is an
/// alias of. It is opaque: nothing is known of what a lock holds.
#[verifier::external_type_specification]
#[verifier::external_body]
#[verifier::reject_recursive_types(R)]
#[verifier::reject_recursive_types(T)]
pub struct ExRwLock<R, T: ?Sized>(parking_lot::lock_api::RwLock<R, T>);

/// The raw lock of `parking_lot` that stands behind `parking_lot::RwLock`.
/// It is opaque.
#[verifier::external_type_specification]
#[verifier::external_body]
pub struct ExRawRwLock(parking_lot::RawRwLock);

/// What one position of the ring holds.
#[derive(Clone, Copy, Debug)]
pub struct Slot {
    /// The ticket of the write that filled the slot.
    pub ticket: u64,
    /// Whether the slot was ever written.
    pub filled: bool,
    pub event: ExperienceEvent,
}

/// A fresh lock around `slot`, made by `parking_lot::RwLock::new`. The lock
/// is opaque, so nothing is claimed of it.
#[verifier::external_body]
fn slot_new(slot: Slot) -> (cell: parking_lot::RwLock<Slot>) {
    parking_lot::RwLock::new(slot)
}

/// Takes the write lock with `parking_lot::RwLock::write` and replaces what
/// the cell holds. The cell is shared, so nothing is claimed of what it
/// holds afterwards. The guard is dropped before the function returns: no
/// lock is held between two calls, so a thread never waits for itself.
#[verifier::external_body]
fn slot_store(cell: &parking_lot::RwLock<Slot>, slot: Slot) {
    *cell.write() = slot;
}

/// Takes the read lock with `parking_lot::RwLock::read` and copies what the
/// cell holds at that moment. Another thread may have stored anything, so
/// nothing is claimed of the copy. The guard is dropped before the function
/// returns.
#[verifier::external_body]
fn slot_load(cell: &parking_lot::RwLock<Slot>) -> (slot: Slot) {
    *cell.read()
}

/// The slot in which a ticket's event is stored.
pub open spec fn slot_of_ticket(ticket: u64, capacity: nat) -> nat {
    (ticket as nat) % capacity
}

pub fn slot_index(ticket: u64, capacity: usize) -> (at: usize)
    requires
        capacity > 0,
    ensures
        at == slot_of_ticket(ticket, capacity as nat),
        at < capacity,
{
    (ticket % (capacity as u64)) as usize
}

/// The number of tickets a sample looks back over: the window, cut down to
/// the capacity and to the number of tickets issued.
pub open spec fn span_of(issued: u64, capacity: nat, window_size: nat) -> nat {
    at_most(at_most(window_size, capacity), issued as nat)
}

pub fn window_span(issued: u64, capacity: usize, window_size: usize) -> (span: usize)
    ensures
        span == span_of(issued, capacity as nat, window_size as nat),
        span <= issued,
        span <= capacity,
        span <= window_size,
{
    let limit = if window_size <= capacity {
        window_size
    } else {
        capacity
    };
    if (limit as u64) <= issued {
        limit
    } else {
        issued as usize
    }
}

/// The events of a snapshot that are settled. `snapshot[k]` is the copy of
/// the slot where ticket `first + k` belongs; it counts if it is filled and
/// carries that very ticket. The result is in ticket order, oldest first.
pub open spec fn settled_events(snapshot: Seq<Slot>, first: u64) -> Seq<ExperienceEvent>
    decreases snapshot.len(),
{
    if snapshot.len() == 0 {
        Seq::empty()
    } else {
        let rest = settled_events(snapshot.drop_last(), first);
        let last = snapshot.last();
        if last.filled && last.ticket == first + snapshot.len() - 1 {
            rest.push(last.event)
        } else {
            rest
        }
    }
}

pub proof fn lemma_settled_len(snapshot: Seq<Slot>, first: u64)
    ensures
        settled_events(snapshot, first).len() <= snapshot.len(),
    decreases snapshot.len(),
{
    if snapshot.len() > 0 {
        lemma_settled_len(snapshot.drop_last(), first);
    }
}

/// What the slots hold once `writes` have been stored in turn, the first
/// under ticket 0, with no other thread at work: each write replaces the
/// slot of its ticket.
pub open spec fn slots_after(initial: Seq<Slot>, writes: Seq<ExperienceEvent>) -> Seq<Slot>
    decreases writes.len(),
{
    if writes.len() == 0 || initial.len() == 0 {
        initial
    } else {
        let ticket = (writes.len() - 1) as nat;
        slots_after(initial, writes.drop_last()).update(
            (ticket % initial.len()) as int,
            Slot { ticket: ticket as u64, filled: true, event: writes.last() },
        )
    }
}

/// The copies that a sample takes of `slots` when `issued` tickets have
/// been handed out.
pub open spec fn snapshot_of(slots: Seq<Slot>, issued: u64, window_size: nat) -> Seq<Slot> {
    let span = span_of(issued, slots.len(), window_size);
    Seq::new(span, |k: int| slots[(issued - span + k) % (slots.len() as int)])
}

proof fn lemma_slots_len(initial: Seq<Slot>, writes: Seq<ExperienceEvent>)
    ensures
        slots_after(initial, writes).len() == initial.len(),
    decreases writes.len(),
{
    if !(writes.len() == 0 || initial.len() == 0) {
        lemma_slots_len(initial, writes.drop_last());
    }
}

/// After a quiet run of writes, each of the last `capacity` tickets is
/// found in its slot with its event.
proof fn lemma_slot_holds_ticket(initial: Seq<Slot>, writes: Seq<ExperienceEvent>, ticket: int)
    requires
        writes.len() <= u64::MAX,
        0 <= ticket < writes.len(),
        writes.len() - ticket <= initial.len(),
    ensures
        slots_after(initial, writes)[ticket % (initial.len() as int)] == (Slot {
            ticket: ticket as u64,
            filled: true,
            event: writes[ticket],
        }),
    decreases writes.len(),
{
    let capacity = initial.len() as int;
    let last = writes.len() - 1;
    lemma_slots_len(initial, writes.drop_last());
    if ticket < last {
        lemma_slot_holds_ticket(initial, writes.drop_last(), ticket);
        assert(last % capacity != ticket % capacity) by {
            vstd::arithmetic::div_mod::lemma_mod_equivalence(last, ticket, capacity);
            vstd::arithmetic::div_mod::lemma_small_mod((last - ticket) as nat, capacity as nat);
        }
    }
}

/// A snapshot in which every slot holds the ticket expected there is
/// settled throughout.
proof fn lemma_all_settled(snapshot: Seq<Slot>, first: u64, events: Seq<ExperienceEvent>)
    requires
        snapshot.len() == events.len(),
        first + snapshot.len() <= u64::MAX,
        forall|k: int|
            0 <= k < snapshot.len() ==> #[trigger] snapshot[k] == (Slot {
                ticket: (first + k) as u64,
                filled: true,
                event: events[k],
            }),
    ensures
        settled_events(snapshot, first) == events,
    decreases snapshot.len(),
{
    if snapshot.len() > 0 {
        lemma_all_settled(snapshot.drop_last(), first, events.drop_last());
        let k = snapshot.len() - 1;
        assert(snapshot[k].filled && snapshot[k].ticket == first + k);
        assert(events.drop_last().push(events.last()) =~= events);
    } else {
        assert(events =~= Seq::empty());
    }
}

/// While no two operations overlap, the stream is the hot buffer: after a
/// run of writes, the settled events of a sample's snapshot are exactly the
/// window of a ring of the same capacity, oldest first. So a sample never
/// shows an event that the ring has overwritten, and misses none of the
/// window.
pub proof fn lemma_quiet_stream_matches_ring(
    initial: Seq<Slot>,
    window_size: nat,
    writes: Seq<ExperienceEvent>,
)
    requires
        writes.len() <= u64::MAX,
    ensures
        ({
            let issued = writes.len() as u64;
            let span = span_of(issued, initial.len(), window_size);
            settled_events(
                snapshot_of(slots_after(initial, writes), issued, window_size),
                (issued - span) as u64,
            ) == keep_last(keep_last(writes, initial.len()), window_size)
        }),
{
    let issued = writes.len() as u64;
    let capacity = initial.len();
    let span = span_of(issued, capacity, window_size);
    let first = (issued - span) as u64;
    let slots = slots_after(initial, writes);
    let snapshot = snapshot_of(slots, issued, window_size);
    let window = keep_last(keep_last(writes, capacity), window_size);
    lemma_slots_len(initial, writes);
    assert(window =~= Seq::new(span, |k: int| writes[first + k]));
    assert forall|k: int| 0 <= k < snapshot.len() implies #[trigger] snapshot[k] == (Slot {
        ticket: (first + k) as u64,
        filled: true,
        event: window[k],
    }) by {
        lemma_slot_holds_ticket(initial, writes, first + k);
    }
    lemma_all_settled(snapshot, first, window);
}

/// Sifts the settled events out of a snapshot.
pub fn settled(snapshot: &Vec<Slot>, first: u64) -> (events: Vec<ExperienceEvent>)
    ensures
        events@ == settled_events(snapshot@, first),
        events@.len() <= snapshot@.len(),
{
    let mut events: Vec<ExperienceEvent> = Vec::new();
    let mut k: usize = 0;
    while k < snapshot.len()
        invariant
            k <= snapshot@.len(),
            events@ == settled_events(snapshot@.take(k as int), first),
        decreases snapshot@.len() - k,
    {
        let slot = snapshot[k];
        let expected = first.checked_add(k as u64);
        proof {
            assert(snapshot@.take(k + 1).drop_last() =~= snapshot@.take(k as int));
        }
        if slot.filled && expected == Some(slot.ticket) {
            events.push(slot.event);
        }
        k = k + 1;
    }
    proof {
        assert(snapshot@.take(snapshot@.len() as int) =~= snapshot@);
        lemma_settled_len(snapshot@, first);
    }
    events
}

/// The batch for a snapshot: drawn from its settled events.
pub fn sample_from(
    snapshot: &Vec<Slot>,
    first: u64,
    batch_size: usize,
    strategy: SamplingStrategy,
    seed: u64,
) -> (batch: Vec<ExperienceEvent>)
    ensures
        batch@ == picked(settled_events(snapshot@, first), batch_size as nat, strategy, seed),
        batch@.len() == at_most(batch_size as nat, settled_events(snapshot@, first).len()),
        batch@.len() <= batch_size,
        batch@.len() <= snapshot@.len(),
{
    let candidates = settled(snapshot, first);
    pick_batch(&candidates, batch_size, strategy, seed)
}

pub struct ExperienceStream {
    slots: Vec<parking_lot::RwLock<Slot>>,
    window_size: usize,
    tickets: AtomicU64,
    rng: AtomicU64,
}

impl ExperienceStream {
    pub closed spec fn capacity_spec(&self) -> nat {
        self.slots@.len()
    }

    pub closed spec fn window_size_spec(&self) -> nat {
        self.window_size as nat
    }

    /// A stream with room for `capacity` events whose samples draw from the
    /// `window_size` most recent ones. A stream of capacity zero accepts
    /// events and retains none.
    pub fn new(capacity: usize, window_size: usize) -> (stream: ExperienceStream)
        ensures
            stream.capacity_spec() == capacity,
            stream.window_size_spec() == window_size,
    {
        let mut slots: Vec<parking_lot::RwLock<Slot>> = Vec::new();
        let mut i: usize = 0;
        while i < capacity
            invariant
                i <= capacity,
                slots@.len() == i,
            decreases capacity - i,
        {
            slots.push(slot_new(Slot { ticket: 0, filled: false, event: ExperienceEvent::new(0) }));
            i = i + 1;
        }
        ExperienceStream { slots, window_size, tickets: AtomicU64::new(0), rng: AtomicU64::new(0) }
    }

    pub fn capacity(&self) -> (c: usize)
        ensures
            c == self.capacity_spec(),
    {
        self.slots.len()
    }

    pub fn window_size(&self) -> (w: usize)
        ensures
            w == self.window_size_spec(),
    {
        self.window_size
    }

    /// Hands out the next ticket.
    fn take_ticket(&self) -> u64 {
        self.tickets.fetch_add(1, Ordering::Relaxed)
    }

    /// The number of tickets handed out so far, which is the number of
    /// events accepted. Other threads may raise it at any moment.
    pub fn total_written(&self) -> u64 {
        self.tickets.load(Ordering::Relaxed)
    }

    /// A seed that no other sample receives.
    fn take_seed(&self) -> u64 {
        self.rng.fetch_add(GOLDEN_GAMMA, Ordering::Relaxed)
    }

    /// Accepts a well-formed event and returns its ticket; the event takes
    /// the place of the one written `capacity` tickets earlier. A malformed
    /// event is refused with the verdict on its metadata, and no ticket is
    /// spent on it.
    pub fn write_event(&self, event: ExperienceEvent) -> (outcome: Result<u64, StreamError>)
        ensures
            outcome is Ok <==> event.is_well_formed(),
            outcome matches Err(e) ==> event.verdict() == Err::<(), StreamError>(e),
    {
        match event.validate() {
            Ok(()) => {
                let ticket = self.take_ticket();
                let capacity = self.slots.len();
                if capacity > 0 {
                    let at = slot_index(ticket, capacity);
                    slot_store(&self.slots[at], Slot { ticket, filled: true, event });
                }
                Ok(ticket)
            },
            Err(e) => Err(e),
        }
    }

    /// Copies the slots of the last tickets of the window, oldest first,
    /// and tells the ticket that belongs in the first of them.
    pub fn snapshot(&self) -> (taken: (Vec<Slot>, u64))
        ensures
            taken.0@.len() <= self.window_size_spec(),
            taken.0@.len() <= self.capacity_spec(),
            taken.0@.len() + taken.1 <= u64::MAX,
            // The count is the span for the counter value that was read,
            // which is the first ticket plus the count: a snapshot is short
            // of the window only while fewer tickets were handed out.
            taken.0@.len() == span_of(
                (taken.0@.len() + taken.1) as u64,
                self.capacity_spec(),
                self.window_size_spec(),
            ),
    {
        let issued = self.total_written();
        self.snapshot_at(issued)
    }

    /// Draws a batch of at most `batch_size` events from the settled events
    /// of the window. The batch is smaller where fewer are retained, and
    /// empty for an empty stream.
    pub fn sample_batch(&self, batch_size: usize, strategy: SamplingStrategy) -> (batch: Vec<
        ExperienceEvent,
    >)
        ensures
            batch@.len() <= batch_size,
            batch@.len() <= self.window_size_spec(),
            batch@.len() <= self.capacity_spec(),
    {
        let (copies, first) = self.snapshot();
        let seed = self.take_seed();
        sample_from(&copies, first, batch_size, strategy, seed)
    }

    /// Copies the slots that belong to the window when `issued` tickets
    /// have been handed out: those of the last `span_of(issued, ..)`
    /// tickets, oldest first. Tells the ticket that belongs in the first
    /// of them. What the copies hold is what the cells held when they were
    /// read.
    pub fn snapshot_at(&self, issued: u64) -> (taken: (Vec<Slot>, u64))
        ensures
            taken.0@.len() == span_of(issued, self.capacity_spec(), self.window_size_spec()),
            taken.1 == issued - taken.0@.len(),
    {
        let capacity = self.slots.len();
        let span = window_span(issued, capacity, self.window_size);
        let first = issued - span as u64;
        let mut copies: Vec<Slot> = Vec::new();
        let mut k: usize = 0;
        while k < span
            invariant
                k <= span <= capacity,
                capacity == self.slots@.len(),
                first + span <= u64::MAX,
                copies@.len() == k,
            decreases span - k,
        {
            let at = slot_index(first + k as u64, capacity);
            copies.push(slot_load(&self.slots[at]));
            k = k + 1;
        }
        (copies, first)
    }
}

} // verus!
