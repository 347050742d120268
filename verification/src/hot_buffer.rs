//! The hot buffer: a ring that retains the most recent events.
//!
//! The buffer has room for `capacity` events. A write into a full buffer
//! overwrites the oldest event; that is the expected steady state and no
//! error. Sampling draws from the window, the `window_size` most recent of
//! the retained events, so its cost is bounded by the window and not by
//! the number of events ever written.

use vstd::prelude::*;
use crate::experience::ExperienceEvent;
use crate::experience::StreamError;
use crate::sampling::advance;
use crate::sampling::advanced;
use crate::sampling::pick_batch;
use crate::sampling::picked;
use crate::sampling::at_most;
use crate::sampling::lemma_picked_from_candidates;
use crate::sampling::picked_positions;
use crate::sampling::distinct_below;
use crate::sampling::SamplingStrategy;

verus! {

/// The last `n` entries of `s`, or all of `s` if it has fewer.
pub open spec fn keep_last<T>(s: Seq<T>, n: nat) -> Seq<T> {
    if s.len() <= n {
        s
    } else {
        s.subrange(s.len() - n, s.len() as int)
    }
}

/// What a ring of the given capacity retains after `writes`, oldest first.
pub open spec fn retained_after(capacity: nat, writes: Seq<ExperienceEvent>) -> Seq<
    ExperienceEvent,
>
    decreases writes.len(),
{
    if writes.len() == 0 {
        Seq::empty()
    } else {
        keep_last(retained_after(capacity, writes.drop_last()).push(writes.last()), capacity)
    }
}

pub struct HotBuffer {
    slots: Vec<ExperienceEvent>,
    capacity: usize,
    window_size: usize,
    /// Where the oldest event stands once the ring is full.
    oldest: usize,
    written: u64,
    rng: u64,
    /// Every event accepted so far, oldest first.
    history: Ghost<Seq<ExperienceEvent>>,
}

impl HotBuffer {
    pub closed spec fn wf(&self) -> bool {
        &&& self.slots@.len() <= self.capacity
        &&& self.oldest <= self.slots@.len()
        &&& self.slots@.len() < self.capacity ==> self.oldest == 0
        &&& self.slots@.len() == self.capacity && self.capacity > 0 ==> self.oldest
            < self.capacity
        &&& self.retained() == keep_last(self.history@, self.capacity as nat)
    }

    /// Every event accepted since the buffer was made, oldest first.
    pub closed spec fn history(&self) -> Seq<ExperienceEvent> {
        self.history@
    }

    /// The buffer retains exactly the most recent of the events it ever
    /// accepted, as many as it has room for: after `capacity + k` writes
    /// the first `k` are gone and the last `capacity` are all there.
    pub proof fn lemma_retains_latest(&self)
        requires
            self.wf(),
        ensures
            self.retained() == keep_last(self.history(), self.capacity_spec()),
            self.retained().len() == at_most(self.capacity_spec(), self.history().len()),
            forall|i: int|
                0 <= i < self.retained().len() ==> #[trigger] self.retained()[i]
                    == self.history()[self.history().len() - self.retained().len() + i],
    {
    }

    pub closed spec fn capacity_spec(&self) -> nat {
        self.capacity as nat
    }

    pub closed spec fn window_size_spec(&self) -> nat {
        self.window_size as nat
    }

    /// The retained events, oldest first.
    pub closed spec fn retained(&self) -> Seq<ExperienceEvent> {
        self.slots@.subrange(self.oldest as int, self.slots@.len() as int) + self.slots@.subrange(
            0,
            self.oldest as int,
        )
    }

    /// The events that sampling draws from: the most recent of the retained
    /// ones, oldest first.
    pub open spec fn window(&self) -> Seq<ExperienceEvent> {
        keep_last(self.retained(), self.window_size_spec())
    }

    /// The number of events accepted so far, saturating.
    pub closed spec fn written_spec(&self) -> nat {
        self.written as nat
    }

    /// The state of the generator that drives uniform sampling.
    pub closed spec fn rng_state(&self) -> u64 {
        self.rng
    }

    /// An empty buffer. A buffer of capacity zero retains nothing.
    pub fn new(capacity: usize, window_size: usize) -> (b: HotBuffer)
        ensures
            b.wf(),
            b.capacity_spec() == capacity,
            b.window_size_spec() == window_size,
            b.retained() == Seq::<ExperienceEvent>::empty(),
            b.history() == Seq::<ExperienceEvent>::empty(),
            b.written_spec() == 0,
            b.rng_state() == 0,
    {
        HotBuffer::with_seed(capacity, window_size, 0)
    }

    /// An empty buffer whose generator starts from `seed`.
    pub fn with_seed(capacity: usize, window_size: usize, seed: u64) -> (b: HotBuffer)
        ensures
            b.wf(),
            b.capacity_spec() == capacity,
            b.window_size_spec() == window_size,
            b.retained() == Seq::<ExperienceEvent>::empty(),
            b.history() == Seq::<ExperienceEvent>::empty(),
            b.written_spec() == 0,
            b.rng_state() == seed,
    {
        let b = HotBuffer {
            slots: Vec::new(),
            capacity,
            window_size,
            oldest: 0,
            written: 0,
            rng: seed,
            history: Ghost(Seq::empty()),
        };
        assert(b.retained() =~= Seq::<ExperienceEvent>::empty());
        b
    }

    pub fn capacity(&self) -> (c: usize)
        ensures
            c == self.capacity_spec(),
    {
        self.capacity
    }

    pub fn window_size(&self) -> (w: usize)
        ensures
            w == self.window_size_spec(),
    {
        self.window_size
    }

    /// The number of retained events.
    pub fn len(&self) -> (n: usize)
        requires
            self.wf(),
        ensures
            n == self.retained().len(),
            n <= self.capacity_spec(),
    {
        self.slots.len()
    }

    pub fn is_empty(&self) -> (empty: bool)
        requires
            self.wf(),
        ensures
            empty == (self.retained().len() == 0),
    {
        self.slots.len() == 0
    }

    /// The number of events accepted so far, saturating at `u64::MAX`.
    pub fn total_written(&self) -> (n: u64)
        ensures
            n == self.written_spec(),
    {
        self.written
    }

    /// Where the retained event at `position` (0 is the oldest) stands in
    /// the ring.
    fn slot_of(&self, position: usize) -> (at: usize)
        requires
            self.wf(),
            position < self.slots@.len(),
        ensures
            at < self.slots@.len(),
            self.slots@[at as int] == self.retained()[position as int],
    {
        let tail = self.slots.len() - self.oldest;
        if position < tail {
            self.oldest + position
        } else {
            position - tail
        }
    }

    /// The retained event at `position`, counted from the oldest.
    pub fn get(&self, position: usize) -> (found: Option<ExperienceEvent>)
        requires
            self.wf(),
        ensures
            position < self.retained().len() ==> found == Some(self.retained()[position as int]),
            position >= self.retained().len() ==> found.is_none(),
    {
        if position < self.slots.len() {
            let at = self.slot_of(position);
            Some(self.slots[at])
        } else {
            None
        }
    }

    /// Retains `event`, dropping the oldest event if the buffer is full.
    fn push(&mut self, event: ExperienceEvent)
        requires
            old(self).wf(),
        ensures
            final(self).wf(),
            final(self).retained() == keep_last(
                old(self).retained().push(event),
                old(self).capacity_spec(),
            ),
            final(self).capacity_spec() == old(self).capacity_spec(),
            final(self).window_size_spec() == old(self).window_size_spec(),
            final(self).rng_state() == old(self).rng_state(),
            final(self).written_spec() == old(self).written_spec(),
            final(self).history() == old(self).history().push(event),
    {
        proof {
            assert(keep_last(
                keep_last(self.history@, self.capacity as nat).push(event),
                self.capacity as nat,
            ) =~= keep_last(self.history@.push(event), self.capacity as nat));
        }
        self.history = Ghost(self.history@.push(event));
        if self.capacity == 0 {
            assert(self.retained() =~= keep_last(self.retained().push(event), 0));
        } else if self.slots.len() < self.capacity {
            self.slots.push(event);
            assert(self.retained() =~= old(self).retained().push(event));
        } else {
            let at = self.oldest;
            self.slots.set(at, event);
            self.oldest = if at + 1 == self.capacity {
                0
            } else {
                at + 1
            };
            assert(self.retained() =~= keep_last(
                old(self).retained().push(event),
                self.capacity as nat,
            ));
        }
    }

    /// Accepts a well-formed event and retains it; a full buffer gives up
    /// its oldest event. A malformed event is refused and changes nothing.
    pub fn write_event(&mut self, event: ExperienceEvent) -> (outcome: Result<(), StreamError>)
        requires
            old(self).wf(),
        ensures
            final(self).wf(),
            outcome == event.verdict(),
            final(self).capacity_spec() == old(self).capacity_spec(),
            final(self).window_size_spec() == old(self).window_size_spec(),
            final(self).rng_state() == old(self).rng_state(),
            outcome is Ok ==> final(self).retained() == keep_last(
                old(self).retained().push(event),
                old(self).capacity_spec(),
            ) && final(self).written_spec() == (if old(self).written_spec() < u64::MAX {
                old(self).written_spec() + 1
            } else {
                old(self).written_spec()
            }),
            outcome is Ok ==> final(self).history() == old(self).history().push(event),
            outcome is Err ==> final(self).retained() == old(self).retained(),
            outcome is Err ==> final(self).history() == old(self).history(),
            outcome is Err ==> final(self).written_spec() == old(self).written_spec(),
    {
        match event.validate() {
            Ok(()) => {
                self.push(event);
                self.written = self.written.saturating_add(1);
                Ok(())
            },
            Err(e) => Err(e),
        }
    }

    /// The window, oldest first.
    pub fn window_events(&self) -> (events: Vec<ExperienceEvent>)
        requires
            self.wf(),
        ensures
            events@ == self.window(),
            events@.len() == at_most(self.window_size_spec(), self.retained().len()),
    {
        let len = self.slots.len();
        let span = if self.window_size <= len {
            self.window_size
        } else {
            len
        };
        let first = len - span;
        let mut events: Vec<ExperienceEvent> = Vec::new();
        let mut i: usize = 0;
        while i < span
            invariant
                self.wf(),
                i <= span <= len,
                len == self.slots@.len(),
                first == len - span,
                events@.len() == i,
                forall|k: int| 0 <= k < i ==> events@[k] == self.retained()[first + k],
            decreases span - i,
        {
            let at = self.slot_of(first + i);
            events.push(self.slots[at]);
            i = i + 1;
        }
        assert(events@ =~= self.window());
        events
    }

    /// Draws a batch of at most `batch_size` events from the window and
    /// steps the generator.
    pub fn sample_batch(&mut self, batch_size: usize, strategy: SamplingStrategy) -> (batch: Vec<
        ExperienceEvent,
    >)
        requires
            old(self).wf(),
        ensures
            final(self).wf(),
            batch@ == picked(old(self).window(), batch_size as nat, strategy, old(self).rng_state()),
            batch@.len() == at_most(batch_size as nat, old(self).window().len()),
            batch@.len() <= batch_size,
            batch@.len() <= old(self).window_size_spec(),
            final(self).rng_state() == advanced(old(self).rng_state()),
            final(self).retained() == old(self).retained(),
            final(self).history() == old(self).history(),
            final(self).capacity_spec() == old(self).capacity_spec(),
            final(self).window_size_spec() == old(self).window_size_spec(),
            final(self).written_spec() == old(self).written_spec(),
    {
        let candidates = self.window_events();
        let seed = self.rng;
        self.rng = advance(self.rng);
        pick_batch(&candidates, batch_size, strategy, seed)
    }
}

/// A ring retains exactly the most recent writes, as many as it has room
/// for: every older write is gone and no recent one is missing.
pub proof fn lemma_ring_keeps_latest(capacity: nat, writes: Seq<ExperienceEvent>)
    ensures
        retained_after(capacity, writes) == keep_last(writes, capacity),
    decreases writes.len(),
{
    if writes.len() > 0 {
        lemma_ring_keeps_latest(capacity, writes.drop_last());
        assert(keep_last(keep_last(writes.drop_last(), capacity).push(writes.last()), capacity)
            =~= keep_last(writes, capacity));
    }
}

/// After `capacity + extra` writes into a ring, every event of a batch is
/// one of the last `capacity` writes: none is older than write number
/// `extra` (counting from zero), and none is drawn from two positions.
pub proof fn lemma_sample_is_recent(
    capacity: nat,
    window_size: nat,
    writes: Seq<ExperienceEvent>,
    extra: nat,
    want: nat,
    strategy: SamplingStrategy,
    seed: u64,
)
    requires
        writes.len() == capacity + extra,
        capacity <= usize::MAX,
    ensures
        ({
            let window = keep_last(retained_after(capacity, writes), window_size);
            let batch = picked(window, want, strategy, seed);
            let positions = picked_positions(window.len(), want, strategy, seed);
            let first = writes.len() - window.len();
            &&& window.len() == at_most(window_size, capacity)
            &&& batch.len() == at_most(want, window.len())
            &&& distinct_below(positions, window.len())
            &&& forall|i: int|
                0 <= i < batch.len() ==> extra <= first + positions[i] < writes.len()
                    && #[trigger] batch[i] == writes[first + positions[i]]
        }),
{
    lemma_ring_keeps_latest(capacity, writes);
    let window = keep_last(retained_after(capacity, writes), window_size);
    lemma_picked_from_candidates(window, want, strategy, seed);
}

} // verus!
