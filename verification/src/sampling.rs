//! Choosing a batch among candidate events.
//!
//! Uniform sampling is driven by a small deterministic generator, so that a
//! batch is a function of the candidates, the request and the seed. The
//! generator steps its state by a fixed odd constant and scrambles the
//! result; an index below a bound is the scrambled word reduced modulo the
//! bound.

use vstd::prelude::*;
use crate::experience::ExperienceEvent;

verus! {

/// The policy by which a batch is drawn from the candidates.
#[derive(Clone, Copy, Debug, PartialEq, Eq, Structural)]
pub enum SamplingStrategy {
    /// Candidates are drawn by the generator, each with about the same
    /// chance; none is drawn twice in one batch.
    Uniform,
    /// The newest candidates, newest first.
    Recent,
}

/// The step of the generator's state.
pub const GOLDEN_GAMMA: u64 = 0x9e37_79b9_7f4a_7c15;

/// The state that follows `state`.
pub open spec fn advanced(state: u64) -> u64 {
    state.wrapping_add(GOLDEN_GAMMA)
}

/// The output word for a state.
pub open spec fn mixed(z: u64) -> u64 {
    let a = (z ^ (z >> 30)).wrapping_mul(0xbf58_476d_1ce4_e5b9);
    let b = (a ^ (a >> 27)).wrapping_mul(0x94d0_49bb_1331_11eb);
    b ^ (b >> 31)
}

pub fn advance(state: u64) -> (next: u64)
    ensures
        next == advanced(state),
{
    state.wrapping_add(GOLDEN_GAMMA)
}

pub fn mix(z: u64) -> (word: u64)
    ensures
        word == mixed(z),
{
    let a: u64 = (z ^ (z >> 30)).wrapping_mul(0xbf58_476d_1ce4_e5b9);
    let b: u64 = (a ^ (a >> 27)).wrapping_mul(0x94d0_49bb_1331_11eb);
    b ^ (b >> 31)
}

/// The positions `0..len` in their natural order.
pub open spec fn identity(len: nat) -> Seq<usize> {
    Seq::new(len, |i: int| i as usize)
}

/// `order` with the entries at `i` and `j` exchanged.
pub open spec fn swapped(order: Seq<usize>, i: int, j: int) -> Seq<usize> {
    order.update(i, order[j]).update(j, order[i])
}

/// `order` after the shuffle has settled the positions `done..want`: each
/// position in turn receives an entry drawn from those not yet settled.
pub open spec fn shuffled(order: Seq<usize>, done: nat, want: nat, state: u64) -> Seq<usize>
    decreases want - done,
{
    if done >= want || done >= order.len() {
        order
    } else {
        let next = advanced(state);
        let j = done + (mixed(next) as nat) % ((order.len() - done) as nat);
        shuffled(swapped(order, done as int, j as int), done + 1, want, next)
    }
}

pub open spec fn at_most(want: nat, len: nat) -> nat {
    if want <= len {
        want
    } else {
        len
    }
}

/// The positions drawn when `want` of `len` candidates are asked for.
pub open spec fn chosen(len: nat, want: nat, seed: u64) -> Seq<usize> {
    shuffled(identity(len), 0, at_most(want, len), seed).take(at_most(want, len) as int)
}

/// Every entry is below `len` and none occurs twice.
pub open spec fn distinct_below(picks: Seq<usize>, len: nat) -> bool {
    &&& forall|i: int| 0 <= i < picks.len() ==> (#[trigger] picks[i]) < len
    &&& forall|i: int, j: int|
        0 <= i < j < picks.len() ==> (#[trigger] picks[i]) != (#[trigger] picks[j])
}

/// Whether `position` is among the entries.
pub open spec fn occurs(picks: Seq<usize>, position: int) -> bool {
    exists|i: int| 0 <= i < picks.len() && #[trigger] picks[i] == position
}

/// Every position below `len` is among the entries.
pub open spec fn covers(picks: Seq<usize>, len: nat) -> bool {
    forall|position: int| 0 <= position < len ==> #[trigger] occurs(picks, position)
}

/// The shuffle loses nothing: what occurs before occurs after.
pub proof fn lemma_shuffled_covers(order: Seq<usize>, done: nat, want: nat, state: u64)
    requires
        covers(order, order.len()),
    ensures
        covers(shuffled(order, done, want, state), order.len()),
    decreases want - done,
{
    if !(done >= want || done >= order.len()) {
        let next = advanced(state);
        let j = done + (mixed(next) as nat) % ((order.len() - done) as nat);
        let after = swapped(order, done as int, j as int);
        assert forall|position: int| 0 <= position < after.len() implies #[trigger] occurs(
            after,
            position,
        ) by {
            assert(occurs(order, position));
            let i = choose|i: int| 0 <= i < order.len() && #[trigger] order[i] == position;
            if i == done {
                assert(after[j as int] == position);
            } else if i == j {
                assert(after[done as int] == position);
            } else {
                assert(after[i] == position);
            }
        }
        lemma_shuffled_covers(after, done + 1, want, next);
    }
}

/// A draw of everything leaves nothing out: asked for at least as many
/// positions as there are, it yields each of them.
pub proof fn lemma_chosen_covers(len: nat, want: nat, seed: u64)
    requires
        len <= usize::MAX,
        want >= len,
    ensures
        covers(chosen(len, want, seed), len),
{
    let start = identity(len);
    assert forall|position: int| 0 <= position < len implies #[trigger] occurs(
        start,
        position,
    ) by {
        assert(start[position] == position);
    }
    lemma_shuffled_covers(start, 0, len, seed);
    lemma_shuffled_rearranges(start, 0, len, seed);
    assert(distinct_below(start, len));
    assert(shuffled(start, 0, len, seed).take(len as int) =~= shuffled(start, 0, len, seed));
}

/// The shuffle rearranges: it keeps the length, the range and the
/// distinctness of the entries.
pub proof fn lemma_shuffled_rearranges(order: Seq<usize>, done: nat, want: nat, state: u64)
    requires
        distinct_below(order, order.len()),
    ensures
        shuffled(order, done, want, state).len() == order.len(),
        distinct_below(shuffled(order, done, want, state), order.len()),
    decreases want - done,
{
    if !(done >= want || done >= order.len()) {
        let next = advanced(state);
        let j = done + (mixed(next) as nat) % ((order.len() - done) as nat);
        let after = swapped(order, done as int, j as int);
        assert(distinct_below(after, after.len()));
        lemma_shuffled_rearranges(after, done + 1, want, next);
    }
}

/// A draw yields as many positions as asked for, or all of them if fewer
/// exist; each is a valid position and none is drawn twice.
pub proof fn lemma_chosen_distinct(len: nat, want: nat, seed: u64)
    requires
        len <= usize::MAX,
    ensures
        chosen(len, want, seed).len() == at_most(want, len),
        distinct_below(chosen(len, want, seed), len),
{
    let start = identity(len);
    assert(distinct_below(start, len));
    lemma_shuffled_rearranges(start, 0, at_most(want, len), seed);
}

/// Draws `want` of the positions `0..len`, or all of them if there are
/// fewer, without drawing any twice.
pub fn choose_indices(len: usize, want: usize, seed: u64) -> (picks: Vec<usize>)
    ensures
        picks@ == chosen(len as nat, want as nat, seed),
        picks@.len() == at_most(want as nat, len as nat),
        distinct_below(picks@, len as nat),
{
    let take = if want <= len {
        want
    } else {
        len
    };
    let mut order: Vec<usize> = Vec::new();
    let mut i: usize = 0;
    while i < len
        invariant
            i <= len,
            order@.len() == i,
            forall|k: int| 0 <= k < i ==> order@[k] == k,
        decreases len - i,
    {
        order.push(i);
        i = i + 1;
    }
    assert(order@ =~= identity(len as nat));
    let mut state = seed;
    let mut done: usize = 0;
    while done < take
        invariant
            done <= take <= len,
            order@.len() == len,
            distinct_below(order@, len as nat),
            shuffled(order@, done as nat, take as nat, state) == shuffled(
                identity(len as nat),
                0,
                take as nat,
                seed,
            ),
        decreases take - done,
    {
        state = advance(state);
        let word = mix(state);
        let span = len - done;
        let j = done + (word % (span as u64)) as usize;
        let a = order[done];
        let b = order[j];
        let ghost before = order@;
        order.set(done, b);
        order.set(j, a);
        assert(order@ =~= swapped(before, done as int, j as int));
        done = done + 1;
    }
    proof {
        lemma_chosen_distinct(len as nat, want as nat, seed);
    }
    order.truncate(take);
    order
}

/// The batch drawn from `candidates`, oldest first, when `want` events are
/// asked for.
pub open spec fn picked(
    candidates: Seq<ExperienceEvent>,
    want: nat,
    strategy: SamplingStrategy,
    seed: u64,
) -> Seq<ExperienceEvent> {
    match strategy {
        SamplingStrategy::Uniform => Seq::new(
            at_most(want, candidates.len()),
            |i: int| candidates[chosen(candidates.len(), want, seed)[i] as int],
        ),
        SamplingStrategy::Recent => Seq::new(
            at_most(want, candidates.len()),
            |i: int| candidates[candidates.len() - 1 - i],
        ),
    }
}

/// The positions of the candidates that make up the batch.
pub open spec fn picked_positions(len: nat, want: nat, strategy: SamplingStrategy, seed: u64) -> Seq<
    usize,
> {
    match strategy {
        SamplingStrategy::Uniform => chosen(len, want, seed),
        SamplingStrategy::Recent => Seq::new(at_most(want, len), |i: int| (len - 1 - i) as usize),
    }
}

/// A batch holds at most `want` events and at most as many as there are
/// candidates, and its events stand at pairwise different positions among
/// the candidates.
pub proof fn lemma_picked_from_candidates(
    candidates: Seq<ExperienceEvent>,
    want: nat,
    strategy: SamplingStrategy,
    seed: u64,
)
    requires
        candidates.len() <= usize::MAX,
    ensures
        picked(candidates, want, strategy, seed).len() == at_most(want, candidates.len()),
        picked_positions(candidates.len(), want, strategy, seed).len() == at_most(
            want,
            candidates.len(),
        ),
        distinct_below(picked_positions(candidates.len(), want, strategy, seed), candidates.len()),
        forall|i: int|
            0 <= i < at_most(want, candidates.len()) ==> #[trigger] picked(
                candidates,
                want,
                strategy,
                seed,
            )[i] == candidates[picked_positions(candidates.len(), want, strategy, seed)[i] as int],
{
    lemma_chosen_distinct(candidates.len(), want, seed);
}

/// A batch as large as the candidates are many holds every candidate: each
/// stands at some place of the batch.
pub proof fn lemma_full_batch_holds_all(
    candidates: Seq<ExperienceEvent>,
    want: nat,
    strategy: SamplingStrategy,
    seed: u64,
    position: int,
)
    requires
        candidates.len() <= usize::MAX,
        want >= candidates.len(),
        0 <= position < candidates.len(),
    ensures
        picked(candidates, want, strategy, seed).len() == candidates.len(),
        exists|i: int|
            0 <= i < candidates.len() && #[trigger] picked(candidates, want, strategy, seed)[i]
                == candidates[position],
{
    let batch = picked(candidates, want, strategy, seed);
    match strategy {
        SamplingStrategy::Uniform => {
            let picks = chosen(candidates.len(), want, seed);
            lemma_chosen_distinct(candidates.len(), want, seed);
            lemma_chosen_covers(candidates.len(), want, seed);
            assert(occurs(picks, position));
            let i = choose|i: int| 0 <= i < picks.len() && #[trigger] picks[i] == position;
            assert(batch[i] == candidates[position]);
        },
        SamplingStrategy::Recent => {
            let i = candidates.len() - 1 - position;
            assert(batch[i] == candidates[position]);
        },
    }
}

/// Draws a batch of at most `want` events from `candidates`, which are
/// given oldest first.
pub fn pick_batch(
    candidates: &Vec<ExperienceEvent>,
    want: usize,
    strategy: SamplingStrategy,
    seed: u64,
) -> (batch: Vec<ExperienceEvent>)
    ensures
        batch@ == picked(candidates@, want as nat, strategy, seed),
        batch@.len() == at_most(want as nat, candidates@.len()),
{
    let len = candidates.len();
    let take = if want <= len {
        want
    } else {
        len
    };
    let mut batch: Vec<ExperienceEvent> = Vec::new();
    match strategy {
        SamplingStrategy::Uniform => {
            let picks = choose_indices(len, want, seed);
            let mut i: usize = 0;
            while i < take
                invariant
                    i <= take,
                    take == at_most(want as nat, len as nat),
                    len == candidates@.len(),
                    picks@ == chosen(len as nat, want as nat, seed),
                    picks@.len() == take,
                    distinct_below(picks@, len as nat),
                    batch@.len() == i,
                    forall|k: int| 0 <= k < i ==> batch@[k] == candidates@[picks@[k] as int],
                decreases take - i,
            {
                batch.push(candidates[picks[i]]);
                i = i + 1;
            }
        },
        SamplingStrategy::Recent => {
            let mut i: usize = 0;
            while i < take
                invariant
                    i <= take <= len,
                    len == candidates@.len(),
                    batch@.len() == i,
                    forall|k: int| 0 <= k < i ==> batch@[k] == candidates@[len - 1 - k],
                decreases take - i,
            {
                batch.push(candidates[len - 1 - i]);
                i = i + 1;
            }
        },
    }
    assert(batch@ =~= picked(candidates@, want as nat, strategy, seed));
    batch
}

} // verus!
