//! Experience events: fixed-size records of something that happened.
//!
//! An event has a binary record of [`EVENT_RECORD_SIZE`] bytes, all integers
//! little-endian: the identifier at 0, the timestamp at 16, the type code
//! at 24, the flags at 26, the eight state words from 28; the bytes 60..64
//! are reserved and zero.

use vstd::prelude::*;
use vstd::bytes::*;
use crate::layout::all_zero;
use crate::layout::field;
use crate::layout::is_zero;
use crate::layout::lemma_words_at;
use crate::layout::lemma_words_bytes;
use crate::layout::put_u128;
use crate::layout::put_u16;
use crate::layout::put_u64;
use crate::layout::put_words;
use crate::layout::put_zeros;
use crate::layout::read_u128;
use crate::layout::read_u16;
use crate::layout::read_u64;
use crate::layout::read_words;
use crate::layout::u128_at;
use crate::layout::u16_at;
use crate::layout::u32_at;
use crate::layout::u64_at;
use crate::layout::words_at;
use crate::layout::words_bytes;
use crate::layout::zeros;

verus! {

/// The length of an event's state vector.
pub const STATE_DIMS: usize = 8;

/// The size of an event's binary record.
pub const EVENT_RECORD_SIZE: usize = 64;

/// Event type codes range over `0..EVENT_TYPE_LIMIT`.
pub const EVENT_TYPE_LIMIT: u16 = 64;

/// The flag bits that are defined; every other bit is reserved and must be
/// clear.
pub const EVENT_FLAGS_DEFINED: u16 = 0x00ff;

/// A record of an observation, an action outcome or a signal. It is written
/// once and never changed afterwards.
#[derive(Clone, Copy, Debug, PartialEq, Eq)]
pub struct ExperienceEvent {
    /// Assigned by the producer, which answers for its uniqueness.
    pub event_id: u128,
    pub timestamp: u64,
    pub event_type: u16,
    pub flags: u16,
    /// The state snapshot, each component an IEEE-754 single-precision
    /// value in its 32-bit encoding. The record never interprets them.
    pub state: [u32; 8],
}

/// What an event is, as plain values.
pub struct EventView {
    pub event_id: u128,
    pub timestamp: u64,
    pub event_type: u16,
    pub flags: u16,
    pub state: Seq<u32>,
}

impl View for ExperienceEvent {
    type V = EventView;

    open spec fn view(&self) -> EventView {
        EventView {
            event_id: self.event_id,
            timestamp: self.timestamp,
            event_type: self.event_type,
            flags: self.flags,
            state: self.state@,
        }
    }
}

/// The binary record of an event.
pub open spec fn encoded_event(v: EventView) -> Seq<u8> {
    spec_u128_to_le_bytes(v.event_id) + spec_u64_to_le_bytes(v.timestamp) + spec_u16_to_le_bytes(
        v.event_type,
    ) + spec_u16_to_le_bytes(v.flags) + words_bytes(v.state) + zeros(4)
}

/// `bytes` is the record of an event: the right size and the reserved
/// bytes zero. A record may hold metadata that a stream refuses.
pub open spec fn is_event_record(bytes: Seq<u8>) -> bool {
    &&& bytes.len() == EVENT_RECORD_SIZE
    &&& all_zero(bytes, 60, 64)
}

/// The event that a record holds.
pub open spec fn decoded_event(bytes: Seq<u8>) -> EventView {
    EventView {
        event_id: u128_at(bytes, 0),
        timestamp: u64_at(bytes, 16),
        event_type: u16_at(bytes, 24),
        flags: u16_at(bytes, 26),
        state: words_at(bytes, 28, 8),
    }
}

/// Writing an event and reading the record gives the event back.
pub proof fn lemma_event_round_trip(v: EventView)
    requires
        v.state.len() == STATE_DIMS,
    ensures
        is_event_record(encoded_event(v)),
        decoded_event(encoded_event(v)) == v,
{
    lemma_auto_spec_u16_to_from_le_bytes();
    lemma_auto_spec_u64_to_from_le_bytes();
    lemma_auto_spec_u128_to_from_le_bytes();
    lemma_words_bytes(v.state);
    let b = encoded_event(v);
    assert(b.len() == 64);
    assert(b.subrange(0, 16) =~= spec_u128_to_le_bytes(v.event_id));
    assert(b.subrange(16, 24) =~= spec_u64_to_le_bytes(v.timestamp));
    assert(b.subrange(24, 26) =~= spec_u16_to_le_bytes(v.event_type));
    assert(b.subrange(26, 28) =~= spec_u16_to_le_bytes(v.flags));
    assert forall|i: int| 0 <= i < 8 implies #[trigger] u32_at(b, 28 + 4 * i) == v.state[i] by {
        assert(field(b, 28 + 4 * i, 4) =~= field(words_bytes(v.state), 4 * i, 4));
        assert(u32_at(words_bytes(v.state), 4 * i) == v.state[i]);
    }
    assert(words_at(b, 28, 8) =~= v.state);
}

/// Reading a record and writing the event gives the record back.
pub proof fn lemma_event_record_round_trip(bytes: Seq<u8>)
    requires
        is_event_record(bytes),
    ensures
        encoded_event(decoded_event(bytes)) == bytes,
{
    lemma_auto_spec_u16_to_from_le_bytes();
    lemma_auto_spec_u64_to_from_le_bytes();
    lemma_auto_spec_u128_to_from_le_bytes();
    lemma_words_at(bytes, 28, 8);
    assert(bytes.subrange(0, 16).len() == 16);
    assert(bytes.subrange(16, 24).len() == 8);
    assert(bytes.subrange(24, 26).len() == 2);
    assert(bytes.subrange(26, 28).len() == 2);
    assert(field(bytes, 28, 32).len() == 32);
    assert(encoded_event(decoded_event(bytes)) =~= bytes);
}

/// Why an event was refused.
#[derive(Clone, Copy, Debug, PartialEq, Eq, Structural)]
pub enum StreamError {
    /// The event type code is not below [`EVENT_TYPE_LIMIT`].
    UnknownEventType(u16),
    /// A flag bit outside [`EVENT_FLAGS_DEFINED`] is set.
    ReservedFlags(u16),
}

impl ExperienceEvent {
    /// The metadata is valid: a known type code and no reserved flag.
    pub open spec fn is_well_formed(&self) -> bool {
        self.event_type < EVENT_TYPE_LIMIT && self.flags <= EVENT_FLAGS_DEFINED
    }

    /// The verdict on the metadata. The type code is looked at first.
    pub open spec fn verdict(&self) -> Result<(), StreamError> {
        if self.event_type >= EVENT_TYPE_LIMIT {
            Err(StreamError::UnknownEventType(self.event_type))
        } else if self.flags > EVENT_FLAGS_DEFINED {
            Err(StreamError::ReservedFlags(self.flags))
        } else {
            Ok(())
        }
    }

    /// An event with the given identifier and everything else zero.
    pub fn new(event_id: u128) -> (e: ExperienceEvent)
        ensures
            e.event_id == event_id,
            e.timestamp == 0,
            e.event_type == 0,
            e.flags == 0,
            forall|i: int| 0 <= i < 8 ==> e.state@[i] == 0,
            e.is_well_formed(),
    {
        ExperienceEvent { event_id, timestamp: 0, event_type: 0, flags: 0, state: [0u32;8] }
    }

    /// The binary record of the event.
    pub fn to_bytes(&self) -> (bytes: Vec<u8>)
        ensures
            bytes@ == encoded_event(self@),
            bytes@.len() == EVENT_RECORD_SIZE,
            is_event_record(bytes@),
    {
        proof {
            lemma_event_round_trip(self@);
        }
        let mut words: Vec<u32> = Vec::new();
        let mut i: usize = 0;
        while i < 8
            invariant
                i <= 8,
                words@ == self.state@.take(i as int),
            decreases 8 - i,
        {
            words.push(self.state[i]);
            assert(words@ =~= self.state@.take(i + 1));
            i = i + 1;
        }
        assert(words@ =~= self.state@);
        let mut bytes: Vec<u8> = Vec::new();
        put_u128(&mut bytes, self.event_id);
        put_u64(&mut bytes, self.timestamp);
        put_u16(&mut bytes, self.event_type);
        put_u16(&mut bytes, self.flags);
        put_words(&mut bytes, &words);
        put_zeros(&mut bytes, 4);
        assert(bytes@ =~= encoded_event(self@));
        bytes
    }

    /// The event that `bytes` hold, if they are the record of one.
    pub fn from_bytes(bytes: &[u8]) -> (found: Option<ExperienceEvent>)
        ensures
            found is Some <==> is_event_record(bytes@),
            found matches Some(e) ==> e@ == decoded_event(bytes@),
    {
        if bytes.len() != EVENT_RECORD_SIZE || !is_zero(bytes, 60, 64) {
            return None;
        }
        let w = read_words(bytes, 28, 8);
        let e = ExperienceEvent {
            event_id: read_u128(bytes, 0),
            timestamp: read_u64(bytes, 16),
            event_type: read_u16(bytes, 24),
            flags: read_u16(bytes, 26),
            state: [w[0], w[1], w[2], w[3], w[4], w[5], w[6], w[7]],
        };
        assert(e@.state =~= words_at(bytes@, 28, 8));
        Some(e)
    }

    /// Checks the metadata.
    pub fn validate(&self) -> (outcome: Result<(), StreamError>)
        ensures
            outcome == self.verdict(),
            outcome is Ok <==> self.is_well_formed(),
    {
        if self.event_type >= EVENT_TYPE_LIMIT {
            Err(StreamError::UnknownEventType(self.event_type))
        } else if self.flags > EVENT_FLAGS_DEFINED {
            Err(StreamError::ReservedFlags(self.flags))
        } else {
            Ok(())
        }
    }
}

impl Default for ExperienceEvent {
    fn default() -> (e: ExperienceEvent)
        ensures
            e.event_id == 0,
            e.timestamp == 0,
            e.event_type == 0,
            e.flags == 0,
            forall|i: int| 0 <= i < 8 ==> e.state@[i] == 0,
    {
        ExperienceEvent::new(0)
    }
}

} // verus!
