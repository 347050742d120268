//! Connections: directed, typed edges between two tokens that learn. A
//! connection counts how often it fired and carries a confidence that
//! moves up with every success and down with every failure.
//!
//! Confidence is a fixed-point number counted in millionths and never
//! leaves `0..=CONFIDENCE_MAX`. The built-in rule moves it a tenth of the
//! way to the bound it is heading for, rounded up, so the steps shrink as
//! the bound comes near and the bound is reached in the end. A caller with
//! a rule of its own hands in the step; whatever its size, the result is
//! clamped.
//!
//! A connection has a binary record of [`CONNECTION_RECORD_SIZE`] bytes, all
//! integers little-endian: source at 0, target at 4, confidence at 8, the
//! type code at 12, the activation count at 16; the bytes 13..16 and 24..32
//! are reserved and zero.

use vstd::prelude::*;
use vstd::bytes::*;
use crate::layout::all_zero;
use crate::layout::is_zero;
use crate::layout::put_u32;
use crate::layout::put_u64;
use crate::layout::put_zeros;
use crate::layout::read_u32;
use crate::layout::read_u64;
use crate::layout::u32_at;
use crate::layout::u64_at;
use crate::layout::zeros;

verus! {

/// The confidence that stands for 1.0.
pub const CONFIDENCE_MAX: u32 = 1_000_000;

/// The confidence of a new connection.
pub const CONFIDENCE_INITIAL: u32 = 500_000;

/// The built-in rule moves confidence by one part in this many of the
/// distance to the bound.
pub const LEARNING_DIVISOR: u32 = 10;

/// The size of a connection's binary record.
pub const CONNECTION_RECORD_SIZE: usize = 32;

/// The classification of a connection.
#[derive(Clone, Copy, Debug, PartialEq, Eq, Hash, Structural)]
pub enum ConnectionType {
    AssociatedWith,
    Causes,
    PartOf,
    SimilarTo,
    Precedes,
    Contradicts,
}

impl ConnectionType {
    /// The code under which a graph records edges of this type.
    pub open spec fn code_spec(self) -> u8 {
        match self {
            ConnectionType::AssociatedWith => 0,
            ConnectionType::Causes => 1,
            ConnectionType::PartOf => 2,
            ConnectionType::SimilarTo => 3,
            ConnectionType::Precedes => 4,
            ConnectionType::Contradicts => 5,
        }
    }

    /// The type with the given code; codes past the last stand for the last
    /// type.
    pub open spec fn of_code(c: u8) -> ConnectionType {
        if c == 0 {
            ConnectionType::AssociatedWith
        } else if c == 1 {
            ConnectionType::Causes
        } else if c == 2 {
            ConnectionType::PartOf
        } else if c == 3 {
            ConnectionType::SimilarTo
        } else if c == 4 {
            ConnectionType::Precedes
        } else {
            ConnectionType::Contradicts
        }
    }

    pub fn code(self) -> (c: u8)
        ensures
            c == self.code_spec(),
            c <= 5,
    {
        match self {
            ConnectionType::AssociatedWith => 0,
            ConnectionType::Causes => 1,
            ConnectionType::PartOf => 2,
            ConnectionType::SimilarTo => 3,
            ConnectionType::Precedes => 4,
            ConnectionType::Contradicts => 5,
        }
    }

    /// The type with the given code, if there is one.
    pub fn from_code(c: u8) -> (t: Option<ConnectionType>)
        ensures
            c <= 5 <==> t is Some,
            t matches Some(found) ==> found.code_spec() == c && found == ConnectionType::of_code(c),
    {
        match c {
            0 => Some(ConnectionType::AssociatedWith),
            1 => Some(ConnectionType::Causes),
            2 => Some(ConnectionType::PartOf),
            3 => Some(ConnectionType::SimilarTo),
            4 => Some(ConnectionType::Precedes),
            5 => Some(ConnectionType::Contradicts),
            _ => None,
        }
    }
}

/// The step of the built-in rule at a given confidence: a tenth of the
/// distance to the bound that the outcome points to, rounded up.
pub open spec fn default_step(confidence: int, success: bool) -> int {
    let distance = if success {
        CONFIDENCE_MAX - confidence
    } else {
        confidence
    };
    (distance + LEARNING_DIVISOR - 1) / (LEARNING_DIVISOR as int)
}

/// The confidence after a move by `step` towards the bound that the
/// outcome points to, clamped at the bound.
pub open spec fn adjusted(confidence: int, success: bool, step: int) -> int {
    if success {
        if confidence + step >= CONFIDENCE_MAX {
            CONFIDENCE_MAX as int
        } else {
            confidence + step
        }
    } else {
        if step >= confidence {
            0
        } else {
            confidence - step
        }
    }
}

/// The confidence after one outcome under the built-in rule.
pub open spec fn updated(confidence: int, success: bool) -> int {
    adjusted(confidence, success, default_step(confidence, success))
}

/// The confidence after a sequence of outcomes under the built-in rule.
pub open spec fn updated_all(confidence: int, outcomes: Seq<bool>) -> int
    decreases outcomes.len(),
{
    if outcomes.len() == 0 {
        confidence
    } else {
        updated(updated_all(confidence, outcomes.drop_last()), outcomes.last())
    }
}

#[derive(Clone, Copy, Debug, PartialEq, Eq)]
pub struct ConnectionV3 {
    from_id: u32,
    to_id: u32,
    connection_type: ConnectionType,
    confidence: u32,
    activation_count: u64,
}

pub type Connection = ConnectionV3;

/// What a connection is, as plain values.
pub struct ConnectionView {
    pub from_id: u32,
    pub to_id: u32,
    pub connection_type: ConnectionType,
    pub confidence: u32,
    pub activation_count: u64,
}

impl View for ConnectionV3 {
    type V = ConnectionView;

    closed spec fn view(&self) -> ConnectionView {
        ConnectionView {
            from_id: self.from_id,
            to_id: self.to_id,
            connection_type: self.connection_type,
            confidence: self.confidence,
            activation_count: self.activation_count,
        }
    }
}

/// The binary record of a connection.
pub open spec fn encoded_connection(v: ConnectionView) -> Seq<u8> {
    spec_u32_to_le_bytes(v.from_id) + spec_u32_to_le_bytes(v.to_id) + spec_u32_to_le_bytes(
        v.confidence,
    ) + seq![v.connection_type.code_spec()] + zeros(3) + spec_u64_to_le_bytes(v.activation_count)
        + zeros(8)
}

/// `bytes` is the record of a connection: the right size, a confidence
/// within bounds, a known type code, and the reserved bytes zero.
pub open spec fn is_connection_record(bytes: Seq<u8>) -> bool {
    &&& bytes.len() == CONNECTION_RECORD_SIZE
    &&& u32_at(bytes, 8) <= CONFIDENCE_MAX
    &&& bytes[12] <= 5
    &&& all_zero(bytes, 13, 16)
    &&& all_zero(bytes, 24, 32)
}

/// The connection that a record holds.
pub open spec fn decoded_connection(bytes: Seq<u8>) -> ConnectionView {
    ConnectionView {
        from_id: u32_at(bytes, 0),
        to_id: u32_at(bytes, 4),
        connection_type: ConnectionType::of_code(bytes[12]),
        confidence: u32_at(bytes, 8),
        activation_count: u64_at(bytes, 16),
    }
}

impl ConnectionV3 {
    #[verifier::type_invariant]
    spec fn bounded(self) -> bool {
        self.confidence <= CONFIDENCE_MAX
    }

    pub open spec fn from_spec(&self) -> u32 {
        self@.from_id
    }

    pub open spec fn to_spec(&self) -> u32 {
        self@.to_id
    }

    pub open spec fn type_spec(&self) -> ConnectionType {
        self@.connection_type
    }

    pub open spec fn confidence_spec(&self) -> int {
        self@.confidence as int
    }

    pub open spec fn activations_spec(&self) -> nat {
        self@.activation_count as nat
    }

    /// Everything but confidence and activation count agrees.
    pub open spec fn same_edge(&self, other: &ConnectionV3) -> bool {
        &&& self.from_spec() == other.from_spec()
        &&& self.to_spec() == other.to_spec()
        &&& self.type_spec() == other.type_spec()
    }

    /// A connection from `from_id` to `to_id` of type
    /// [`ConnectionType::AssociatedWith`] that has never fired and holds
    /// the initial confidence.
    pub fn new(from_id: u32, to_id: u32) -> (c: ConnectionV3)
        ensures
            c.from_spec() == from_id,
            c.to_spec() == to_id,
            c.type_spec() == ConnectionType::AssociatedWith,
            c.confidence_spec() == CONFIDENCE_INITIAL,
            c.activations_spec() == 0,
    {
        ConnectionV3 {
            from_id,
            to_id,
            connection_type: ConnectionType::AssociatedWith,
            confidence: CONFIDENCE_INITIAL,
            activation_count: 0,
        }
    }

    /// The binary record of the connection.
    pub fn to_bytes(&self) -> (bytes: Vec<u8>)
        ensures
            bytes@ == encoded_connection(self@),
            bytes@.len() == CONNECTION_RECORD_SIZE,
            is_connection_record(bytes@),
    {
        proof {
            use_type_invariant(self);
            lemma_connection_round_trip(self@);
        }
        let mut bytes: Vec<u8> = Vec::new();
        put_u32(&mut bytes, self.from_id);
        put_u32(&mut bytes, self.to_id);
        put_u32(&mut bytes, self.confidence);
        bytes.push(self.connection_type.code());
        put_zeros(&mut bytes, 3);
        put_u64(&mut bytes, self.activation_count);
        put_zeros(&mut bytes, 8);
        assert(bytes@ =~= encoded_connection(self@));
        bytes
    }

    /// The connection that `bytes` hold, if they are the record of one.
    pub fn from_bytes(bytes: &[u8]) -> (found: Option<ConnectionV3>)
        ensures
            found is Some <==> is_connection_record(bytes@),
            found matches Some(c) ==> c@ == decoded_connection(bytes@),
    {
        if bytes.len() != CONNECTION_RECORD_SIZE {
            return None;
        }
        let confidence = read_u32(bytes, 8);
        if confidence > CONFIDENCE_MAX || !is_zero(bytes, 13, 16) || !is_zero(bytes, 24, 32) {
            return None;
        }
        match ConnectionType::from_code(bytes[12]) {
            Some(connection_type) => Some(
                ConnectionV3 {
                    from_id: read_u32(bytes, 0),
                    to_id: read_u32(bytes, 4),
                    connection_type,
                    confidence,
                    activation_count: read_u64(bytes, 16),
                },
            ),
            None => None,
        }
    }

    pub fn from_id(&self) -> (id: u32)
        ensures
            id == self.from_spec(),
    {
        self.from_id
    }

    pub fn to_id(&self) -> (id: u32)
        ensures
            id == self.to_spec(),
    {
        self.to_id
    }

    pub fn connection_type(&self) -> (t: ConnectionType)
        ensures
            t == self.type_spec(),
    {
        self.connection_type
    }

    pub fn confidence(&self) -> (c: u32)
        ensures
            c == self.confidence_spec(),
            c <= CONFIDENCE_MAX,
    {
        proof {
            use_type_invariant(self);
        }
        self.confidence
    }

    pub fn activation_count(&self) -> (n: u64)
        ensures
            n == self.activations_spec(),
    {
        self.activation_count
    }

    pub fn set_connection_type(&mut self, connection_type: ConnectionType)
        ensures
            final(self).type_spec() == connection_type,
            final(self).from_spec() == old(self).from_spec(),
            final(self).to_spec() == old(self).to_spec(),
            final(self).confidence_spec() == old(self).confidence_spec(),
            final(self).activations_spec() == old(self).activations_spec(),
    {
        proof {
            use_type_invariant(&*self);
        }
        self.connection_type = connection_type;
    }

    /// Records that the connection fired: the count goes up by one, and
    /// stays where it is once it has reached `u64::MAX`.
    pub fn activate(&mut self)
        ensures
            final(self).activations_spec() == (if old(self).activations_spec() < u64::MAX {
                old(self).activations_spec() + 1
            } else {
                old(self).activations_spec()
            }),
            final(self).same_edge(old(self)),
            final(self).confidence_spec() == old(self).confidence_spec(),
    {
        proof {
            use_type_invariant(&*self);
        }
        self.activation_count = self.activation_count.saturating_add(1);
    }

    /// Moves confidence by `step` towards the maximum on success and
    /// towards zero on failure, and stops at the bound.
    pub fn adjust_confidence(&mut self, success: bool, step: u32)
        ensures
            final(self).confidence_spec() == adjusted(
                old(self).confidence_spec(),
                success,
                step as int,
            ),
            0 <= final(self).confidence_spec() <= CONFIDENCE_MAX,
            final(self).same_edge(old(self)),
            final(self).activations_spec() == old(self).activations_spec(),
    {
        proof {
            use_type_invariant(&*self);
        }
        let c = self.confidence;
        let moved = if success {
            if step >= CONFIDENCE_MAX - c {
                CONFIDENCE_MAX
            } else {
                c + step
            }
        } else {
            if step >= c {
                0
            } else {
                c - step
            }
        };
        self.confidence = moved;
    }

    /// Applies one outcome under the built-in rule.
    pub fn update_confidence(&mut self, success: bool)
        ensures
            final(self).confidence_spec() == updated(old(self).confidence_spec(), success),
            0 <= final(self).confidence_spec() <= CONFIDENCE_MAX,
            success ==> final(self).confidence_spec() >= old(self).confidence_spec(),
            !success ==> final(self).confidence_spec() <= old(self).confidence_spec(),
            final(self).same_edge(old(self)),
            final(self).activations_spec() == old(self).activations_spec(),
    {
        proof {
            use_type_invariant(&*self);
        }
        let c = self.confidence;
        let distance = if success {
            CONFIDENCE_MAX - c
        } else {
            c
        };
        let step = (distance + (LEARNING_DIVISOR - 1)) / LEARNING_DIVISOR;
        self.adjust_confidence(success, step);
    }
}

/// Writing a connection and reading the record gives the connection back.
pub proof fn lemma_connection_round_trip(v: ConnectionView)
    requires
        v.confidence <= CONFIDENCE_MAX,
    ensures
        is_connection_record(encoded_connection(v)),
        decoded_connection(encoded_connection(v)) == v,
{
    lemma_auto_spec_u32_to_from_le_bytes();
    lemma_auto_spec_u64_to_from_le_bytes();
    let b = encoded_connection(v);
    assert(b.len() == 32);
    assert(b.subrange(0, 4) =~= spec_u32_to_le_bytes(v.from_id));
    assert(b.subrange(4, 8) =~= spec_u32_to_le_bytes(v.to_id));
    assert(b.subrange(8, 12) =~= spec_u32_to_le_bytes(v.confidence));
    assert(b.subrange(16, 24) =~= spec_u64_to_le_bytes(v.activation_count));
    assert(b[12] == v.connection_type.code_spec());
}

/// Reading a record and writing the connection gives the record back: no
/// two records hold the same connection.
pub proof fn lemma_connection_record_round_trip(bytes: Seq<u8>)
    requires
        is_connection_record(bytes),
    ensures
        encoded_connection(decoded_connection(bytes)) == bytes,
{
    lemma_auto_spec_u32_to_from_le_bytes();
    lemma_auto_spec_u64_to_from_le_bytes();
    let v = decoded_connection(bytes);
    assert(bytes.subrange(0, 4).len() == 4);
    assert(bytes.subrange(4, 8).len() == 4);
    assert(bytes.subrange(8, 12).len() == 4);
    assert(bytes.subrange(16, 24).len() == 8);
    assert(encoded_connection(v) =~= bytes);
}

/// One outcome under the built-in rule keeps confidence within its bounds,
/// moves it towards the bound the outcome points to and never past it, and
/// rests only at that bound.
pub proof fn lemma_updated_bounded(confidence: int, success: bool)
    requires
        0 <= confidence <= CONFIDENCE_MAX,
    ensures
        0 <= updated(confidence, success) <= CONFIDENCE_MAX,
        success ==> updated(confidence, success) >= confidence,
        !success ==> updated(confidence, success) <= confidence,
        success && confidence < CONFIDENCE_MAX ==> updated(confidence, success) > confidence,
        !success && confidence > 0 ==> updated(confidence, success) < confidence,
{
}

/// Whatever the step, a clamped move keeps confidence within its bounds.
pub proof fn lemma_adjusted_bounded(confidence: int, success: bool, step: int)
    requires
        0 <= confidence <= CONFIDENCE_MAX,
        0 <= step,
    ensures
        0 <= adjusted(confidence, success, step) <= CONFIDENCE_MAX,
        success ==> adjusted(confidence, success, step) >= confidence,
        !success ==> adjusted(confidence, success, step) <= confidence,
{
}

/// After any sequence of outcomes confidence is within its bounds.
pub proof fn lemma_confidence_stays_bounded(confidence: int, outcomes: Seq<bool>)
    requires
        0 <= confidence <= CONFIDENCE_MAX,
    ensures
        0 <= updated_all(confidence, outcomes) <= CONFIDENCE_MAX,
    decreases outcomes.len(),
{
    if outcomes.len() > 0 {
        lemma_confidence_stays_bounded(confidence, outcomes.drop_last());
        lemma_updated_bounded(updated_all(confidence, outcomes.drop_last()), outcomes.last());
    }
}

/// Diminishing returns: the nearer confidence is to the bound it is heading
/// for, the smaller the step of the built-in rule.
pub proof fn lemma_steps_diminish(lower: int, higher: int)
    requires
        0 <= lower <= higher <= CONFIDENCE_MAX,
    ensures
        default_step(lower, true) >= default_step(higher, true),
        default_step(lower, false) <= default_step(higher, false),
{
}

} // verus!
