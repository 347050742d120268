//! Tokens: the atomic units of knowledge. A token has an identifier that
//! never changes, a classification, a scalar weight and a position in each
//! of eight coordinate spaces.
//!
//! Weights and position components are IEEE-754 single-precision values in
//! their 32-bit encoding (what `f32::to_bits` gives). A token stores and
//! returns the words as they are and never interprets them, so what is read
//! back is bit for bit what was written.
//!
//! A token has a binary record of [`TOKEN_RECORD_SIZE`] bytes, all integers
//! little-endian: the positions from 0, twelve bytes a space in the order
//! of the spaces and `x`, `y`, `z` within each; the identifier at 96, the
//! weight at 100, the code of the classification at 104; the bytes 105..112
//! are reserved and zero.

use vstd::prelude::*;
use vstd::bytes::*;
use crate::layout::all_zero;
use crate::layout::field;
use crate::layout::is_zero;
use crate::layout::lemma_words_at;
use crate::layout::lemma_words_bytes;
use crate::layout::put_u32;
use crate::layout::put_words;
use crate::layout::put_zeros;
use crate::layout::read_u32;
use crate::layout::read_words;
use crate::layout::u32_at;
use crate::layout::words_at;
use crate::layout::words_bytes;
use crate::layout::zeros;

verus! {

/// The number of coordinate spaces.
pub const SPACE_COUNT: usize = 8;

/// The size of a token's binary record.
pub const TOKEN_RECORD_SIZE: usize = 112;

/// The classification of a token.
#[derive(Clone, Copy, Debug, PartialEq, Eq, Hash, Structural)]
pub enum EntityType {
    Undefined,
    Concept,
    Object,
    Event,
    Process,
    Attribute,
    Relation,
    Agent,
}

impl EntityType {
    /// The code of the classification in a binary record.
    pub open spec fn code_spec(self) -> u8 {
        match self {
            EntityType::Undefined => 0,
            EntityType::Concept => 1,
            EntityType::Object => 2,
            EntityType::Event => 3,
            EntityType::Process => 4,
            EntityType::Attribute => 5,
            EntityType::Relation => 6,
            EntityType::Agent => 7,
        }
    }

    /// The classification with the given code; codes past the last stand
    /// for the last classification.
    pub open spec fn of_code(c: u8) -> EntityType {
        if c == 0 {
            EntityType::Undefined
        } else if c == 1 {
            EntityType::Concept
        } else if c == 2 {
            EntityType::Object
        } else if c == 3 {
            EntityType::Event
        } else if c == 4 {
            EntityType::Process
        } else if c == 5 {
            EntityType::Attribute
        } else if c == 6 {
            EntityType::Relation
        } else {
            EntityType::Agent
        }
    }

    pub fn code(self) -> (c: u8)
        ensures
            c == self.code_spec(),
            c <= 7,
    {
        match self {
            EntityType::Undefined => 0,
            EntityType::Concept => 1,
            EntityType::Object => 2,
            EntityType::Event => 3,
            EntityType::Process => 4,
            EntityType::Attribute => 5,
            EntityType::Relation => 6,
            EntityType::Agent => 7,
        }
    }

    /// The classification with the given code, if there is one.
    pub fn from_code(c: u8) -> (t: Option<EntityType>)
        ensures
            c <= 7 <==> t is Some,
            t matches Some(found) ==> found.code_spec() == c && found == EntityType::of_code(c),
    {
        match c {
            0 => Some(EntityType::Undefined),
            1 => Some(EntityType::Concept),
            2 => Some(EntityType::Object),
            3 => Some(EntityType::Event),
            4 => Some(EntityType::Process),
            5 => Some(EntityType::Attribute),
            6 => Some(EntityType::Relation),
            7 => Some(EntityType::Agent),
            _ => None,
        }
    }
}

/// The coordinate spaces a token is placed in, all at once.
#[derive(Clone, Copy, Debug, PartialEq, Eq, Hash, Structural)]
pub enum CoordinateSpace {
    L1Physical,
    L2Sensory,
    L3Motor,
    L4Emotional,
    L5Cognitive,
    L6Social,
    L7Temporal,
    L8Abstract,
}

impl CoordinateSpace {
    /// The position of the space among the eight, from 0.
    pub open spec fn index_spec(self) -> int {
        match self {
            CoordinateSpace::L1Physical => 0,
            CoordinateSpace::L2Sensory => 1,
            CoordinateSpace::L3Motor => 2,
            CoordinateSpace::L4Emotional => 3,
            CoordinateSpace::L5Cognitive => 4,
            CoordinateSpace::L6Social => 5,
            CoordinateSpace::L7Temporal => 6,
            CoordinateSpace::L8Abstract => 7,
        }
    }

    pub fn index(self) -> (i: usize)
        ensures
            i == self.index_spec(),
            i < SPACE_COUNT,
    {
        match self {
            CoordinateSpace::L1Physical => 0,
            CoordinateSpace::L2Sensory => 1,
            CoordinateSpace::L3Motor => 2,
            CoordinateSpace::L4Emotional => 3,
            CoordinateSpace::L5Cognitive => 4,
            CoordinateSpace::L6Social => 5,
            CoordinateSpace::L7Temporal => 6,
            CoordinateSpace::L8Abstract => 7,
        }
    }

    /// The space at a position, or `None` for a position at which no space
    /// is defined.
    pub fn from_index(i: usize) -> (space: Option<CoordinateSpace>)
        ensures
            i < SPACE_COUNT <==> space is Some,
            space matches Some(s) ==> s.index_spec() == i,
    {
        match i {
            0 => Some(CoordinateSpace::L1Physical),
            1 => Some(CoordinateSpace::L2Sensory),
            2 => Some(CoordinateSpace::L3Motor),
            3 => Some(CoordinateSpace::L4Emotional),
            4 => Some(CoordinateSpace::L5Cognitive),
            5 => Some(CoordinateSpace::L6Social),
            6 => Some(CoordinateSpace::L7Temporal),
            7 => Some(CoordinateSpace::L8Abstract),
            _ => None,
        }
    }
}

/// What a token is, as plain values: `positions[k]` is the position in the
/// space of index `k`.
#[verifier::ext_equal]
pub struct TokenView {
    pub id: u32,
    pub entity_type: EntityType,
    pub weight: u32,
    pub positions: Seq<(u32, u32, u32)>,
}

impl TokenView {
    pub open spec fn position(self, space: CoordinateSpace) -> (u32, u32, u32) {
        self.positions[space.index_spec()]
    }

    /// The token with its position in `space` replaced.
    pub open spec fn with_position(self, space: CoordinateSpace, x: u32, y: u32, z: u32) -> TokenView {
        TokenView { positions: self.positions.update(space.index_spec(), (x, y, z)), ..self }
    }

    pub open spec fn with_entity_type(self, entity_type: EntityType) -> TokenView {
        TokenView { entity_type, ..self }
    }

    pub open spec fn with_weight(self, weight: u32) -> TokenView {
        TokenView { weight, ..self }
    }

    /// The token with the given identifier and nothing else set: no
    /// classification, weight zero, the origin in every space.
    pub open spec fn blank(id: u32) -> TokenView {
        TokenView {
            id,
            entity_type: EntityType::Undefined,
            weight: 0,
            positions: Seq::new(SPACE_COUNT as nat, |k: int| (0u32, 0u32, 0u32)),
        }
    }

    /// A position in each of the eight spaces.
    pub open spec fn complete(self) -> bool {
        self.positions.len() == SPACE_COUNT
    }

    /// The position components in record order: space by space, and `x`,
    /// `y`, `z` within each.
    pub open spec fn words(self) -> Seq<u32> {
        Seq::new(
            24,
            |i: int|
                if i % 3 == 0 {
                    self.positions[i / 3].0
                } else if i % 3 == 1 {
                    self.positions[i / 3].1
                } else {
                    self.positions[i / 3].2
                },
        )
    }
}

/// The positions that 24 words in record order spell.
pub open spec fn positions_of(words: Seq<u32>) -> Seq<(u32, u32, u32)> {
    Seq::new(8, |k: int| (words[3 * k], words[3 * k + 1], words[3 * k + 2]))
}

/// The binary record of a token.
pub open spec fn encoded_token(v: TokenView) -> Seq<u8> {
    words_bytes(v.words()) + spec_u32_to_le_bytes(v.id) + spec_u32_to_le_bytes(v.weight)
        + seq![v.entity_type.code_spec()] + zeros(7)
}

/// `bytes` is the record of a token: the right size, a known
/// classification code, and the reserved bytes zero.
pub open spec fn is_token_record(bytes: Seq<u8>) -> bool {
    &&& bytes.len() == TOKEN_RECORD_SIZE
    &&& bytes[104] <= 7
    &&& all_zero(bytes, 105, 112)
}

/// The token that a record holds.
pub open spec fn decoded_token(bytes: Seq<u8>) -> TokenView {
    TokenView {
        id: u32_at(bytes, 96),
        entity_type: EntityType::of_code(bytes[104]),
        weight: u32_at(bytes, 100),
        positions: positions_of(words_at(bytes, 0, 24)),
    }
}

/// Writing a token and reading the record gives the token back.
pub proof fn lemma_token_round_trip(v: TokenView)
    requires
        v.complete(),
    ensures
        is_token_record(encoded_token(v)),
        decoded_token(encoded_token(v)) == v,
{
    lemma_auto_spec_u32_to_from_le_bytes();
    let w = v.words();
    lemma_words_bytes(w);
    let b = encoded_token(v);
    assert(b.len() == 112);
    assert(b.subrange(96, 100) =~= spec_u32_to_le_bytes(v.id));
    assert(b.subrange(100, 104) =~= spec_u32_to_le_bytes(v.weight));
    assert(b[104] == v.entity_type.code_spec());
    assert forall|i: int| 0 <= i < 24 implies #[trigger] u32_at(b, 4 * i) == w[i] by {
        assert(field(b, 4 * i, 4) =~= field(words_bytes(w), 4 * i, 4));
        assert(u32_at(words_bytes(w), 4 * i) == w[i]);
    }
    assert(words_at(b, 0, 24) =~= w);
    assert(positions_of(w) =~= v.positions);
}

/// Reading a record and writing the token gives the record back.
pub proof fn lemma_token_record_round_trip(bytes: Seq<u8>)
    requires
        is_token_record(bytes),
    ensures
        encoded_token(decoded_token(bytes)) == bytes,
{
    lemma_auto_spec_u32_to_from_le_bytes();
    lemma_words_at(bytes, 0, 24);
    let w = words_at(bytes, 0, 24);
    let v = decoded_token(bytes);
    assert(v.words() =~= w);
    assert(bytes.subrange(96, 100).len() == 4);
    assert(bytes.subrange(100, 104).len() == 4);
    assert(field(bytes, 0, 96).len() == 96);
    assert(encoded_token(v) =~= bytes);
}

#[derive(Clone, Copy, Debug, PartialEq, Eq)]
pub struct Token {
    id: u32,
    entity_type: EntityType,
    weight: u32,
    coordinates: [[u32; 3]; 8],
}

impl View for Token {
    type V = TokenView;

    closed spec fn view(&self) -> TokenView {
        TokenView {
            id: self.id,
            entity_type: self.entity_type,
            weight: self.weight,
            positions: Seq::new(
                8,
                |k: int| (self.coordinates@[k]@[0], self.coordinates@[k]@[1], self.coordinates@[k]@[2]),
            ),
        }
    }
}

impl Token {
    /// Every token has a position in each of the eight spaces.
    pub proof fn lemma_complete(&self)
        ensures
            self@.complete(),
    {
    }

    /// A token with the given identifier, the classification
    /// [`EntityType::Undefined`], weight zero and the origin as its position
    /// in every space.
    pub fn new(id: u32) -> (t: Token)
        ensures
            t@ == TokenView::blank(id),
            t@.complete(),
    {
        let t = Token {
            id,
            entity_type: EntityType::Undefined,
            weight: 0,
            coordinates: [[0u32;3];8],
        };
        assert(t@ =~= TokenView::blank(id));
        t
    }

    /// The binary record of the token.
    pub fn to_bytes(&self) -> (bytes: Vec<u8>)
        ensures
            bytes@ == encoded_token(self@),
            bytes@.len() == TOKEN_RECORD_SIZE,
            is_token_record(bytes@),
    {
        proof {
            lemma_token_round_trip(self@);
        }
        let mut words: Vec<u32> = Vec::new();
        let mut k: usize = 0;
        while k < 8
            invariant
                k <= 8,
                words@ == self@.words().take(3 * k as int),
            decreases 8 - k,
        {
            let at = self.coordinates[k];
            words.push(at[0]);
            words.push(at[1]);
            words.push(at[2]);
            assert(words@ =~= self@.words().take(3 * (k + 1) as int));
            k = k + 1;
        }
        assert(words@ =~= self@.words());
        let mut bytes: Vec<u8> = Vec::new();
        put_words(&mut bytes, &words);
        put_u32(&mut bytes, self.id);
        put_u32(&mut bytes, self.weight);
        bytes.push(self.entity_type.code());
        put_zeros(&mut bytes, 7);
        assert(bytes@ =~= encoded_token(self@));
        bytes
    }

    /// The token that `bytes` hold, if they are the record of one.
    pub fn from_bytes(bytes: &[u8]) -> (found: Option<Token>)
        ensures
            found is Some <==> is_token_record(bytes@),
            found matches Some(t) ==> t@ == decoded_token(bytes@),
    {
        if bytes.len() != TOKEN_RECORD_SIZE || !is_zero(bytes, 105, 112) {
            return None;
        }
        match EntityType::from_code(bytes[104]) {
            Some(entity_type) => {
                let w = read_words(bytes, 0, 24);
                let t = Token {
                    id: read_u32(bytes, 96),
                    entity_type,
                    weight: read_u32(bytes, 100),
                    coordinates: [
                        [w[0], w[1], w[2]],
                        [w[3], w[4], w[5]],
                        [w[6], w[7], w[8]],
                        [w[9], w[10], w[11]],
                        [w[12], w[13], w[14]],
                        [w[15], w[16], w[17]],
                        [w[18], w[19], w[20]],
                        [w[21], w[22], w[23]],
                    ],
                };
                assert(t@.positions =~= positions_of(w@));
                Some(t)
            },
            None => None,
        }
    }

    pub fn id(&self) -> (id: u32)
        ensures
            id == self@.id,
    {
        self.id
    }

    pub fn entity_type(&self) -> (entity_type: EntityType)
        ensures
            entity_type == self@.entity_type,
    {
        self.entity_type
    }

    pub fn set_entity_type(&mut self, entity_type: EntityType)
        ensures
            final(self)@ == old(self)@.with_entity_type(entity_type),
    {
        self.entity_type = entity_type;
        assert(self@.positions =~= old(self)@.positions);
    }

    pub fn weight(&self) -> (weight: u32)
        ensures
            weight == self@.weight,
    {
        self.weight
    }

    pub fn set_weight(&mut self, weight: u32)
        ensures
            final(self)@ == old(self)@.with_weight(weight),
    {
        self.weight = weight;
        assert(self@.positions =~= old(self)@.positions);
    }

    /// Places the token at `(x, y, z)` in `space`. Its positions in the
    /// other spaces, and everything else, stay as they are.
    pub fn set_coordinates(&mut self, space: CoordinateSpace, x: u32, y: u32, z: u32)
        ensures
            final(self)@ == old(self)@.with_position(space, x, y, z),
            final(self)@.complete(),
    {
        let k = space.index();
        self.coordinates[k] = [x, y, z];
        assert(self@.positions =~= old(self)@.positions.update(space.index_spec(), (x, y, z)));
    }

    /// The position of the token in `space`.
    pub fn get_coordinates(&self, space: CoordinateSpace) -> (at: [u32; 3])
        ensures
            (at@[0], at@[1], at@[2]) == self@.position(space),
    {
        let k = space.index();
        self.coordinates[k]
    }
}

/// Reading a space after a write to it gives exactly what was written, and
/// reading any other space gives what it held before: the spaces do not
/// interfere. The identifier survives every write.
pub proof fn lemma_spaces_independent(
    token: TokenView,
    written: CoordinateSpace,
    x: u32,
    y: u32,
    z: u32,
    read: CoordinateSpace,
)
    requires
        token.complete(),
    ensures
        token.with_position(written, x, y, z).position(written) == (x, y, z),
        read != written ==> token.with_position(written, x, y, z).position(read) == token.position(
            read,
        ),
        token.with_position(written, x, y, z).id == token.id,
        token.with_position(written, x, y, z).complete(),
{
}

} // verus!
