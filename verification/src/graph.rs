//! The graph store: a set of node identifiers and an insertion-ordered list
//! of directed edges, each recorded under a caller-supplied identity.
//!
//! Duplicate policy: an identity can be recorded once. Inserting under an
//! identity that is already present is reported as
//! [`GraphError::DuplicateEdge`] and leaves the graph untouched; the only way
//! to change a recorded edge is the explicit [`Graph::set_edge_weight`].
//!
//! Dangling edges: an edge may name endpoints that were never added as
//! nodes. Insertion neither requires nor creates node entries.

use vstd::prelude::*;
use std::collections::HashMap;
use std::collections::HashSet;

verus! {

pub type NodeId = u32;

pub type EdgeId = u64;

/// The weight that stands for 1.0. Weights are fixed-point numbers counted
/// in millionths and range over `0..=WEIGHT_ONE`.
pub const WEIGHT_ONE: u32 = 1_000_000;

/// One recorded edge.
#[derive(Clone, Copy, Debug, PartialEq, Eq, Structural)]
pub struct EdgeInfo {
    pub id: EdgeId,
    pub from_id: NodeId,
    pub to_id: NodeId,
    pub edge_type: u8,
    pub weight: u32,
}

#[derive(Clone, Copy, Debug, PartialEq, Eq, Structural)]
pub enum GraphError {
    /// The identity is already recorded (or, for the mirror of a
    /// bidirectional edge, coincides with the forward identity).
    DuplicateEdge(EdgeId),
    /// The weight exceeds [`WEIGHT_ONE`].
    WeightOutOfRange(u32),
    /// No edge is recorded under the identity.
    UnknownEdge(EdgeId),
}

/// The canonical identity of the directed edge `from -> to` of type
/// `edge_type`: the endpoints fill the high and low halves of the word and
/// the type is folded into the top byte.
pub open spec fn edge_id_of(from: NodeId, to: NodeId, edge_type: u8) -> EdgeId {
    (((from as u64) << 32) | (to as u64)) ^ ((edge_type as u64) << 56)
}

/// Whether some edge of `edges` is recorded under `id`.
pub open spec fn has_id(edges: Seq<EdgeInfo>, id: EdgeId) -> bool {
    exists|i: int| 0 <= i < edges.len() && (#[trigger] edges[i]).id == id
}

/// What an insertion does to the edge list: the error it reports, or the
/// list it leaves behind.
pub open spec fn insert_outcome(
    edges: Seq<EdgeInfo>,
    edge_id: EdgeId,
    from: NodeId,
    to: NodeId,
    edge_type: u8,
    weight: u32,
    bidirectional: bool,
) -> Result<Seq<EdgeInfo>, GraphError> {
    let forward = EdgeInfo { id: edge_id, from_id: from, to_id: to, edge_type, weight };
    let mirror_id = edge_id_of(to, from, edge_type);
    let mirror = EdgeInfo { id: mirror_id, from_id: to, to_id: from, edge_type, weight };
    if weight > WEIGHT_ONE {
        Err(GraphError::WeightOutOfRange(weight))
    } else if has_id(edges, edge_id) {
        Err(GraphError::DuplicateEdge(edge_id))
    } else if bidirectional && from != to {
        if mirror_id == edge_id || has_id(edges, mirror_id) {
            Err(GraphError::DuplicateEdge(mirror_id))
        } else {
            Ok(edges.push(forward).push(mirror))
        }
    } else {
        Ok(edges.push(forward))
    }
}

pub struct Graph {
    nodes: HashSet<NodeId>,
    edges: Vec<EdgeInfo>,
    index: HashMap<EdgeId, usize>,
}

impl Graph {
    /// The node identifiers that were added.
    pub closed spec fn nodes(&self) -> Set<NodeId> {
        self.nodes@
    }

    /// The recorded edges, oldest first.
    pub closed spec fn edges(&self) -> Seq<EdgeInfo> {
        self.edges@
    }

    /// The lookup index agrees with the edge list, and every weight is in
    /// range.
    pub closed spec fn wf(&self) -> bool {
        &&& forall|id: EdgeId| #[trigger]
            self.index@.contains_key(id) ==> self.index@[id] < self.edges@.len()
                && self.edges@[self.index@[id] as int].id == id
        &&& forall|i: int|
            0 <= i < self.edges@.len() ==> self.index@.contains_key((#[trigger] self.edges@[i]).id)
                && self.index@[self.edges@[i].id] == i
        &&& forall|i: int|
            0 <= i < self.edges@.len() ==> (#[trigger] self.edges@[i]).weight <= WEIGHT_ONE
    }

    /// In a well-formed graph no identity is recorded twice and every weight
    /// is at most [`WEIGHT_ONE`].
    pub proof fn lemma_edges_valid(&self)
        requires
            self.wf(),
        ensures
            forall|i: int, j: int|
                0 <= i < j < self.edges().len() ==> (#[trigger] self.edges()[i]).id != (
                #[trigger] self.edges()[j]).id,
            forall|i: int|
                0 <= i < self.edges().len() ==> (#[trigger] self.edges()[i]).weight <= WEIGHT_ONE,
    {
    }

    proof fn lemma_index_matches(&self, id: EdgeId)
        requires
            self.wf(),
        ensures
            self.index@.contains_key(id) <==> has_id(self.edges@, id),
    {
        if self.index@.contains_key(id) {
            assert(self.edges@[self.index@[id] as int].id == id);
        }
    }

    pub fn new() -> (g: Graph)
        ensures
            g.wf(),
            g.nodes() == Set::<NodeId>::empty(),
            g.edges() == Seq::<EdgeInfo>::empty(),
    {
        Graph { nodes: HashSet::new(), edges: Vec::new(), index: HashMap::new() }
    }

    /// Discards every node and every edge. Nodes and edges are never
    /// removed one by one.
    pub fn clear(&mut self)
        ensures
            final(self).wf(),
            final(self).nodes() == Set::<NodeId>::empty(),
            final(self).edges() == Seq::<EdgeInfo>::empty(),
    {
        broadcast use vstd::std_specs::hash::group_hash_axioms;

        self.nodes.clear();
        self.edges.clear();
        self.index.clear();
    }

    /// Adds a node. Adding a node that is already present changes nothing;
    /// the result tells whether the node was new.
    pub fn add_node(&mut self, id: NodeId) -> (added: bool)
        requires
            old(self).wf(),
        ensures
            final(self).wf(),
            final(self).nodes() == old(self).nodes().insert(id),
            final(self).edges() == old(self).edges(),
            added == !old(self).nodes().contains(id),
    {
        broadcast use vstd::std_specs::hash::group_hash_axioms;

        self.nodes.insert(id)
    }

    pub fn contains_node(&self, id: NodeId) -> (present: bool)
        ensures
            present == self.nodes().contains(id),
    {
        broadcast use vstd::std_specs::hash::group_hash_axioms;

        self.nodes.contains(&id)
    }

    pub fn node_count(&self) -> (n: usize)
        ensures
            n == self.nodes().len(),
    {
        broadcast use vstd::std_specs::hash::group_hash_axioms;

        self.nodes.len()
    }

    pub fn edge_count(&self) -> (n: usize)
        ensures
            n == self.edges().len(),
    {
        self.edges.len()
    }

    /// The recorded edges, oldest first.
    pub fn edge_list(&self) -> (list: &Vec<EdgeInfo>)
        ensures
            list@ == self.edges(),
    {
        &self.edges
    }

    pub fn contains_edge(&self, id: EdgeId) -> (present: bool)
        requires
            self.wf(),
        ensures
            present == has_id(self.edges(), id),
    {
        broadcast use vstd::std_specs::hash::group_hash_axioms;

        proof {
            self.lemma_index_matches(id);
        }
        self.index.contains_key(&id)
    }

    /// The edge recorded under `id`, if there is one.
    pub fn get_edge(&self, id: EdgeId) -> (found: Option<EdgeInfo>)
        requires
            self.wf(),
        ensures
            match found {
                Some(e) => e.id == id && self.edges().contains(e),
                None => !has_id(self.edges(), id),
            },
    {
        broadcast use vstd::std_specs::hash::group_hash_axioms;

        proof {
            self.lemma_index_matches(id);
        }
        match self.index.get(&id) {
            Some(pos) => {
                let e = self.edges[*pos];
                Some(e)
            },
            None => None,
        }
    }

    /// The canonical identity of `from -> to` with the given type.
    pub fn compute_edge_id(from: NodeId, to: NodeId, edge_type: u8) -> (id: EdgeId)
        ensures
            id == edge_id_of(from, to, edge_type),
    {
        (((from as u64) << 32) | (to as u64)) ^ ((edge_type as u64) << 56)
    }

    fn record(&mut self, e: EdgeInfo)
        requires
            old(self).wf(),
            !has_id(old(self).edges(), e.id),
            e.weight <= WEIGHT_ONE,
        ensures
            final(self).wf(),
            final(self).edges() == old(self).edges().push(e),
            final(self).nodes() == old(self).nodes(),
    {
        broadcast use vstd::std_specs::hash::group_hash_axioms;

        proof {
            self.lemma_index_matches(e.id);
        }
        let pos = self.edges.len();
        self.edges.push(e);
        self.index.insert(e.id, pos);
        assert forall|i: int| 0 <= i < self.edges@.len() implies self.index@.contains_key(
            (#[trigger] self.edges@[i]).id,
        ) && self.index@[self.edges@[i].id] == i by {
            if i < pos {
                assert(old(self).edges@[i].id != e.id);
            }
        }
    }

    /// Records the edge `from -> to` under `edge_id`, and with
    /// `bidirectional` also its mirror `to -> from` under the mirror's
    /// canonical identity. A loop is its own mirror and is recorded once.
    /// On any error nothing is recorded.
    pub fn add_edge(
        &mut self,
        edge_id: EdgeId,
        from: NodeId,
        to: NodeId,
        edge_type: u8,
        weight: u32,
        bidirectional: bool,
    ) -> (outcome: Result<(), GraphError>)
        requires
            old(self).wf(),
        ensures
            final(self).wf(),
            final(self).nodes() == old(self).nodes(),
            match insert_outcome(
                old(self).edges(),
                edge_id,
                from,
                to,
                edge_type,
                weight,
                bidirectional,
            ) {
                Ok(recorded) => outcome == Ok::<(), GraphError>(()) && final(self).edges()
                    == recorded,
                Err(e) => outcome == Err::<(), GraphError>(e) && final(self).edges() == old(
                    self,
                ).edges(),
            },
    {
        if weight > WEIGHT_ONE {
            return Err(GraphError::WeightOutOfRange(weight));
        }
        if self.contains_edge(edge_id) {
            return Err(GraphError::DuplicateEdge(edge_id));
        }
        let forward = EdgeInfo { id: edge_id, from_id: from, to_id: to, edge_type, weight };
        if bidirectional && from != to {
            let mirror_id = Graph::compute_edge_id(to, from, edge_type);
            if mirror_id == edge_id || self.contains_edge(mirror_id) {
                return Err(GraphError::DuplicateEdge(mirror_id));
            }
            let mirror = EdgeInfo { id: mirror_id, from_id: to, to_id: from, edge_type, weight };
            self.record(forward);
            assert(!has_id(self.edges(), mirror_id)) by {
                if has_id(self.edges(), mirror_id) {
                    let i = choose|i: int|
                        0 <= i < self.edges().len() && (#[trigger] self.edges()[i]).id == mirror_id;
                    assert(i < old(self).edges().len());
                    assert(old(self).edges()[i].id == mirror_id);
                }
            }
            self.record(mirror);
        } else {
            self.record(forward);
        }
        Ok(())
    }

    /// Replaces the weight of the edge recorded under `edge_id`: the
    /// explicit update in place.
    pub fn set_edge_weight(&mut self, edge_id: EdgeId, weight: u32) -> (outcome: Result<
        (),
        GraphError,
    >)
        requires
            old(self).wf(),
        ensures
            final(self).wf(),
            final(self).nodes() == old(self).nodes(),
            final(self).edges().len() == old(self).edges().len(),
            weight > WEIGHT_ONE ==> outcome == Err::<(), GraphError>(
                GraphError::WeightOutOfRange(weight),
            ),
            weight <= WEIGHT_ONE && !has_id(old(self).edges(), edge_id) ==> outcome == Err::<
                (),
                GraphError,
            >(GraphError::UnknownEdge(edge_id)),
            weight <= WEIGHT_ONE && has_id(old(self).edges(), edge_id) ==> outcome == Ok::<
                (),
                GraphError,
            >(()),
            outcome is Err ==> final(self).edges() == old(self).edges(),
            outcome is Ok ==> forall|i: int|
                0 <= i < old(self).edges().len() ==> #[trigger] final(self).edges()[i] == (if old(
                    self,
                ).edges()[i].id == edge_id {
                    EdgeInfo { weight, ..old(self).edges()[i] }
                } else {
                    old(self).edges()[i]
                }),
    {
        broadcast use vstd::std_specs::hash::group_hash_axioms;

        if weight > WEIGHT_ONE {
            return Err(GraphError::WeightOutOfRange(weight));
        }
        proof {
            self.lemma_index_matches(edge_id);
        }
        let pos = match self.index.get(&edge_id) {
            Some(pos) => *pos,
            None => {
                return Err(GraphError::UnknownEdge(edge_id));
            },
        };
        let e = self.edges[pos];
        self.edges.set(pos, EdgeInfo { weight, ..e });
        assert forall|i: int| 0 <= i < old(self).edges().len() implies #[trigger] self.edges()[i]
            == (if old(self).edges()[i].id == edge_id {
            EdgeInfo { weight, ..old(self).edges()[i] }
        } else {
            old(self).edges()[i]
        }) by {
            if i != pos && old(self).edges()[i].id == edge_id {
                assert(old(self).index@[old(self).edges@[i].id] == i);
            }
        }
        Ok(())
    }
}

/// Reversing a directed edge changes its canonical identity, unless the
/// edge is a loop.
pub proof fn lemma_edge_id_directed(a: NodeId, b: NodeId, edge_type: u8)
    ensures
        a != b ==> edge_id_of(a, b, edge_type) != edge_id_of(b, a, edge_type),
        a == b ==> edge_id_of(a, b, edge_type) == edge_id_of(b, a, edge_type),
{
    let x = a as u64;
    let y = b as u64;
    let t = edge_type as u64;
    assert(x <= 0xffff_ffff && y <= 0xffff_ffff && ((x << 32) | y) ^ (t << 56) == ((y << 32) | x)
        ^ (t << 56) ==> x == y) by (bit_vector);
}

/// Among edges of one type the canonical identity determines both
/// endpoints.
pub proof fn lemma_edge_id_fixes_endpoints(a: NodeId, b: NodeId, c: NodeId, d: NodeId, edge_type: u8)
    requires
        edge_id_of(a, b, edge_type) == edge_id_of(c, d, edge_type),
    ensures
        a == c,
        b == d,
{
    let x = a as u64;
    let y = b as u64;
    let z = c as u64;
    let w = d as u64;
    let t = edge_type as u64;
    assert(x <= 0xffff_ffff && y <= 0xffff_ffff && z <= 0xffff_ffff && w <= 0xffff_ffff && ((x
        << 32) | y) ^ (t << 56) == ((z << 32) | w) ^ (t << 56) ==> x == z && y == w)
        by (bit_vector);
}

/// Between two given endpoints the canonical identity determines the type.
pub proof fn lemma_edge_id_fixes_type(a: NodeId, b: NodeId, s: u8, t: u8)
    requires
        edge_id_of(a, b, s) == edge_id_of(a, b, t),
    ensures
        s == t,
{
    let x = a as u64;
    let y = b as u64;
    let p = s as u64;
    let q = t as u64;
    assert(p <= 0xff && q <= 0xff && ((x << 32) | y) ^ (p << 56) == ((x << 32) | y) ^ (q << 56)
        ==> p == q) by (bit_vector);
}

/// While source identifiers stay below 2^24 the canonical identity is
/// free of collisions: it determines endpoints and type together.
pub proof fn lemma_edge_id_injective_small(a: NodeId, b: NodeId, s: u8, c: NodeId, d: NodeId, t: u8)
    requires
        a < 0x100_0000,
        c < 0x100_0000,
        edge_id_of(a, b, s) == edge_id_of(c, d, t),
    ensures
        a == c,
        b == d,
        s == t,
{
    let x = a as u64;
    let y = b as u64;
    let z = c as u64;
    let w = d as u64;
    let p = s as u64;
    let q = t as u64;
    assert(x < 0x100_0000 && z < 0x100_0000 && y <= 0xffff_ffff && w <= 0xffff_ffff && p <= 0xff
        && q <= 0xff && ((x << 32) | y) ^ (p << 56) == ((z << 32) | w) ^ (q << 56) ==> x == z && y
        == w && p == q) by (bit_vector);
}

/// An identity that was just recorded cannot be recorded again: the second
/// insertion under it reports the duplicate and records nothing, whatever
/// edge it carries.
pub proof fn lemma_second_insert_conflicts(
    edges: Seq<EdgeInfo>,
    edge_id: EdgeId,
    from: NodeId,
    to: NodeId,
    edge_type: u8,
    weight: u32,
    bidirectional: bool,
    from2: NodeId,
    to2: NodeId,
    edge_type2: u8,
    weight2: u32,
    bidirectional2: bool,
)
    requires
        insert_outcome(edges, edge_id, from, to, edge_type, weight, bidirectional) is Ok,
        weight2 <= WEIGHT_ONE,
    ensures
        insert_outcome(
            insert_outcome(edges, edge_id, from, to, edge_type, weight, bidirectional)->Ok_0,
            edge_id,
            from2,
            to2,
            edge_type2,
            weight2,
            bidirectional2,
        ) == Err::<Seq<EdgeInfo>, GraphError>(GraphError::DuplicateEdge(edge_id)),
{
    let after = insert_outcome(edges, edge_id, from, to, edge_type, weight, bidirectional)->Ok_0;
    assert(after[edges.len() as int].id == edge_id);
}

} // verus!
