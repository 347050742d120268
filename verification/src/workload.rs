//! Workloads of a given scale: the bulk operations that fill and exercise
//! each part of the core, item by item.
//!
//! Identifiers are counted up from zero. A 32-bit identifier wraps around
//! after 2^32 items, so a workload keeps identifiers apart only up to that
//! scale.

use vstd::prelude::*;
use crate::connection_v3::updated;
use crate::connection_v3::ConnectionType;
use crate::connection_v3::ConnectionV3;
use crate::connection_v3::CONFIDENCE_INITIAL;
use crate::experience::ExperienceEvent;
use crate::experience_stream::ExperienceStream;
use crate::graph::edge_id_of;
use crate::graph::has_id;
use crate::graph::insert_outcome;
use crate::graph::lemma_edge_id_fixes_endpoints;
use crate::graph::EdgeInfo;
use crate::graph::Graph;
use crate::graph::NodeId;
use crate::graph::WEIGHT_ONE;
use crate::sampling::SamplingStrategy;
use crate::token::CoordinateSpace;
use crate::token::EntityType;
use crate::token::Token;
use crate::token::TokenView;

verus! {

/// The identifier of the item at position `i`.
pub open spec fn id_of(i: int) -> u32 {
    (i % 0x1_0000_0000) as u32
}

pub fn id_at(i: usize) -> (id: u32)
    ensures
        id == id_of(i as int),
{
    ((i as u64) % 0x1_0000_0000) as u32
}

/// Creates `scale` tokens with the identifiers `0..scale`, each with the
/// given classification and placed at `(x, y, z)` in `space`.
pub fn create_tokens(
    scale: usize,
    entity_type: EntityType,
    space: CoordinateSpace,
    x: u32,
    y: u32,
    z: u32,
) -> (tokens: Vec<Token>)
    ensures
        tokens@.len() == scale,
        forall|i: int|
            0 <= i < scale ==> (#[trigger] tokens@[i])@ == TokenView::blank(
                id_of(i),
            ).with_entity_type(entity_type).with_position(space, x, y, z),
{
    let mut tokens: Vec<Token> = Vec::with_capacity(scale);
    let mut i: usize = 0;
    while i < scale
        invariant
            i <= scale,
            tokens@.len() == i,
            forall|k: int|
                0 <= k < i ==> (#[trigger] tokens@[k])@ == TokenView::blank(
                    id_of(k),
                ).with_entity_type(entity_type).with_position(space, x, y, z),
        decreases scale - i,
    {
        let mut token = Token::new(id_at(i));
        token.set_entity_type(entity_type);
        token.set_coordinates(space, x, y, z);
        tokens.push(token);
        i = i + 1;
    }
    tokens
}

/// Gives every token the weight `weight` and the position `(x, y, z)` in
/// `space`.
pub fn update_tokens(
    tokens: &mut Vec<Token>,
    weight: u32,
    space: CoordinateSpace,
    x: u32,
    y: u32,
    z: u32,
)
    ensures
        final(tokens)@.len() == old(tokens)@.len(),
        forall|i: int|
            0 <= i < old(tokens)@.len() ==> (#[trigger] final(tokens)@[i])@ == old(
                tokens,
            )@[i]@.with_weight(weight).with_position(space, x, y, z),
{
    let n = tokens.len();
    let mut i: usize = 0;
    while i < n
        invariant
            i <= n,
            n == old(tokens)@.len(),
            tokens@.len() == n,
            forall|k: int| i <= k < n ==> #[trigger] tokens@[k] == old(tokens)@[k],
            forall|k: int|
                0 <= k < i ==> (#[trigger] tokens@[k])@ == old(tokens)@[k]@.with_weight(
                    weight,
                ).with_position(space, x, y, z),
        decreases n - i,
    {
        let mut token = tokens[i];
        token.set_weight(weight);
        token.set_coordinates(space, x, y, z);
        tokens.set(i, token);
        i = i + 1;
    }
}

/// Creates `scale` connections of the given type, the one at position `i`
/// leading from item `i` to item `i + 1`.
pub fn create_connections(scale: usize, connection_type: ConnectionType) -> (connections: Vec<
    ConnectionV3,
>)
    ensures
        connections@.len() == scale,
        forall|i: int|
            0 <= i < scale ==> {
                let c = #[trigger] connections@[i];
                &&& c.from_spec() == id_of(i)
                &&& c.to_spec() == id_of(i + 1)
                &&& c.type_spec() == connection_type
                &&& c.confidence_spec() == CONFIDENCE_INITIAL
                &&& c.activations_spec() == 0
            },
{
    let mut connections: Vec<ConnectionV3> = Vec::with_capacity(scale);
    let mut i: usize = 0;
    while i < scale
        invariant
            i <= scale,
            connections@.len() == i,
            forall|k: int|
                0 <= k < i ==> {
                    let c = #[trigger] connections@[k];
                    &&& c.from_spec() == id_of(k)
                    &&& c.to_spec() == id_of(k + 1)
                    &&& c.type_spec() == connection_type
                    &&& c.confidence_spec() == CONFIDENCE_INITIAL
                    &&& c.activations_spec() == 0
                },
        decreases scale - i,
    {
        let mut c = ConnectionV3::new(id_at(i), id_at(i + 1));
        c.set_connection_type(connection_type);
        connections.push(c);
        i = i + 1;
    }
    connections
}

/// Lets every connection fire once and applies one outcome to its
/// confidence.
pub fn reinforce_connections(connections: &mut Vec<ConnectionV3>, success: bool)
    ensures
        final(connections)@.len() == old(connections)@.len(),
        forall|i: int|
            0 <= i < old(connections)@.len() ==> {
                let before = old(connections)@[i];
                let after = #[trigger] final(connections)@[i];
                &&& after.same_edge(&before)
                &&& after.confidence_spec() == updated(before.confidence_spec(), success)
                &&& after.activations_spec() == (if before.activations_spec() < u64::MAX {
                    before.activations_spec() + 1
                } else {
                    before.activations_spec()
                })
            },
{
    let n = connections.len();
    let mut i: usize = 0;
    while i < n
        invariant
            i <= n,
            n == old(connections)@.len(),
            connections@.len() == n,
            forall|k: int| i <= k < n ==> #[trigger] connections@[k] == old(connections)@[k],
            forall|k: int|
                0 <= k < i ==> {
                    let before = old(connections)@[k];
                    let after = #[trigger] connections@[k];
                    &&& after.same_edge(&before)
                    &&& after.confidence_spec() == updated(before.confidence_spec(), success)
                    &&& after.activations_spec() == (if before.activations_spec() < u64::MAX {
                        before.activations_spec() + 1
                    } else {
                        before.activations_spec()
                    })
                },
        decreases n - i,
    {
        let mut c = connections[i];
        c.activate();
        c.update_confidence(success);
        connections.set(i, c);
        i = i + 1;
    }
}

/// Adds the nodes `0..count` to the graph.
pub fn add_nodes(graph: &mut Graph, count: usize)
    requires
        old(graph).wf(),
    ensures
        final(graph).wf(),
        final(graph).edges() == old(graph).edges(),
        forall|v: NodeId|
            final(graph).nodes().contains(v) <==> old(graph).nodes().contains(v) || v < count,
{
    let mut i: usize = 0;
    while i < count
        invariant
            i <= count,
            graph.wf(),
            graph.edges() == old(graph).edges(),
            forall|v: NodeId|
                graph.nodes().contains(v) <==> old(graph).nodes().contains(v) || v < i,
        decreases count - i,
    {
        graph.add_node(id_at(i));
        i = i + 1;
    }
}

/// The edge of a chain that leads from item `i` to item `i + 1`.
pub open spec fn chain_edge(i: int, edge_type: u8, weight: u32) -> EdgeInfo {
    EdgeInfo {
        id: edge_id_of(id_of(i), id_of(i + 1), edge_type),
        from_id: id_of(i),
        to_id: id_of(i + 1),
        edge_type,
        weight,
    }
}

/// The edges after the first `links` edges of a chain were offered to the
/// graph one by one, each under its canonical identity. An edge that the
/// graph refuses is left out.
pub open spec fn linked(edges: Seq<EdgeInfo>, links: nat, edge_type: u8, weight: u32) -> Seq<
    EdgeInfo,
>
    decreases links,
{
    if links == 0 {
        edges
    } else {
        let before = linked(edges, (links - 1) as nat, edge_type, weight);
        let e = chain_edge(links - 1, edge_type, weight);
        match insert_outcome(before, e.id, e.from_id, e.to_id, edge_type, weight, false) {
            Ok(after) => after,
            Err(_) => before,
        }
    }
}

/// Links the items `0..count` into a chain: offers the edges `i -> i + 1`
/// to the graph, each under its canonical identity, and tells how many the
/// graph recorded.
pub fn link_chain(graph: &mut Graph, count: usize, edge_type: u8, weight: u32) -> (recorded: usize)
    requires
        old(graph).wf(),
    ensures
        final(graph).wf(),
        final(graph).nodes() == old(graph).nodes(),
        final(graph).edges() == linked(
            old(graph).edges(),
            (if count == 0 {
                0
            } else {
                count - 1
            }) as nat,
            edge_type,
            weight,
        ),
        final(graph).edges().len() == old(graph).edges().len() + recorded,
        recorded < count || count == 0,
{
    let links = if count == 0 {
        0
    } else {
        count - 1
    };
    let mut recorded: usize = 0;
    let mut i: usize = 0;
    while i < links
        invariant
            i <= links,
            recorded <= i,
            graph.wf(),
            graph.nodes() == old(graph).nodes(),
            graph.edges() == linked(old(graph).edges(), i as nat, edge_type, weight),
            graph.edges().len() == old(graph).edges().len() + recorded,
        decreases links - i,
    {
        let from = id_at(i);
        let to = id_at(i + 1);
        let id = Graph::compute_edge_id(from, to, edge_type);
        match graph.add_edge(id, from, to, edge_type, weight, false) {
            Ok(()) => {
                recorded = recorded + 1;
            },
            Err(_) => {},
        }
        i = i + 1;
    }
    recorded
}

/// On a graph without edges a chain of up to 2^32 items is recorded whole,
/// edge after edge, provided its weight is in range.
pub proof fn lemma_chain_recorded_whole(links: nat, edge_type: u8, weight: u32)
    requires
        links < 0x1_0000_0000,
        weight <= WEIGHT_ONE,
    ensures
        linked(Seq::empty(), links, edge_type, weight) == Seq::new(
            links,
            |i: int| chain_edge(i, edge_type, weight),
        ),
    decreases links,
{
    let whole = Seq::new(links, |i: int| chain_edge(i, edge_type, weight));
    if links > 0 {
        let fewer = (links - 1) as nat;
        lemma_chain_recorded_whole(fewer, edge_type, weight);
        let before = linked(Seq::empty(), fewer, edge_type, weight);
        let e = chain_edge(links - 1, edge_type, weight);
        assert(!has_id(before, e.id)) by {
            if has_id(before, e.id) {
                let i = choose|i: int| 0 <= i < before.len() && (#[trigger] before[i]).id == e.id;
                lemma_edge_id_fixes_endpoints(
                    id_of(i),
                    id_of(i + 1),
                    id_of(links - 1),
                    id_of(links as int),
                    edge_type,
                );
            }
        }
        assert(before.push(e) =~= whole);
    } else {
        assert(linked(Seq::empty(), links, edge_type, weight) =~= whole);
    }
}

/// Writes `count` events into the stream, with the identifiers `0..count`
/// and `first_state` as the first component of the state; everything else
/// is zero. Tells how many the stream accepted, which is all of them.
pub fn ingest(stream: &ExperienceStream, count: usize, first_state: u32) -> (accepted: usize)
    ensures
        accepted == count,
{
    let mut accepted: usize = 0;
    let mut i: usize = 0;
    while i < count
        invariant
            i <= count,
            accepted == i,
        decreases count - i,
    {
        let mut event = ExperienceEvent::new(i as u128);
        event.state[0] = first_state;
        match stream.write_event(event) {
            Ok(_) => {
                accepted = accepted + 1;
            },
            Err(_) => {},
        }
        i = i + 1;
    }
    accepted
}

/// Samples the stream `cycles` times and tells how many events the batches
/// held in all, saturating.
pub fn sample_cycles(
    stream: &ExperienceStream,
    cycles: usize,
    batch_size: usize,
    strategy: SamplingStrategy,
) -> (sampled: usize)
    ensures
        sampled <= cycles * batch_size,
        sampled <= cycles * stream.window_size_spec(),
        sampled <= cycles * stream.capacity_spec(),
{
    let mut sampled: usize = 0;
    let mut i: usize = 0;
    while i < cycles
        invariant
            i <= cycles,
            sampled <= i * batch_size,
            sampled <= i * stream.window_size_spec(),
            sampled <= i * stream.capacity_spec(),
        decreases cycles - i,
    {
        let batch = stream.sample_batch(batch_size, strategy);
        proof {
            assert((i + 1) * batch_size == i * batch_size + batch_size) by (nonlinear_arith);
            assert((i + 1) * stream.window_size_spec() == i * stream.window_size_spec()
                + stream.window_size_spec()) by (nonlinear_arith);
            assert((i + 1) * stream.capacity_spec() == i * stream.capacity_spec()
                + stream.capacity_spec()) by (nonlinear_arith);
        }
        sampled = sampled.saturating_add(batch.len());
        i = i + 1;
    }
    sampled
}

} // verus!
