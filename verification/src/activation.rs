//! Activation propagation: a signal placed on a source node spreads along
//! the edges of a graph, level by level, losing strength at every hop.
//!
//! Strengths are integers. An edge passes on the share of a signal given by
//! its weight, and the configuration keeps a further share per hop; both are
//! counted in millionths and both round down. What arrives at a node is
//! folded together by the configured [`AccumulationMode`].

use vstd::prelude::*;
use std::collections::HashMap;
use crate::graph::EdgeInfo;
use crate::graph::Graph;
use crate::graph::NodeId;
use crate::graph::WEIGHT_ONE;

verus! {

/// How signals that reach the same node are folded together.
#[derive(Clone, Copy, Debug, PartialEq, Eq, Structural)]
pub enum AccumulationMode {
    /// Signals add up, saturating at `u64::MAX`.
    Sum,
    /// The strongest signal counts.
    Max,
    /// The first signal to arrive counts and later ones are ignored, so a
    /// node's strength can only fall with its distance from the source.
    Decay,
}

#[derive(Clone, Copy, Debug, PartialEq, Eq, Structural)]
pub struct SignalConfig {
    /// The number of hops after which propagation stops.
    pub max_depth: u32,
    /// The share of a signal that survives one hop, in millionths. Values
    /// above [`WEIGHT_ONE`] count as [`WEIGHT_ONE`].
    pub retention: u32,
    /// Signals weaker than this are not passed on.
    pub min_strength: u64,
    pub accumulation: AccumulationMode,
}

/// A node that the signal reached.
#[derive(Clone, Copy, Debug, PartialEq, Eq, Structural)]
pub struct ActivatedNode {
    pub node_id: NodeId,
    /// The accumulated strength, always positive.
    pub strength: u64,
    /// The number of hops after which the node was first reached.
    pub depth: u32,
}

/// The nodes that a propagation reached, each listed once.
#[derive(Debug)]
pub struct ActivationResult {
    pub nodes: Vec<ActivatedNode>,
}

/// A share in millionths, with everything above one counted as one.
pub open spec fn capped(share: u32) -> int {
    if share <= WEIGHT_ONE {
        share as int
    } else {
        WEIGHT_ONE as int
    }
}

/// The strength left of `strength` after one hop over an edge of the given
/// weight.
pub open spec fn attenuated(strength: int, weight: u32, retention: u32) -> int {
    (strength * capped(weight)) / (WEIGHT_ONE as int) * capped(retention) / (WEIGHT_ONE as int)
}

/// What a node holding `strength` passes over an edge of the given weight:
/// the attenuated strength, or nothing if that is below the threshold.
pub open spec fn transmitted(config: SignalConfig, strength: int, weight: u32) -> int {
    let a = attenuated(strength, weight, config.retention);
    if a >= config.min_strength {
        a
    } else {
        0
    }
}

/// The strength a node holds after `arriving` joins what it `held`.
pub open spec fn combined(mode: AccumulationMode, held: int, arriving: int) -> int {
    match mode {
        AccumulationMode::Sum => if held + arriving > u64::MAX {
            u64::MAX as int
        } else {
            held + arriving
        },
        AccumulationMode::Max => if held >= arriving {
            held
        } else {
            arriving
        },
        AccumulationMode::Decay => if held > 0 {
            held
        } else {
            arriving
        },
    }
}

/// One propagation run: the edges it spreads over, oldest first, its
/// configuration, and the signal it starts from.
pub struct Propagation {
    pub edges: Seq<EdgeInfo>,
    pub config: SignalConfig,
    pub source: NodeId,
    pub initial: u64,
}

impl Propagation {
    /// The strength that reaches `node` after exactly `hops` hops.
    pub open spec fn level(self, hops: nat, node: NodeId) -> int
        decreases hops, 0nat,
    {
        if hops == 0 {
            if node == self.source {
                self.initial as int
            } else {
                0
            }
        } else {
            self.arriving((hops - 1) as nat, node, self.edges.len())
        }
    }

    /// What the first `upto` edges deliver to `node` from the nodes that
    /// hold a signal after `hops` hops.
    pub open spec fn arriving(self, hops: nat, node: NodeId, upto: nat) -> int
        decreases hops, upto + 1,
    {
        if upto == 0 || upto > self.edges.len() {
            0
        } else {
            let e = self.edges[upto - 1];
            let before = self.arriving(hops, node, (upto - 1) as nat);
            if e.to_id == node {
                combined(
                    self.config.accumulation,
                    before,
                    transmitted(self.config, self.level(hops, e.from_id), e.weight),
                )
            } else {
                before
            }
        }
    }

    /// The strength accumulated at `node` over the levels `0..=depth`.
    pub open spec fn total(self, depth: nat, node: NodeId) -> int
        decreases depth,
    {
        if depth == 0 {
            self.level(0, node)
        } else {
            combined(
                self.config.accumulation,
                self.total((depth - 1) as nat, node),
                self.level(depth, node),
            )
        }
    }

    /// `node` receives a signal after `depth` hops and none earlier.
    pub open spec fn first_reached(self, node: NodeId, depth: nat) -> bool {
        &&& self.level(depth, node) > 0
        &&& forall|k: nat| k < depth ==> #[trigger] self.level(k, node) == 0
    }

    /// `nodes` lists exactly the nodes with a positive accumulated strength,
    /// each once, with that strength and the depth of its first arrival,
    /// nearer nodes before farther ones.
    pub open spec fn described_by(self, nodes: Seq<ActivatedNode>) -> bool {
        let depth = self.config.max_depth as nat;
        &&& by_depth(nodes)
        &&& forall|i: int|
            0 <= i < nodes.len() ==> {
                &&& (#[trigger] nodes[i]).strength == self.total(depth, nodes[i].node_id)
                &&& nodes[i].strength > 0
                &&& nodes[i].depth <= depth
                &&& self.first_reached(nodes[i].node_id, nodes[i].depth as nat)
            }
        &&& forall|i: int, j: int|
            0 <= i < j < nodes.len() ==> (#[trigger] nodes[i]).node_id != (
            #[trigger] nodes[j]).node_id
        &&& forall|v: NodeId| #[trigger]
            self.total(depth, v) > 0 ==> exists|i: int|
                0 <= i < nodes.len() && (#[trigger] nodes[i]).node_id == v
    }
}

/// The depths never fall along the list.
pub open spec fn by_depth(nodes: Seq<ActivatedNode>) -> bool {
    forall|i: int, j: int|
        0 <= i < j < nodes.len() ==> (#[trigger] nodes[i]).depth <= (#[trigger] nodes[j]).depth
}

/// The strength listed for `node`, or zero if it is not listed.
pub open spec fn strength_in(nodes: Seq<ActivatedNode>, node: NodeId) -> u64
    decreases nodes.len(),
{
    if nodes.len() == 0 {
        0
    } else if nodes.last().node_id == node {
        nodes.last().strength
    } else {
        strength_in(nodes.drop_last(), node)
    }
}

/// A hop never strengthens a signal.
pub proof fn lemma_attenuated_bounds(strength: int, weight: u32, retention: u32)
    requires
        0 <= strength,
    ensures
        0 <= attenuated(strength, weight, retention) <= strength,
        0 <= (strength * capped(weight)) / (WEIGHT_ONE as int) <= strength,
{
    let s = strength;
    let w = capped(weight);
    let r = capped(retention);
    let one = WEIGHT_ONE as int;
    assert(0 <= s * w <= s * one) by (nonlinear_arith)
        requires
            0 <= s,
            0 <= w <= one,
    ;
    let a = (s * w) / one;
    assert(0 <= a <= s) by (nonlinear_arith)
        requires
            0 <= s * w <= s * one,
            one == 1_000_000,
            a == (s * w) / one,
    ;
    assert(0 <= a * r <= a * one) by (nonlinear_arith)
        requires
            0 <= a,
            0 <= r <= one,
    ;
    let b = (a * r) / one;
    assert(0 <= b <= a) by (nonlinear_arith)
        requires
            0 <= a * r <= a * one,
            one == 1_000_000,
            b == (a * r) / one,
    ;
}

/// Folding never loses a signal and never invents one: the result is
/// positive exactly when one of the two parts is, and stays a `u64`.
pub proof fn lemma_combined_bounds(mode: AccumulationMode, held: int, arriving: int)
    requires
        0 <= held <= u64::MAX,
        0 <= arriving <= u64::MAX,
    ensures
        0 <= combined(mode, held, arriving) <= u64::MAX,
        combined(mode, held, arriving) > 0 <==> (held > 0 || arriving > 0),
        combined(mode, held, 0) == held,
        combined(mode, held, arriving) >= held,
{
}

impl Propagation {
    /// Every level and every delivery is a `u64`.
    pub proof fn lemma_in_range(self, hops: nat, node: NodeId, upto: nat)
        ensures
            0 <= self.level(hops, node) <= u64::MAX,
            0 <= self.arriving(hops, node, upto) <= u64::MAX,
        decreases hops, upto + 1,
    {
        if hops > 0 {
            self.lemma_in_range((hops - 1) as nat, node, self.edges.len());
        }
        if !(upto == 0 || upto > self.edges.len()) {
            let e = self.edges[upto - 1];
            self.lemma_in_range(hops, node, (upto - 1) as nat);
            self.lemma_in_range(hops, e.from_id, 0);
            let held = self.level(hops, e.from_id);
            lemma_attenuated_bounds(held, e.weight, self.config.retention);
            lemma_combined_bounds(
                self.config.accumulation,
                self.arriving(hops, node, (upto - 1) as nat),
                transmitted(self.config, held, e.weight),
            );
        }
    }

    /// Every total is a `u64`, and it is zero exactly where every level up
    /// to that depth is.
    pub proof fn lemma_total_in_range(self, depth: nat, node: NodeId)
        ensures
            0 <= self.total(depth, node) <= u64::MAX,
            self.total(depth, node) == 0 <==> forall|k: nat|
                k <= depth ==> #[trigger] self.level(k, node) == 0,
        decreases depth,
    {
        self.lemma_in_range(depth, node, 0);
        if depth > 0 {
            self.lemma_total_in_range((depth - 1) as nat, node);
            lemma_combined_bounds(
                self.config.accumulation,
                self.total((depth - 1) as nat, node),
                self.level(depth, node),
            );
            if self.total(depth, node) == 0 {
                assert forall|k: nat| k <= depth implies #[trigger] self.level(k, node) == 0 by {
                    if k < depth {
                        assert(k <= (depth - 1) as nat);
                    }
                }
            }
            if forall|k: nat| k <= depth ==> #[trigger] self.level(k, node) == 0 {
                assert(self.level(depth, node) == 0);
                assert forall|k: nat| k <= (depth - 1) as nat implies #[trigger] self.level(
                    k,
                    node,
                ) == 0 by {
                    assert(k <= depth);
                }
            }
        } else {
            if self.total(depth, node) == 0 {
                assert forall|k: nat| k <= depth implies #[trigger] self.level(k, node) == 0 by {
                    assert(k == 0);
                }
            }
            if forall|k: nat| k <= depth ==> #[trigger] self.level(k, node) == 0 {
                assert(self.level(0, node) == 0);
            }
        }
    }

    /// Where no node holds a signal after `hops` hops, the first `upto`
    /// edges deliver nothing.
    proof fn lemma_silence_delivers_nothing(self, hops: nat, node: NodeId, upto: nat)
        requires
            forall|v: NodeId| #[trigger] self.level(hops, v) == 0,
        ensures
            self.arriving(hops, node, upto) == 0,
        decreases upto,
    {
        if !(upto == 0 || upto > self.edges.len()) {
            self.lemma_silence_delivers_nothing(hops, node, (upto - 1) as nat);
            let e = self.edges[upto - 1];
            assert(self.level(hops, e.from_id) == 0);
            lemma_attenuated_bounds(0, e.weight, self.config.retention);
        }
    }

    /// Once a level is silent every later level is silent too, and the
    /// totals no longer change.
    pub proof fn lemma_silence_lasts(self, hops: nat, later: nat)
        requires
            hops <= later,
            forall|v: NodeId| #[trigger] self.level(hops, v) == 0,
        ensures
            forall|v: NodeId| #[trigger] self.level(later, v) == 0,
            forall|v: NodeId| #[trigger] self.total(later, v) == self.total(hops, v),
        decreases later - hops,
    {
        if hops < later {
            let before = (later - 1) as nat;
            self.lemma_silence_lasts(hops, before);
            assert forall|v: NodeId| #[trigger] self.level(later, v) == 0 by {
                self.lemma_silence_delivers_nothing(before, v, self.edges.len());
            }
            assert forall|v: NodeId| #[trigger] self.total(later, v) == self.total(hops, v) by {
                assert(self.level(later, v) == 0);
                self.lemma_total_in_range(before, v);
                lemma_combined_bounds(self.config.accumulation, self.total(before, v), 0);
                assert(self.total(before, v) == self.total(hops, v));
            }
        }
    }
}

impl Propagation {
    /// Unless signals add up, no node ever holds more than the source was
    /// given: hops only weaken a signal.
    pub proof fn lemma_no_amplification(self, hops: nat, node: NodeId, upto: nat)
        requires
            self.config.accumulation != AccumulationMode::Sum,
        ensures
            self.level(hops, node) <= self.initial,
            self.arriving(hops, node, upto) <= self.initial,
        decreases hops, upto + 1,
    {
        if hops > 0 {
            self.lemma_no_amplification((hops - 1) as nat, node, self.edges.len());
        }
        if !(upto == 0 || upto > self.edges.len()) {
            let e = self.edges[upto - 1];
            self.lemma_no_amplification(hops, node, (upto - 1) as nat);
            self.lemma_no_amplification(hops, e.from_id, 0);
            self.lemma_in_range(hops, e.from_id, 0);
            lemma_attenuated_bounds(self.level(hops, e.from_id), e.weight, self.config.retention);
        }
    }

    /// Unless signals add up, no accumulated strength exceeds what the
    /// source was given.
    pub proof fn lemma_total_no_amplification(self, depth: nat, node: NodeId)
        requires
            self.config.accumulation != AccumulationMode::Sum,
        ensures
            self.total(depth, node) <= self.initial,
        decreases depth,
    {
        self.lemma_no_amplification(depth, node, 0);
        if depth > 0 {
            self.lemma_total_no_amplification((depth - 1) as nat, node);
        }
    }

    /// `node` is not the source and exactly one edge, the one at position
    /// `only`, leads into it; that edge comes from `from`.
    pub open spec fn single_inflow(self, node: NodeId, from: NodeId, only: int) -> bool {
        &&& node != self.source
        &&& 0 <= only < self.edges.len()
        &&& self.edges[only].to_id == node
        &&& self.edges[only].from_id == from
        &&& forall|i: int|
            0 <= i < self.edges.len() && i != only ==> (#[trigger] self.edges[i]).to_id != node
    }

    proof fn lemma_single_delivery(self, node: NodeId, from: NodeId, only: int, hops: nat, upto: nat)
        requires
            self.single_inflow(node, from, only),
            upto <= self.edges.len(),
        ensures
            self.arriving(hops, node, upto) == (if upto > only {
                transmitted(self.config, self.level(hops, from), self.edges[only].weight)
            } else {
                0
            }),
            0 <= self.arriving(hops, node, upto) <= self.level(hops, from),
        decreases upto,
    {
        self.lemma_in_range(hops, from, 0);
        lemma_attenuated_bounds(
            self.level(hops, from),
            self.edges[only].weight,
            self.config.retention,
        );
        if upto > 0 {
            self.lemma_single_delivery(node, from, only, hops, (upto - 1) as nat);
        }
    }

    proof fn lemma_inflow_lags(self, node: NodeId, from: NodeId, only: int, depth: nat)
        requires
            self.single_inflow(node, from, only),
            self.config.accumulation != AccumulationMode::Decay,
        ensures
            depth == 0 ==> self.total(depth, node) == 0,
            depth > 0 ==> self.total(depth, node) <= self.total((depth - 1) as nat, from),
        decreases depth,
    {
        if depth > 0 {
            let before = (depth - 1) as nat;
            self.lemma_inflow_lags(node, from, only, before);
            self.lemma_single_delivery(node, from, only, before, self.edges.len());
            self.lemma_total_in_range(before, node);
            self.lemma_total_in_range(before, from);
            self.lemma_in_range(before, from, 0);
            if before > 0 {
                self.lemma_total_in_range((before - 1) as nat, from);
            }
        }
    }

    /// No amplification along a single inflow: where signals are summed or
    /// the strongest counts, a node that is fed by one edge alone never
    /// accumulates more than the node that feeds it.
    pub proof fn lemma_single_inflow_no_amplification(
        self,
        node: NodeId,
        from: NodeId,
        only: int,
        depth: nat,
    )
        requires
            self.single_inflow(node, from, only),
            self.config.accumulation != AccumulationMode::Decay,
        ensures
            self.total(depth, node) <= self.total(depth, from),
    {
        self.lemma_inflow_lags(node, from, only, depth);
        self.lemma_total_in_range(depth, from);
        if depth > 0 {
            self.lemma_total_in_range((depth - 1) as nat, from);
            self.lemma_in_range(depth, from, 0);
        }
    }

    /// Where `nodes` describes the run, looking a node up in it gives its
    /// accumulated strength, and zero for a node that was not reached.
    pub proof fn lemma_strength_in(self, nodes: Seq<ActivatedNode>, node: NodeId)
        requires
            self.described_by(nodes),
        ensures
            strength_in(nodes, node) == self.total(self.config.max_depth as nat, node),
    {
        let depth = self.config.max_depth as nat;
        self.lemma_total_in_range(depth, node);
        lemma_strength_in_listed(nodes, node);
        if self.total(depth, node) > 0 {
            let i = choose|i: int| 0 <= i < nodes.len() && (#[trigger] nodes[i]).node_id == node;
            assert(nodes[i].node_id == node);
        }
    }
}

/// What [`strength_in`] finds: the strength of a listed node, if no node is
/// listed twice, and zero for a node that is not listed.
pub proof fn lemma_strength_in_listed(nodes: Seq<ActivatedNode>, node: NodeId)
    ensures
        (forall|i: int| 0 <= i < nodes.len() ==> (#[trigger] nodes[i]).node_id != node)
            ==> strength_in(nodes, node) == 0,
        (forall|i: int, j: int|
            0 <= i < j < nodes.len() ==> (#[trigger] nodes[i]).node_id != (
            #[trigger] nodes[j]).node_id) ==> forall|i: int|
            0 <= i < nodes.len() && (#[trigger] nodes[i]).node_id == node ==> strength_in(
                nodes,
                node,
            ) == nodes[i].strength,
    decreases nodes.len(),
{
    if nodes.len() > 0 {
        let front = nodes.drop_last();
        lemma_strength_in_listed(front, node);
        if forall|i: int, j: int|
            0 <= i < j < nodes.len() ==> (#[trigger] nodes[i]).node_id != (
            #[trigger] nodes[j]).node_id {
            assert forall|i: int, j: int| 0 <= i < j < front.len() implies (
            #[trigger] front[i]).node_id != (#[trigger] front[j]).node_id by {
                assert(front[i] == nodes[i] && front[j] == nodes[j]);
            }
            assert forall|i: int|
                0 <= i < nodes.len() && (#[trigger] nodes[i]).node_id == node implies strength_in(
                nodes,
                node,
            ) == nodes[i].strength by {
                if i < nodes.len() - 1 {
                    assert(front[i] == nodes[i]);
                    assert(nodes[i].node_id != nodes[nodes.len() - 1].node_id);
                }
            }
        }
        if forall|i: int| 0 <= i < nodes.len() ==> (#[trigger] nodes[i]).node_id != node {
            assert forall|i: int| 0 <= i < front.len() implies (#[trigger] front[i]).node_id
                != node by {
                assert(front[i] == nodes[i]);
            }
            assert(nodes[nodes.len() - 1].node_id != node);
        }
    }
}

impl ActivationResult {
    /// The entry of `node`, if the signal reached it.
    pub fn find(&self, node: NodeId) -> (found: Option<ActivatedNode>)
        ensures
            match found {
                Some(n) => n.node_id == node && n.strength == strength_in(self.nodes@, node)
                    && self.nodes@.contains(n),
                None => strength_in(self.nodes@, node) == 0 && forall|i: int|
                    0 <= i < self.nodes@.len() ==> (#[trigger] self.nodes@[i]).node_id != node,
            },
    {
        let mut i = self.nodes.len();
        assert(self.nodes@.take(i as int) =~= self.nodes@);
        while i > 0
            invariant
                i <= self.nodes@.len(),
                strength_in(self.nodes@, node) == strength_in(self.nodes@.take(i as int), node),
                forall|k: int| i <= k < self.nodes@.len() ==> (#[trigger] self.nodes@[k]).node_id != node,
            decreases i,
        {
            proof {
                assert(self.nodes@.take(i as int).drop_last() =~= self.nodes@.take(i - 1));
            }
            i = i - 1;
            if self.nodes[i].node_id == node {
                return Some(self.nodes[i]);
            }
        }
        None
    }

    /// The accumulated strength of `node`, zero if the signal did not
    /// reach it.
    pub fn strength_of(&self, node: NodeId) -> (strength: u64)
        ensures
            strength == strength_in(self.nodes@, node),
    {
        match self.find(node) {
            Some(n) => n.strength,
            None => 0,
        }
    }

    /// The number of nodes reached.
    pub fn len(&self) -> (n: usize)
        ensures
            n == self.nodes@.len(),
    {
        self.nodes.len()
    }
}

/// The strength left of `strength` after one hop.
pub fn attenuate(strength: u64, weight: u32, retention: u32) -> (left: u64)
    ensures
        left == attenuated(strength as int, weight, retention),
        left <= strength,
{
    let w = if weight <= WEIGHT_ONE {
        weight
    } else {
        WEIGHT_ONE
    };
    let r = if retention <= WEIGHT_ONE {
        retention
    } else {
        WEIGHT_ONE
    };
    proof {
        lemma_attenuated_bounds(strength as int, weight, retention);
        assert(strength * w <= u64::MAX * WEIGHT_ONE) by (nonlinear_arith)
            requires
                0 <= strength <= u64::MAX,
                0 <= w <= WEIGHT_ONE,
        ;
    }
    let over_edge: u128 = (strength as u128) * (w as u128) / (WEIGHT_ONE as u128);
    proof {
        assert(over_edge * r <= u64::MAX * WEIGHT_ONE) by (nonlinear_arith)
            requires
                0 <= over_edge <= u64::MAX,
                0 <= r <= WEIGHT_ONE,
        ;
    }
    let kept: u128 = over_edge * (r as u128) / (WEIGHT_ONE as u128);
    kept as u64
}

/// What a node holding `strength` passes over an edge of the given weight.
pub fn transmit(config: &SignalConfig, strength: u64, weight: u32) -> (passed: u64)
    ensures
        passed == transmitted(*config, strength as int, weight),
        passed <= strength,
{
    let a = attenuate(strength, weight, config.retention);
    if a >= config.min_strength {
        a
    } else {
        0
    }
}

/// The strength a node holds after `arriving` joins what it `held`.
pub fn combine(mode: AccumulationMode, held: u64, arriving: u64) -> (folded: u64)
    ensures
        folded == combined(mode, held as int, arriving as int),
{
    match mode {
        AccumulationMode::Sum => held.saturating_add(arriving),
        AccumulationMode::Max => if held >= arriving {
            held
        } else {
            arriving
        },
        AccumulationMode::Decay => if held > 0 {
            held
        } else {
            arriving
        },
    }
}

impl Propagation {
    /// What the working state holds for one reached node once the first
    /// `upto` edges have delivered what the nodes hold after `hops` hops:
    /// the entry `n` with the total so far, the strength `current` at this
    /// level, and the strength `pending` for the next.
    spec fn tracks(self, hops: nat, upto: nat, n: ActivatedNode, current: u64, pending: u64) -> bool {
        &&& current == self.level(hops, n.node_id)
        &&& pending == self.arriving(hops, n.node_id, upto)
        &&& n.strength == self.total(hops, n.node_id)
        &&& (n.strength > 0 || pending > 0)
        &&& if n.strength > 0 {
            n.depth <= hops && self.first_reached(n.node_id, n.depth as nat)
        } else {
            n.depth == hops + 1
        }
    }

    /// What the edge at position `upto` adds to the pending strength of
    /// `node`.
    spec fn delivered(self, hops: nat, upto: nat, node: NodeId, pending: int) -> int {
        let e = self.edges[upto as int];
        if e.to_id == node {
            combined(
                self.config.accumulation,
                pending,
                transmitted(self.config, self.level(hops, e.from_id), e.weight),
            )
        } else {
            pending
        }
    }

    proof fn lemma_delivery(self, hops: nat, upto: nat, node: NodeId)
        requires
            upto < self.edges.len(),
        ensures
            self.arriving(hops, node, upto + 1) == self.delivered(
                hops,
                upto,
                node,
                self.arriving(hops, node, upto),
            ),
            0 <= self.arriving(hops, node, upto + 1) <= u64::MAX,
            0 <= transmitted(
                self.config,
                self.level(hops, self.edges[upto as int].from_id),
                self.edges[upto as int].weight,
            ) <= u64::MAX,
            self.arriving(hops, node, upto + 1) >= self.arriving(hops, node, upto),
    {
        let e = self.edges[upto as int];
        self.lemma_in_range(hops, node, upto + 1);
        self.lemma_in_range(hops, node, upto);
        self.lemma_in_range(hops, e.from_id, 0);
        lemma_attenuated_bounds(self.level(hops, e.from_id), e.weight, self.config.retention);
        lemma_combined_bounds(
            self.config.accumulation,
            self.arriving(hops, node, upto),
            transmitted(self.config, self.level(hops, e.from_id), e.weight),
        );
    }

    /// An entry stays right when the next edge delivers.
    proof fn lemma_tracks_delivery(
        self,
        hops: nat,
        upto: nat,
        n: ActivatedNode,
        current: u64,
        pending: u64,
    )
        requires
            self.tracks(hops, upto, n, current, pending),
            upto < self.edges.len(),
        ensures
            0 <= self.delivered(hops, upto, n.node_id, pending as int) <= u64::MAX,
            self.tracks(
                hops,
                upto + 1,
                n,
                current,
                self.delivered(hops, upto, n.node_id, pending as int) as u64,
            ),
    {
        self.lemma_delivery(hops, upto, n.node_id);
    }

    /// The entry of a node that the edge at position `upto` reaches first.
    proof fn lemma_tracks_new(self, hops: nat, upto: nat, node: NodeId, depth: u32)
        requires
            upto < self.edges.len(),
            self.edges[upto as int].to_id == node,
            self.total(hops, node) == 0,
            self.arriving(hops, node, upto) == 0,
            self.delivered(hops, upto, node, 0) > 0,
            depth == hops + 1,
        ensures
            self.delivered(hops, upto, node, 0) <= u64::MAX,
            self.tracks(
                hops,
                upto + 1,
                ActivatedNode { node_id: node, strength: 0, depth },
                0,
                self.delivered(hops, upto, node, 0) as u64,
            ),
    {
        self.lemma_delivery(hops, upto, node);
        self.lemma_total_in_range(hops, node);
    }

    /// An entry after its level is closed: the pending strength joins the
    /// total and becomes the current strength.
    proof fn lemma_tracks_settled(self, hops: nat, n: ActivatedNode, current: u64, pending: u64)
        requires
            self.tracks(hops, self.edges.len(), n, current, pending),
        ensures
            0 < combined(self.config.accumulation, n.strength as int, pending as int) <= u64::MAX,
            n.depth <= hops + 1,
            self.level(hops + 1, n.node_id) == pending,
            self.tracks(
                hops + 1,
                0,
                ActivatedNode {
                    node_id: n.node_id,
                    strength: combined(
                        self.config.accumulation,
                        n.strength as int,
                        pending as int,
                    ) as u64,
                    depth: n.depth,
                },
                pending,
                0,
            ),
    {
        lemma_combined_bounds(self.config.accumulation, n.strength as int, pending as int);
        self.lemma_total_in_range(hops, n.node_id);
        assert(self.level(hops + 1, n.node_id) == self.arriving(
            hops,
            n.node_id,
            self.edges.len(),
        ));
        assert(self.total(hops + 1, n.node_id) == combined(
            self.config.accumulation,
            self.total(hops, n.node_id),
            self.level(hops + 1, n.node_id),
        ));
        if n.strength == 0 {
            assert forall|k: nat| k < hops + 1 implies #[trigger] self.level(k, n.node_id)
                == 0 by {
                assert(k <= hops);
            }
            assert(self.first_reached(n.node_id, n.depth as nat));
        }
    }

    /// A node that was not reached stays unreached when nothing is
    /// delivered to it.
    proof fn lemma_unreached(self, hops: nat, node: NodeId)
        requires
            self.total(hops, node) == 0,
            self.arriving(hops, node, self.edges.len()) == 0,
        ensures
            self.total(hops + 1, node) == 0,
            self.level(hops + 1, node) == 0,
            self.arriving(hops + 1, node, 0) == 0,
    {
        assert(self.level(hops + 1, node) == self.arriving(hops, node, self.edges.len()));
        assert(self.total(hops + 1, node) == combined(
            self.config.accumulation,
            self.total(hops, node),
            self.level(hops + 1, node),
        ));
    }
}

/// The working state of a propagation: the nodes reached so far with their
/// totals, what each holds at the level just completed, and what has been
/// delivered to each for the next level.
struct Wave {
    nodes: Vec<ActivatedNode>,
    current: Vec<u64>,
    pending: Vec<u64>,
    slot: HashMap<NodeId, usize>,
}

impl Wave {
    /// `slot` tells where each reached node stands in `nodes`.
    spec fn indexed(&self) -> bool {
        &&& self.current@.len() == self.nodes@.len()
        &&& self.pending@.len() == self.nodes@.len()
        &&& forall|v: NodeId| #[trigger]
            self.slot@.contains_key(v) ==> self.slot@[v] < self.nodes@.len()
                && self.nodes@[self.slot@[v] as int].node_id == v
        &&& forall|i: int|
            0 <= i < self.nodes@.len() ==> self.slot@.contains_key(
                (#[trigger] self.nodes@[i]).node_id,
            ) && self.slot@[self.nodes@[i].node_id] == i
    }

    /// The state after the first `upto` edges have delivered what the nodes
    /// hold after `hops` hops.
    spec fn scanning(&self, p: Propagation, hops: nat, upto: nat) -> bool {
        &&& self.indexed()
        &&& by_depth(self.nodes@)
        &&& forall|i: int|
            0 <= i < self.nodes@.len() ==> p.tracks(
                hops,
                upto,
                #[trigger] self.nodes@[i],
                self.current@[i],
                self.pending@[i],
            )
        &&& forall|v: NodeId|
            !(#[trigger] self.slot@.contains_key(v)) ==> p.arriving(hops, v, upto) == 0 && p.total(
                hops,
                v,
            ) == 0
    }

    fn start(source: NodeId, initial: u64, Ghost(p): Ghost<Propagation>) -> (w: Wave)
        requires
            p.source == source,
            p.initial == initial,
        ensures
            w.scanning(p, 0, 0),
    {
        broadcast use vstd::std_specs::hash::group_hash_axioms;

        let mut w = Wave {
            nodes: Vec::new(),
            current: Vec::new(),
            pending: Vec::new(),
            slot: HashMap::new(),
        };
        if initial > 0 {
            w.nodes.push(ActivatedNode { node_id: source, strength: initial, depth: 0 });
            w.current.push(initial);
            w.pending.push(0);
            w.slot.insert(source, 0);
            assert(p.tracks(0, 0, w.nodes@[0], initial, 0));
        }
        w
    }

    /// What `node` holds at the level just completed.
    fn held(
        &self,
        node: NodeId,
        Ghost(p): Ghost<Propagation>,
        Ghost(hops): Ghost<nat>,
        Ghost(upto): Ghost<nat>,
    ) -> (s: u64)
        requires
            self.scanning(p, hops, upto),
        ensures
            s == p.level(hops, node),
    {
        broadcast use vstd::std_specs::hash::group_hash_axioms;

        match self.slot.get(&node) {
            Some(i) => {
                assert(p.tracks(hops, upto, self.nodes@[*i as int], self.current@[*i as int], self.pending@[*i as int]));
                self.current[*i]
            },
            None => {
                proof {
                    p.lemma_total_in_range(hops, node);
                }
                0
            },
        }
    }

    /// Where `node` stands among the reached nodes, if it was reached.
    fn position(&self, node: NodeId) -> (at: Option<usize>)
        requires
            self.indexed(),
        ensures
            match at {
                Some(i) => i < self.nodes@.len() && self.nodes@[i as int].node_id == node
                    && self.slot@.contains_key(node),
                None => !self.slot@.contains_key(node),
            },
    {
        broadcast use vstd::std_specs::hash::group_hash_axioms;

        match self.slot.get(&node) {
            Some(i) => Some(*i),
            None => None,
        }
    }

    /// Enters a node that is reached for the first time, with nothing held
    /// and nothing pending yet.
    fn enter(&mut self, node: NodeId, depth: u32) -> (at: usize)
        requires
            old(self).indexed(),
            !old(self).slot@.contains_key(node),
        ensures
            final(self).indexed(),
            at == old(self).nodes@.len(),
            final(self).nodes@ == old(self).nodes@.push(
                ActivatedNode { node_id: node, strength: 0, depth },
            ),
            final(self).current@ == old(self).current@.push(0),
            final(self).pending@ == old(self).pending@.push(0),
            final(self).slot@ == old(self).slot@.insert(node, at),
    {
        broadcast use vstd::std_specs::hash::group_hash_axioms;

        let at = self.nodes.len();
        self.nodes.push(ActivatedNode { node_id: node, strength: 0, depth });
        self.current.push(0);
        self.pending.push(0);
        self.slot.insert(node, at);
        assert forall|j: int| 0 <= j < self.nodes@.len() implies self.slot@.contains_key(
            (#[trigger] self.nodes@[j]).node_id,
        ) && self.slot@[self.nodes@[j].node_id] == j by {
            if j < at {
                assert(self.nodes@[j] == old(self).nodes@[j]);
                assert(old(self).slot@.contains_key(old(self).nodes@[j].node_id));
            }
        }
        at
    }

    /// Delivers over the edge at position `upto`.
    fn deliver(
        &mut self,
        e: EdgeInfo,
        config: &SignalConfig,
        level: u32,
        Ghost(p): Ghost<Propagation>,
        Ghost(upto): Ghost<nat>,
    )
        requires
            old(self).scanning(p, level as nat, upto),
            upto < p.edges.len(),
            p.edges[upto as int] == e,
            p.config == *config,
            level < u32::MAX,
        ensures
            final(self).scanning(p, level as nat, upto + 1),
    {
        let ghost hops = level as nat;
        let held = self.held(e.from_id, Ghost(p), Ghost(hops), Ghost(upto));
        let amount = transmit(config, held, e.weight);
        proof {
            assert forall|j: int| 0 <= j < self.nodes@.len() implies p.tracks(
                hops,
                upto + 1,
                #[trigger] self.nodes@[j],
                self.current@[j],
                p.delivered(hops, upto, self.nodes@[j].node_id, self.pending@[j] as int) as u64,
            ) by {
                p.lemma_tracks_delivery(
                    hops,
                    upto,
                    self.nodes@[j],
                    self.current@[j],
                    self.pending@[j],
                );
            }
            assert forall|v: NodeId| !(#[trigger] self.slot@.contains_key(v)) implies p.arriving(
                hops,
                v,
                upto + 1,
            ) == p.delivered(hops, upto, v, 0) by {
                p.lemma_delivery(hops, upto, v);
            }
            lemma_combined_bounds(config.accumulation, 0, amount as int);
        }
        if amount == 0 {
            proof {
                assert forall|j: int| 0 <= j < self.nodes@.len() implies p.delivered(
                    hops,
                    upto,
                    (#[trigger] self.nodes@[j]).node_id,
                    self.pending@[j] as int,
                ) == self.pending@[j] by {
                    lemma_combined_bounds(config.accumulation, self.pending@[j] as int, 0);
                }
            }
            return ;
        }
        let ghost before = *self;
        let at = match self.position(e.to_id) {
            Some(at) => at,
            None => {
                proof {
                    p.lemma_tracks_new(hops, upto, e.to_id, (level + 1) as u32);
                }
                self.enter(e.to_id, level + 1)
            },
        };
        let folded = combine(config.accumulation, self.pending[at], amount);
        self.pending.set(at, folded);
        proof {
            assert(self.indexed());
            assert forall|j: int| 0 <= j < self.nodes@.len() implies p.tracks(
                hops,
                upto + 1,
                #[trigger] self.nodes@[j],
                self.current@[j],
                self.pending@[j],
            ) by {
                if j < before.nodes@.len() {
                    assert(self.nodes@[j] == before.nodes@[j]);
                    assert(self.current@[j] == before.current@[j]);
                    assert(p.tracks(
                        hops,
                        upto + 1,
                        before.nodes@[j],
                        before.current@[j],
                        p.delivered(
                            hops,
                            upto,
                            before.nodes@[j].node_id,
                            before.pending@[j] as int,
                        ) as u64,
                    ));
                    if j != at {
                        assert(before.slot@[before.nodes@[j].node_id] == j);
                        assert(before.nodes@[j].node_id != e.to_id);
                    }
                }
            }
            assert forall|i: int, j: int| 0 <= i < j < self.nodes@.len() implies (
            #[trigger] self.nodes@[i]).depth <= (#[trigger] self.nodes@[j]).depth by {
                if i < before.nodes@.len() {
                    assert(self.nodes@[i] == before.nodes@[i]);
                    assert(p.tracks(
                        hops,
                        upto,
                        before.nodes@[i],
                        before.current@[i],
                        before.pending@[i],
                    ));
                }
                if j < before.nodes@.len() {
                    assert(self.nodes@[j] == before.nodes@[j]);
                }
            }
        }
    }

    /// Closes a level: folds what was delivered into the totals and makes
    /// it the current level. Tells whether anything was delivered.
    fn settle(&mut self, config: &SignalConfig, level: u32, Ghost(p): Ghost<Propagation>) -> (any: bool)
        requires
            old(self).scanning(p, level as nat, p.edges.len()),
            p.config == *config,
            level < u32::MAX,
        ensures
            final(self).scanning(p, (level + 1) as nat, 0),
            !any ==> forall|v: NodeId| #[trigger] p.level((level + 1) as nat, v) == 0,
    {
        let ghost before = *self;
        let ghost hops = level as nat;
        let n = self.nodes.len();
        let mut any = false;
        let mut i: usize = 0;
        while i < n
            invariant
                i <= n,
                n == before.nodes@.len(),
                before.scanning(p, hops, p.edges.len()),
                p.config == *config,
                self.slot == before.slot,
                self.nodes@.len() == n,
                self.current@.len() == n,
                self.pending@.len() == n,
                forall|j: int|
                    i <= j < n ==> #[trigger] self.nodes@[j] == before.nodes@[j],
                forall|j: int|
                    i <= j < n ==> #[trigger] self.current@[j] == before.current@[j],
                forall|j: int|
                    i <= j < n ==> #[trigger] self.pending@[j] == before.pending@[j],
                forall|j: int|
                    0 <= j < n ==> (#[trigger] self.nodes@[j]).node_id == before.nodes@[j].node_id
                        && self.nodes@[j].depth == before.nodes@[j].depth,
                forall|j: int|
                    0 <= j < i ==> p.tracks(
                        hops + 1,
                        0,
                        #[trigger] self.nodes@[j],
                        self.current@[j],
                        self.pending@[j],
                    ),
                forall|j: int|
                    0 <= j < i ==> self.current@[j] == #[trigger] before.pending@[j],
                !any ==> forall|j: int| 0 <= j < i ==> #[trigger] before.pending@[j] == 0,
            decreases n - i,
        {
            let node = self.nodes[i];
            let got = self.pending[i];
            proof {
                assert(self.nodes@[i as int] == before.nodes@[i as int]);
                assert(self.current@[i as int] == before.current@[i as int]);
                assert(self.pending@[i as int] == before.pending@[i as int]);
                assert(p.tracks(
                    hops,
                    p.edges.len(),
                    before.nodes@[i as int],
                    before.current@[i as int],
                    before.pending@[i as int],
                ));
                p.lemma_tracks_settled(hops, node, self.current@[i as int], got);
            }
            let folded = combine(config.accumulation, node.strength, got);
            self.nodes.set(
                i,
                ActivatedNode { node_id: node.node_id, strength: folded, depth: node.depth },
            );
            self.current.set(i, got);
            self.pending.set(i, 0);
            if got > 0 {
                any = true;
            }
            i = i + 1;
        }
        proof {
            assert(self.indexed()) by {
                assert forall|j: int| 0 <= j < self.nodes@.len() implies self.slot@.contains_key(
                    (#[trigger] self.nodes@[j]).node_id,
                ) && self.slot@[self.nodes@[j].node_id] == j by {
                    assert(self.nodes@[j].node_id == before.nodes@[j].node_id);
                }
                assert forall|v: NodeId| #[trigger] self.slot@.contains_key(v) implies self.slot@[v]
                    < self.nodes@.len() && self.nodes@[self.slot@[v] as int].node_id == v by {
                    let j = self.slot@[v] as int;
                    assert(self.nodes@[j].node_id == before.nodes@[j].node_id);
                }
            }
            assert(by_depth(self.nodes@)) by {
                assert forall|a: int, b: int| 0 <= a < b < self.nodes@.len() implies (
                #[trigger] self.nodes@[a]).depth <= (#[trigger] self.nodes@[b]).depth by {
                    assert(self.nodes@[a].depth == before.nodes@[a].depth);
                    assert(self.nodes@[b].depth == before.nodes@[b].depth);
                }
            }
            assert forall|v: NodeId| !(#[trigger] self.slot@.contains_key(v)) implies p.arriving(
                hops + 1,
                v,
                0,
            ) == 0 && p.total(hops + 1, v) == 0 by {
                p.lemma_unreached(hops, v);
            }
            if !any {
                assert forall|v: NodeId| #[trigger] p.level(hops + 1, v) == 0 by {
                    if self.slot@.contains_key(v) {
                        let j = self.slot@[v] as int;
                        assert(before.nodes@[j].node_id == v);
                        assert(before.pending@[j] == 0);
                        assert(p.tracks(
                            hops,
                            p.edges.len(),
                            before.nodes@[j],
                            before.current@[j],
                            before.pending@[j],
                        ));
                        assert(p.level(hops + 1, v) == p.arriving(hops, v, p.edges.len()));
                    } else {
                        p.lemma_unreached(hops, v);
                    }
                }
            }
        }
        any
    }
}

impl Graph {
    /// Spreads a signal of strength `initial` from `source` over the edges
    /// of the graph for at most `config.max_depth` hops and lists the nodes
    /// it reached. Endpoints need not have been added as nodes.
    pub fn spreading_activation(
        &self,
        source: NodeId,
        initial: u64,
        config: &SignalConfig,
    ) -> (result: ActivationResult)
        ensures
            (Propagation { edges: self.edges(), config: *config, source, initial }).described_by(
                result.nodes@,
            ),
    {
        let ghost p = Propagation { edges: self.edges(), config: *config, source, initial };
        let edges = self.edge_list();
        let mut wave = Wave::start(source, initial, Ghost(p));
        let mut level: u32 = 0;
        let mut quiet = initial == 0;
        while level < config.max_depth && !quiet
            invariant
                p == (Propagation { edges: self.edges(), config: *config, source, initial }),
                edges@ == p.edges,
                level <= config.max_depth,
                wave.scanning(p, level as nat, 0),
                quiet ==> forall|v: NodeId| #[trigger] p.level(level as nat, v) == 0,
            decreases config.max_depth - level,
        {
            let mut j: usize = 0;
            while j < edges.len()
                invariant
                    j <= edges.len(),
                    edges@ == p.edges,
                    p.config == *config,
                    level < config.max_depth,
                    wave.scanning(p, level as nat, j as nat),
                decreases edges.len() - j,
            {
                wave.deliver(edges[j], config, level, Ghost(p), Ghost(j as nat));
                j = j + 1;
            }
            let any = wave.settle(config, level, Ghost(p));
            level = level + 1;
            quiet = !any;
        }
        proof {
            let depth = config.max_depth as nat;
            if level < config.max_depth {
                p.lemma_silence_lasts(level as nat, depth);
            }
            assert forall|v: NodeId| #[trigger] p.total(depth, v) > 0 implies exists|i: int|
                0 <= i < wave.nodes@.len() && (#[trigger] wave.nodes@[i]).node_id == v by {
                assert(p.total(depth, v) == p.total(level as nat, v));
                assert(wave.slot@.contains_key(v));
                assert(wave.nodes@[wave.slot@[v] as int].node_id == v);
            }
            assert forall|i: int, j: int| 0 <= i < j < wave.nodes@.len() implies (
            #[trigger] wave.nodes@[i]).node_id != (#[trigger] wave.nodes@[j]).node_id by {
                assert(wave.slot@[wave.nodes@[i].node_id] == i);
                assert(wave.slot@[wave.nodes@[j].node_id] == j);
            }
            assert forall|i: int| 0 <= i < wave.nodes@.len() implies {
                &&& (#[trigger] wave.nodes@[i]).strength == p.total(depth, wave.nodes@[i].node_id)
                &&& wave.nodes@[i].strength > 0
                &&& wave.nodes@[i].depth <= depth
                &&& p.first_reached(wave.nodes@[i].node_id, wave.nodes@[i].depth as nat)
            } by {
                let n = wave.nodes@[i];
                assert(p.tracks(level as nat, 0, n, wave.current@[i], wave.pending@[i]));
                assert(p.arriving(level as nat, n.node_id, 0) == 0);
                assert(p.total(depth, n.node_id) == p.total(level as nat, n.node_id));
            }
        }
        ActivationResult { nodes: wave.nodes }
    }
}

} // verus!
