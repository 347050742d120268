use axiom_core::activation::attenuate;
use axiom_core::activation::combine;
use axiom_core::activation::transmit;
use axiom_core::activation::AccumulationMode;
use axiom_core::activation::ActivatedNode;
use axiom_core::activation::ActivationResult;
use axiom_core::activation::SignalConfig;
use axiom_core::graph::Graph;
use axiom_core::graph::WEIGHT_ONE;

fn config(max_depth: u32, retention: u32, min_strength: u64, accumulation: AccumulationMode) -> SignalConfig {
    SignalConfig {
        max_depth,
        retention,
        min_strength,
        accumulation,
    }
}

fn link(g: &mut Graph, from: u32, to: u32, edge_type: u8, weight: u32) {
    let id = Graph::compute_edge_id(from, to, edge_type);
    assert_eq!(g.add_edge(id, from, to, edge_type, weight, false), Ok(()));
}

fn sorted(result: &ActivationResult) -> Vec<(u32, u64, u32)> {
    let mut rows: Vec<(u32, u64, u32)> = result
        .nodes
        .iter()
        .map(|n| (n.node_id, n.strength, n.depth))
        .collect();
    rows.sort();
    rows
}

#[test]
fn attenuation_rounds_down_and_caps_shares() {
    assert_eq!(attenuate(1_000_000, WEIGHT_ONE, 800_000), 800_000);
    assert_eq!(attenuate(800_000, WEIGHT_ONE, 800_000), 640_000);
    assert_eq!(attenuate(3, 500_000, WEIGHT_ONE), 1);
    assert_eq!(attenuate(1000, 333_333, 900_000), 299);
    assert_eq!(attenuate(u64::MAX, WEIGHT_ONE, WEIGHT_ONE), u64::MAX);
    assert_eq!(attenuate(1_000_000, 2_000_000, 2_000_000), 1_000_000);
    assert_eq!(attenuate(1_000_000, 0, WEIGHT_ONE), 0);
    assert_eq!(attenuate(0, WEIGHT_ONE, WEIGHT_ONE), 0);
}

#[test]
fn weak_signals_are_not_passed_on() {
    let c = config(3, 800_000, 700_000, AccumulationMode::Sum);
    assert_eq!(transmit(&c, 1_000_000, WEIGHT_ONE), 800_000);
    assert_eq!(transmit(&c, 875_000, WEIGHT_ONE), 700_000);
    assert_eq!(transmit(&c, 800_000, WEIGHT_ONE), 0);
}

#[test]
fn folding_follows_the_mode() {
    assert_eq!(combine(AccumulationMode::Sum, 3, 4), 7);
    assert_eq!(combine(AccumulationMode::Sum, u64::MAX, 1), u64::MAX);
    assert_eq!(combine(AccumulationMode::Sum, u64::MAX - 1, 1), u64::MAX);
    assert_eq!(combine(AccumulationMode::Max, 3, 4), 4);
    assert_eq!(combine(AccumulationMode::Max, 5, 4), 5);
    assert_eq!(combine(AccumulationMode::Decay, 3, 4), 3);
    assert_eq!(combine(AccumulationMode::Decay, 0, 4), 4);
    for mode in [AccumulationMode::Sum, AccumulationMode::Max, AccumulationMode::Decay] {
        assert_eq!(combine(mode, 9, 0), 9);
        assert_eq!(combine(mode, 0, 9), 9);
        assert_eq!(combine(mode, 0, 0), 0);
    }
}

#[test]
fn chain_of_three_does_not_amplify() {
    let mut g = Graph::new();
    for id in [1u32, 2, 3] {
        g.add_node(id);
    }
    link(&mut g, 1, 2, 0, WEIGHT_ONE);
    link(&mut g, 2, 3, 0, WEIGHT_ONE);
    let result = g.spreading_activation(1, 1_000_000, &config(3, 800_000, 1, AccumulationMode::Sum));
    assert_eq!(
        sorted(&result),
        vec![(1, 1_000_000, 0), (2, 800_000, 1), (3, 640_000, 2)]
    );
    let at_two = result.find(2).expect("node 2 is reached");
    let at_three = result.find(3).expect("node 3 is reached");
    assert!(at_three.strength <= at_two.strength);
    assert!(at_three.strength > 0);
    assert_eq!(result.strength_of(3), 640_000);
    assert_eq!(result.strength_of(4), 0);
    assert_eq!(result.find(4), None);
    assert_eq!(result.len(), 3);
}

#[test]
fn chain_does_not_amplify_in_any_mode() {
    for mode in [AccumulationMode::Sum, AccumulationMode::Max, AccumulationMode::Decay] {
        let mut g = Graph::new();
        link(&mut g, 1, 2, 0, 900_000);
        link(&mut g, 2, 3, 0, 400_000);
        let result = g.spreading_activation(1, 5_000, &config(8, 950_000, 0, mode));
        assert_eq!(
            sorted(&result),
            vec![(1, 5_000, 0), (2, 4_275, 1), (3, 1_624, 2)]
        );
    }
}

#[test]
fn propagation_follows_direction() {
    let mut g = Graph::new();
    link(&mut g, 1, 2, 0, WEIGHT_ONE);
    link(&mut g, 2, 3, 0, WEIGHT_ONE);
    let c = config(5, WEIGHT_ONE, 0, AccumulationMode::Sum);
    assert_eq!(sorted(&g.spreading_activation(3, 100, &c)), vec![(3, 100, 0)]);
    assert_eq!(
        sorted(&g.spreading_activation(2, 100, &c)),
        vec![(2, 100, 0), (3, 100, 1)]
    );
}

#[test]
fn diamond_tells_the_modes_apart() {
    let mut g = Graph::new();
    link(&mut g, 1, 2, 0, 500_000);
    link(&mut g, 1, 3, 0, WEIGHT_ONE);
    link(&mut g, 2, 4, 0, WEIGHT_ONE);
    link(&mut g, 3, 4, 0, WEIGHT_ONE);
    let sum = g.spreading_activation(1, 1000, &config(4, WEIGHT_ONE, 0, AccumulationMode::Sum));
    assert_eq!(
        sorted(&sum),
        vec![(1, 1000, 0), (2, 500, 1), (3, 1000, 1), (4, 1500, 2)]
    );
    let max = g.spreading_activation(1, 1000, &config(4, WEIGHT_ONE, 0, AccumulationMode::Max));
    assert_eq!(
        sorted(&max),
        vec![(1, 1000, 0), (2, 500, 1), (3, 1000, 1), (4, 1000, 2)]
    );
    let decay = g.spreading_activation(1, 1000, &config(4, WEIGHT_ONE, 0, AccumulationMode::Decay));
    assert_eq!(
        sorted(&decay),
        vec![(1, 1000, 0), (2, 500, 1), (3, 1000, 1), (4, 500, 2)]
    );
}

#[test]
fn arrivals_at_different_depths_accumulate_by_mode() {
    let mut g = Graph::new();
    link(&mut g, 1, 2, 0, WEIGHT_ONE);
    link(&mut g, 2, 3, 0, WEIGHT_ONE);
    link(&mut g, 1, 3, 0, 250_000);
    let sum = g.spreading_activation(1, 1000, &config(4, WEIGHT_ONE, 0, AccumulationMode::Sum));
    assert_eq!(sum.find(3), Some(ActivatedNode { node_id: 3, strength: 1250, depth: 1 }));
    let max = g.spreading_activation(1, 1000, &config(4, WEIGHT_ONE, 0, AccumulationMode::Max));
    assert_eq!(max.find(3), Some(ActivatedNode { node_id: 3, strength: 1000, depth: 1 }));
    let decay = g.spreading_activation(1, 1000, &config(4, WEIGHT_ONE, 0, AccumulationMode::Decay));
    assert_eq!(decay.find(3), Some(ActivatedNode { node_id: 3, strength: 250, depth: 1 }));
}

#[test]
fn cycles_end_at_the_depth_limit() {
    let mut g = Graph::new();
    link(&mut g, 1, 2, 0, WEIGHT_ONE);
    link(&mut g, 2, 1, 0, WEIGHT_ONE);
    let result = g.spreading_activation(1, 1_600_000, &config(4, 500_000, 0, AccumulationMode::Sum));
    assert_eq!(
        sorted(&result),
        vec![(1, 2_100_000, 0), (2, 1_000_000, 1)]
    );
    let lossless = g.spreading_activation(1, 10, &config(5, WEIGHT_ONE, 0, AccumulationMode::Sum));
    assert_eq!(sorted(&lossless), vec![(1, 30, 0), (2, 30, 1)]);
}

#[test]
fn a_fading_signal_ends_the_run_early() {
    let mut g = Graph::new();
    link(&mut g, 1, 2, 0, WEIGHT_ONE);
    link(&mut g, 2, 1, 0, WEIGHT_ONE);
    let result = g.spreading_activation(1, 1024, &config(u32::MAX, 500_000, 0, AccumulationMode::Max));
    assert_eq!(sorted(&result), vec![(1, 1024, 0), (2, 512, 1)]);
    let summed = g.spreading_activation(1, 1024, &config(u32::MAX, 500_000, 0, AccumulationMode::Sum));
    assert_eq!(
        sorted(&summed),
        vec![(1, 1024 + 256 + 64 + 16 + 4 + 1, 0), (2, 512 + 128 + 32 + 8 + 2, 1)]
    );
}

#[test]
fn threshold_and_depth_limit_cut_the_reach() {
    let mut g = Graph::new();
    link(&mut g, 1, 2, 0, WEIGHT_ONE);
    link(&mut g, 2, 3, 0, WEIGHT_ONE);
    link(&mut g, 3, 4, 0, WEIGHT_ONE);
    let cut = g.spreading_activation(1, 1_000_000, &config(5, 800_000, 700_000, AccumulationMode::Sum));
    assert_eq!(sorted(&cut), vec![(1, 1_000_000, 0), (2, 800_000, 1)]);
    let shallow = g.spreading_activation(1, 1_000_000, &config(1, 800_000, 0, AccumulationMode::Sum));
    assert_eq!(sorted(&shallow), vec![(1, 1_000_000, 0), (2, 800_000, 1)]);
    let none = g.spreading_activation(1, 1_000_000, &config(0, 800_000, 0, AccumulationMode::Sum));
    assert_eq!(sorted(&none), vec![(1, 1_000_000, 0)]);
}

#[test]
fn no_signal_reaches_nothing() {
    let mut g = Graph::new();
    link(&mut g, 1, 2, 0, WEIGHT_ONE);
    let result = g.spreading_activation(1, 0, &config(3, WEIGHT_ONE, 0, AccumulationMode::Sum));
    assert_eq!(result.len(), 0);
    assert_eq!(result.strength_of(1), 0);
    let empty = Graph::new();
    let alone = empty.spreading_activation(9, 5, &config(3, WEIGHT_ONE, 0, AccumulationMode::Max));
    assert_eq!(sorted(&alone), vec![(9, 5, 0)]);
}

#[test]
fn sums_saturate() {
    let mut g = Graph::new();
    link(&mut g, 1, 2, 0, WEIGHT_ONE);
    link(&mut g, 1, 2, 1, WEIGHT_ONE);
    let result = g.spreading_activation(1, u64::MAX, &config(1, WEIGHT_ONE, 0, AccumulationMode::Sum));
    assert_eq!(sorted(&result), vec![(1, u64::MAX, 0), (2, u64::MAX, 1)]);
    let doubled = g.spreading_activation(1, 7, &config(1, WEIGHT_ONE, 0, AccumulationMode::Sum));
    assert_eq!(sorted(&doubled), vec![(1, 7, 0), (2, 14, 1)]);
}

#[test]
fn every_node_is_listed_once() {
    let mut g = Graph::new();
    for a in 0..6u32 {
        for b in 0..6u32 {
            if a != b {
                link(&mut g, a, b, 0, 900_000);
            }
        }
    }
    let result = g.spreading_activation(0, 1_000_000, &config(6, 900_000, 10, AccumulationMode::Sum));
    let rows = sorted(&result);
    assert_eq!(rows.len(), 6);
    for (k, row) in rows.iter().enumerate() {
        assert_eq!(row.0, k as u32);
        assert!(row.1 > 0);
        assert_eq!(row.2, if k == 0 { 0 } else { 1 });
    }
}

#[test]
fn nearer_nodes_are_listed_first() {
    let mut g = Graph::new();
    link(&mut g, 5, 4, 0, WEIGHT_ONE);
    link(&mut g, 4, 3, 0, WEIGHT_ONE);
    link(&mut g, 9, 8, 0, WEIGHT_ONE);
    link(&mut g, 1, 9, 0, WEIGHT_ONE);
    link(&mut g, 1, 5, 0, WEIGHT_ONE);
    link(&mut g, 3, 1, 0, WEIGHT_ONE);
    let result = g.spreading_activation(1, 100, &config(3, WEIGHT_ONE, 0, AccumulationMode::Max));
    let listed: Vec<(u32, u32)> = result.nodes.iter().map(|n| (n.node_id, n.depth)).collect();
    assert_eq!(listed, vec![(1, 0), (9, 1), (5, 1), (4, 2), (8, 2), (3, 3)]);
    for pair in result.nodes.windows(2) {
        assert!(pair[0].depth <= pair[1].depth);
    }
}
