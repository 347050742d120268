use axiom_core::connection_v3::ConnectionType;
use axiom_core::graph::EdgeInfo;
use axiom_core::graph::Graph;
use axiom_core::graph::GraphError;
use axiom_core::graph::WEIGHT_ONE;

#[test]
fn new_graph_is_empty() {
    let g = Graph::new();
    assert_eq!(g.node_count(), 0);
    assert_eq!(g.edge_count(), 0);
    assert!(!g.contains_node(0));
    assert!(!g.contains_edge(0));
    assert_eq!(g.get_edge(0), None);
}

#[test]
fn add_node_is_idempotent() {
    let mut g = Graph::new();
    assert!(g.add_node(5));
    assert!(!g.add_node(5));
    assert!(g.add_node(6));
    assert_eq!(g.node_count(), 2);
    assert!(g.contains_node(5));
    assert!(g.contains_node(6));
    assert!(!g.contains_node(7));
    assert!(g.add_node(u32::MAX));
    assert!(g.add_node(0));
    assert_eq!(g.node_count(), 4);
}

#[test]
fn edge_id_has_the_documented_layout() {
    assert_eq!(Graph::compute_edge_id(1, 2, 0), 4_294_967_298);
    assert_eq!(Graph::compute_edge_id(2, 1, 0), 8_589_934_593);
    assert_eq!(Graph::compute_edge_id(1, 2, 3), 0x0300_0001_0000_0002);
    assert_eq!(Graph::compute_edge_id(0, 0, 0), 0);
    assert_eq!(
        Graph::compute_edge_id(u32::MAX, u32::MAX, 0xff),
        0x00ff_ffff_ffff_ffff
    );
}

#[test]
fn edge_id_is_deterministic_and_directed() {
    for a in [0u32, 1, 2, 77, 1 << 24, u32::MAX] {
        for b in [0u32, 1, 3, 78, 1 << 31, u32::MAX] {
            for t in [0u8, 1, 5, 255] {
                let id = Graph::compute_edge_id(a, b, t);
                assert_eq!(id, Graph::compute_edge_id(a, b, t));
                if a != b {
                    assert_ne!(id, Graph::compute_edge_id(b, a, t));
                } else {
                    assert_eq!(id, Graph::compute_edge_id(b, a, t));
                }
            }
        }
    }
    assert_ne!(
        Graph::compute_edge_id(1, 2, 0),
        Graph::compute_edge_id(1, 2, 1)
    );
}

#[test]
fn add_edge_records_the_edge() {
    let mut g = Graph::new();
    let t = ConnectionType::AssociatedWith.code();
    let id = Graph::compute_edge_id(1, 2, t);
    assert_eq!(g.add_edge(id, 1, 2, t, WEIGHT_ONE, false), Ok(()));
    assert_eq!(g.edge_count(), 1);
    assert!(g.contains_edge(id));
    assert_eq!(
        g.get_edge(id),
        Some(EdgeInfo {
            id,
            from_id: 1,
            to_id: 2,
            edge_type: t,
            weight: WEIGHT_ONE
        })
    );
    assert!(!g.contains_edge(Graph::compute_edge_id(2, 1, t)));
    assert_eq!(g.node_count(), 0);
}

#[test]
fn duplicate_identity_is_a_reported_conflict() {
    let mut g = Graph::new();
    let id = Graph::compute_edge_id(1, 2, 0);
    assert_eq!(g.add_edge(id, 1, 2, 0, 700_000, false), Ok(()));
    assert_eq!(
        g.add_edge(id, 1, 2, 0, 700_000, false),
        Err(GraphError::DuplicateEdge(id))
    );
    assert_eq!(
        g.add_edge(id, 8, 9, 4, 100, true),
        Err(GraphError::DuplicateEdge(id))
    );
    assert_eq!(g.edge_count(), 1);
    assert_eq!(g.get_edge(id).map(|e| (e.from_id, e.to_id, e.weight)), Some((1, 2, 700_000)));
}

#[test]
fn bidirectional_records_the_mirror() {
    let mut g = Graph::new();
    let forward = Graph::compute_edge_id(1, 2, 2);
    let mirror = Graph::compute_edge_id(2, 1, 2);
    assert_eq!(g.add_edge(forward, 1, 2, 2, 250_000, true), Ok(()));
    assert_eq!(g.edge_count(), 2);
    assert_eq!(
        g.edge_list().clone(),
        vec![
            EdgeInfo { id: forward, from_id: 1, to_id: 2, edge_type: 2, weight: 250_000 },
            EdgeInfo { id: mirror, from_id: 2, to_id: 1, edge_type: 2, weight: 250_000 },
        ]
    );
    assert_eq!(
        g.add_edge(mirror, 2, 1, 2, 250_000, false),
        Err(GraphError::DuplicateEdge(mirror))
    );
}

#[test]
fn bidirectional_fails_whole_when_the_mirror_exists() {
    let mut g = Graph::new();
    let forward = Graph::compute_edge_id(1, 2, 0);
    let mirror = Graph::compute_edge_id(2, 1, 0);
    assert_eq!(g.add_edge(mirror, 2, 1, 0, 1, false), Ok(()));
    assert_eq!(
        g.add_edge(forward, 1, 2, 0, 1, true),
        Err(GraphError::DuplicateEdge(mirror))
    );
    assert_eq!(g.edge_count(), 1);
    assert!(!g.contains_edge(forward));
    assert_eq!(g.add_edge(forward, 1, 2, 0, 1, false), Ok(()));
    assert_eq!(g.edge_count(), 2);
}

#[test]
fn bidirectional_under_the_mirror_identity_is_refused() {
    let mut g = Graph::new();
    let mirror = Graph::compute_edge_id(2, 1, 0);
    assert_eq!(
        g.add_edge(mirror, 1, 2, 0, 1, true),
        Err(GraphError::DuplicateEdge(mirror))
    );
    assert_eq!(g.edge_count(), 0);
}

#[test]
fn a_loop_is_its_own_mirror() {
    let mut g = Graph::new();
    let id = Graph::compute_edge_id(4, 4, 1);
    assert_eq!(g.add_edge(id, 4, 4, 1, 10, true), Ok(()));
    assert_eq!(g.edge_count(), 1);
}

#[test]
fn weight_above_one_is_refused() {
    let mut g = Graph::new();
    assert_eq!(
        g.add_edge(1, 1, 2, 0, WEIGHT_ONE + 1, false),
        Err(GraphError::WeightOutOfRange(1_000_001))
    );
    assert_eq!(g.edge_count(), 0);
    assert_eq!(g.add_edge(1, 1, 2, 0, 0, false), Ok(()));
    assert_eq!(g.add_edge(2, 1, 2, 0, WEIGHT_ONE, false), Ok(()));
    assert_eq!(g.edge_count(), 2);
}

#[test]
fn edges_may_dangle() {
    let mut g = Graph::new();
    g.add_node(1);
    assert_eq!(g.add_edge(9, 1, 1000, 0, 5, false), Ok(()));
    assert!(!g.contains_node(1000));
    assert_eq!(g.node_count(), 1);
}

#[test]
fn weight_is_updated_in_place_on_request() {
    let mut g = Graph::new();
    assert_eq!(g.add_edge(10, 1, 2, 0, 100, false), Ok(()));
    assert_eq!(g.add_edge(11, 2, 3, 0, 200, false), Ok(()));
    assert_eq!(g.set_edge_weight(10, 900), Ok(()));
    assert_eq!(g.get_edge(10).map(|e| e.weight), Some(900));
    assert_eq!(g.get_edge(11).map(|e| e.weight), Some(200));
    assert_eq!(g.edge_count(), 2);
    assert_eq!(g.set_edge_weight(12, 900), Err(GraphError::UnknownEdge(12)));
    assert_eq!(
        g.set_edge_weight(10, 2_000_000),
        Err(GraphError::WeightOutOfRange(2_000_000))
    );
    assert_eq!(g.get_edge(10).map(|e| e.weight), Some(900));
}

#[test]
fn many_edges_are_found_again() {
    let mut g = Graph::new();
    for i in 0..2000u32 {
        g.add_node(i);
    }
    for i in 0..1999u32 {
        let id = Graph::compute_edge_id(i, i + 1, 0);
        assert_eq!(g.add_edge(id, i, i + 1, 0, WEIGHT_ONE, false), Ok(()));
    }
    assert_eq!(g.node_count(), 2000);
    assert_eq!(g.edge_count(), 1999);
    for i in 0..1999u32 {
        let id = Graph::compute_edge_id(i, i + 1, 0);
        assert_eq!(g.get_edge(id).map(|e| (e.from_id, e.to_id)), Some((i, i + 1)));
    }
}

#[test]
fn clear_discards_the_whole_structure() {
    let mut g = Graph::new();
    g.add_node(1);
    g.add_node(2);
    assert_eq!(g.add_edge(7, 1, 2, 0, 5, false), Ok(()));
    g.clear();
    assert_eq!(g.node_count(), 0);
    assert_eq!(g.edge_count(), 0);
    assert!(!g.contains_node(1));
    assert!(!g.contains_edge(7));
    assert_eq!(g.add_edge(7, 1, 2, 0, 5, false), Ok(()));
    assert!(g.add_node(1));
}
