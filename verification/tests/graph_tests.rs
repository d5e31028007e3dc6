use disease_graph::{IncidenceGraph, NodeId};

fn generate_graph(num_nodes: usize, edge_probability: f64) -> IncidenceGraph {
    let mut graph = IncidenceGraph::new();
    let mut nodes: Vec<NodeId> = Vec::new();
    for i in 0..num_nodes {
        nodes.push(graph.add_node(format!("node {}", i)));
    }
    // A fixed linear congruential sequence stands in for chance, so that
    // the same graph comes out every time.
    let mut state: u64 = 12345;
    for i in 0..num_nodes {
        for j in 0..num_nodes {
            state = state.wrapping_mul(6364136223846793005).wrapping_add(1442695040888963407);
            let draw = (state >> 11) as f64 / (1u64 << 53) as f64;
            if i != j && draw < edge_probability {
                graph.add_edge(nodes[i], nodes[j], 1);
            }
        }
    }
    graph
}

#[test]
fn test_generate_graph() {
    let num_nodes = 10;
    let edge_probability = 0.2;
    let graph = generate_graph(num_nodes, edge_probability);

    assert_eq!(graph.node_count(), num_nodes);
}

#[test]
fn test_specific_connections() {
    let mut graph = IncidenceGraph::new();
    let disease_mumps = graph.add_node("Mumps".to_string());
    let city_san_bernardino = graph.add_node("San Bernardino".to_string());

    graph.add_edge(disease_mumps, city_san_bernardino, 0);

    assert_eq!(graph.neighbors(disease_mumps).len(), 1);
    assert_eq!(graph.neighbors(city_san_bernardino).len(), 0);
}

#[test]
fn new_graph_is_empty() {
    let graph = IncidenceGraph::new();
    assert_eq!(graph.node_count(), 0);
    assert_eq!(graph.edge_count(), 0);
    assert!(!graph.contains(NodeId { index: 0 }));
    assert_eq!(graph.find_node(&"Mumps".to_string()), None);
}

#[test]
fn nodes_get_indices_in_order_of_creation() {
    let mut graph = IncidenceGraph::new();
    let a = graph.add_node("A".to_string());
    let b = graph.add_node("B".to_string());
    let c = graph.add_node("C".to_string());
    assert_eq!(a, NodeId { index: 0 });
    assert_eq!(b, NodeId { index: 1 });
    assert_eq!(c, NodeId { index: 2 });
    assert_eq!(graph.node_count(), 3);
    assert_eq!(graph.label(a), "A");
    assert_eq!(graph.label(b), "B");
    assert_eq!(graph.label(c), "C");
}

#[test]
fn a_label_names_one_node() {
    let mut graph = IncidenceGraph::new();
    let first = graph.add_node("Measles".to_string());
    let other = graph.add_node("Alameda".to_string());
    let again = graph.add_node("Measles".to_string());
    assert_eq!(first, again);
    assert_ne!(first, other);
    assert_eq!(graph.node_count(), 2);
}

#[test]
fn the_first_year_of_a_node_stays() {
    let mut graph = IncidenceGraph::new();
    let a = graph.add_node_in_year("Measles".to_string(), Some(2020));
    let b = graph.add_node("Alameda".to_string());
    let again = graph.add_node_in_year("Measles".to_string(), Some(2021));
    assert_eq!(a, again);
    assert_eq!(graph.year(a), Some(2020));
    assert_eq!(graph.year(b), None);
}

#[test]
fn find_node_by_label() {
    let mut graph = IncidenceGraph::new();
    let a = graph.add_node("Diphtheria".to_string());
    let b = graph.add_node("Alameda".to_string());
    assert_eq!(graph.find_node(&"Diphtheria".to_string()), Some(a));
    assert_eq!(graph.find_node(&"Alameda".to_string()), Some(b));
    assert_eq!(graph.find_node(&"Berkeley".to_string()), None);
    assert_eq!(graph.find_node(&"".to_string()), None);
}

#[test]
fn contains_tells_nodes_from_other_handles() {
    let mut graph = IncidenceGraph::new();
    let a = graph.add_node("A".to_string());
    assert!(graph.contains(a));
    assert!(!graph.contains(NodeId { index: 1 }));
}

#[test]
fn edges_are_kept_in_order_with_their_weights() {
    let mut graph = IncidenceGraph::new();
    let a = graph.add_node("A".to_string());
    let b = graph.add_node("B".to_string());
    graph.add_edge(a, b, 7);
    graph.add_edge(b, a, 9);
    graph.add_edge(a, b, 11);
    assert_eq!(graph.edge_count(), 3);
    assert_eq!(graph.node_count(), 2);
    assert_eq!(graph.edge(0), (a, b, 7));
    assert_eq!(graph.edge(1), (b, a, 9));
    assert_eq!(graph.edge(2), (a, b, 11));
}

#[test]
fn neighbors_list_the_latest_edge_first() {
    let mut graph = IncidenceGraph::new();
    let a = graph.add_node("A".to_string());
    let b = graph.add_node("B".to_string());
    let c = graph.add_node("C".to_string());
    let d = graph.add_node("D".to_string());
    graph.add_edge(a, b, 1);
    graph.add_edge(c, a, 1);
    graph.add_edge(a, c, 1);
    graph.add_edge(a, d, 1);
    assert_eq!(graph.neighbors(a), vec![d, c, b]);
    assert_eq!(graph.neighbors(c), vec![a]);
    assert_eq!(graph.neighbors(d), vec![]);
}

#[test]
fn parallel_edges_and_loops_count_in_neighbors() {
    let mut graph = IncidenceGraph::new();
    let a = graph.add_node("A".to_string());
    let b = graph.add_node("B".to_string());
    graph.add_edge(a, b, 1);
    graph.add_edge(a, b, 2);
    graph.add_edge(a, a, 3);
    assert_eq!(graph.neighbors(a), vec![a, b, b]);
    assert_eq!(graph.out_degree(a), 3);
    assert_eq!(graph.out_degree(b), 0);
}
