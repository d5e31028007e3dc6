use disease_graph::{
    average_degree, average_distance_between_vertices, calculate_average_distance,
    calculate_min_connections, degree_distribution, neighbors_at_distance_2_distribution,
    out_degrees, IncidenceGraph, Ratio,
};

fn as_number(ratio: Ratio) -> f64 {
    if ratio.denominator == 0 {
        0.0
    } else {
        ratio.numerator as f64 / ratio.denominator as f64
    }
}

#[test]
fn test_average_distance() {
    let mut graph = IncidenceGraph::new();
    let a = graph.add_node_in_year("A".to_string(), Some(2020));
    let b = graph.add_node_in_year("B".to_string(), Some(2020));
    let c = graph.add_node_in_year("C".to_string(), Some(2020));

    graph.add_edge(a, b, 1);
    graph.add_edge(b, c, 1);

    // Three ordered pairs are joined, at the distances 1, 2 and 1.
    let (average, pairs, edges) = calculate_average_distance(&graph);
    assert_eq!(average, Ratio { numerator: 4, denominator: 3 });
    assert_eq!(pairs, 3);
    assert_eq!(edges, 2);
    assert_eq!(as_number(average), 4.0 / 3.0);
}

#[test]
fn test_average_degree() {
    let mut graph = IncidenceGraph::new();
    let a = graph.add_node_in_year("A".to_string(), Some(2020));
    let b = graph.add_node_in_year("B".to_string(), Some(2020));
    let c = graph.add_node_in_year("C".to_string(), Some(2020));

    graph.add_edge(a, b, 1);
    graph.add_edge(a, c, 1);

    // Two edges leave the three nodes.
    let average = average_degree(&graph);
    assert_eq!(average, Ratio { numerator: 2, denominator: 3 });
    assert_eq!(as_number(average), 2.0 / 3.0);
}

#[test]
fn test_degree_distribution() {
    let mut graph = IncidenceGraph::new();
    let node_a = graph.add_node("a".to_string());
    let node_b = graph.add_node("b".to_string());
    let node_c = graph.add_node("c".to_string());

    graph.add_edge(node_a, node_b, 0);
    graph.add_edge(node_a, node_c, 0);

    // A star: two leaves that no edge leaves, and a centre that two leave.
    let dist = degree_distribution(&graph);
    let expected_dist = vec![2, 0, 1];

    assert_eq!(dist, expected_dist);
}

#[test]
fn test_neighbors_at_distance_2_distribution() {
    let mut graph = IncidenceGraph::new();
    let node_a = graph.add_node("a".to_string());
    let node_b = graph.add_node("b".to_string());
    let node_c = graph.add_node("c".to_string());
    let node_d = graph.add_node("d".to_string());

    graph.add_edge(node_a, node_b, 0);
    graph.add_edge(node_b, node_c, 0);
    graph.add_edge(node_c, node_d, 0);
    graph.add_edge(node_a, node_d, 0);

    // Two edges end in d, which no edge leaves; the other two end in b
    // and in c, which one edge leaves.
    let dist = neighbors_at_distance_2_distribution(&graph);
    let expected_dist = vec![2, 2, 0, 0];

    assert_eq!(dist, expected_dist);
}

#[test]
fn average_distance_of_an_empty_graph_is_zero() {
    let graph = IncidenceGraph::new();
    let average = average_distance_between_vertices(&graph);
    assert_eq!(average, Ratio { numerator: 0, denominator: 0 });
    assert!(average.zero());
    assert_eq!(average.whole(), 0);
    assert_eq!(as_number(average), 0.0);
    assert_eq!(calculate_average_distance(&graph), (average, 0, 0));
}

#[test]
fn average_distance_without_edges_is_zero() {
    let mut graph = IncidenceGraph::new();
    graph.add_node("A".to_string());
    graph.add_node("B".to_string());
    let (average, pairs, edges) = calculate_average_distance(&graph);
    assert_eq!(pairs, 0);
    assert_eq!(edges, 0);
    assert!(average.zero());
    assert_eq!(as_number(average), 0.0);
}

#[test]
fn average_distance_is_positive_where_pairs_are_joined_by_weight() {
    let mut graph = IncidenceGraph::new();
    let a = graph.add_node("A".to_string());
    let b = graph.add_node("B".to_string());
    let c = graph.add_node("C".to_string());
    graph.add_edge(a, b, 2);
    graph.add_edge(b, c, 5);
    graph.add_edge(c, a, 1);
    // a->b 2, a->c 7, b->c 5, b->a 6, c->a 1, c->b 3
    let average = average_distance_between_vertices(&graph);
    assert_eq!(average, Ratio { numerator: 24, denominator: 6 });
    assert!(!average.zero());
    assert_eq!(average.whole(), 4);
    assert_eq!(as_number(average), 4.0);
}

#[test]
fn pairs_joined_by_weightless_edges_count_with_distance_zero() {
    let mut graph = IncidenceGraph::new();
    let a = graph.add_node("Mumps".to_string());
    let b = graph.add_node("Alameda".to_string());
    graph.add_edge(a, b, 0);
    let (average, pairs, edges) = calculate_average_distance(&graph);
    assert_eq!(average, Ratio { numerator: 0, denominator: 1 });
    assert_eq!(pairs, 1);
    assert_eq!(edges, 1);
    assert!(average.zero());
}

#[test]
fn parallel_edges_count_as_edges_not_as_pairs() {
    let mut graph = IncidenceGraph::new();
    let a = graph.add_node("A".to_string());
    let b = graph.add_node("B".to_string());
    graph.add_edge(a, b, 3);
    graph.add_edge(a, b, 1);
    let (average, pairs, edges) = calculate_average_distance(&graph);
    assert_eq!(average, Ratio { numerator: 1, denominator: 1 });
    assert_eq!(pairs, 1);
    assert_eq!(edges, 2);
}

#[test]
fn average_degree_of_an_empty_graph_is_zero() {
    let graph = IncidenceGraph::new();
    let average = average_degree(&graph);
    assert_eq!(average, Ratio { numerator: 0, denominator: 0 });
    assert!(average.zero());
}

#[test]
fn out_degrees_by_node() {
    let mut graph = IncidenceGraph::new();
    let a = graph.add_node("A".to_string());
    let b = graph.add_node("B".to_string());
    let c = graph.add_node("C".to_string());
    graph.add_edge(a, b, 1);
    graph.add_edge(a, c, 1);
    graph.add_edge(c, b, 1);
    assert_eq!(out_degrees(&graph), vec![2, 0, 1]);
}

#[test]
fn connection_counts_by_side() {
    let mut graph = IncidenceGraph::new();
    let mumps = graph.add_node("Mumps".to_string());
    let measles = graph.add_node("Measles".to_string());
    let alameda = graph.add_node("Alameda".to_string());
    let berkeley = graph.add_node("Berkeley".to_string());
    graph.add_edge(mumps, alameda, 4);
    graph.add_edge(mumps, berkeley, 2);
    graph.add_edge(measles, alameda, 7);
    let (leaving, entering) = calculate_min_connections(&graph);
    assert_eq!(leaving, vec![2, 1, 0, 0]);
    assert_eq!(entering, vec![0, 0, 2, 1]);
    // Each edge is counted once on each side.
    assert_eq!(leaving.iter().sum::<usize>(), graph.edge_count());
    assert_eq!(entering.iter().sum::<usize>(), graph.edge_count());
}

#[test]
fn connection_counts_of_an_empty_graph() {
    let graph = IncidenceGraph::new();
    let (leaving, entering) = calculate_min_connections(&graph);
    assert_eq!(leaving, Vec::<usize>::new());
    assert_eq!(entering, Vec::<usize>::new());
}

#[test]
fn degree_distribution_of_an_empty_graph_is_empty() {
    let graph = IncidenceGraph::new();
    assert_eq!(degree_distribution(&graph), Vec::<usize>::new());
}

#[test]
fn degree_distribution_of_isolated_nodes() {
    let mut graph = IncidenceGraph::new();
    graph.add_node("A".to_string());
    graph.add_node("B".to_string());
    graph.add_node("C".to_string());
    assert_eq!(degree_distribution(&graph), vec![3, 0, 0]);
}

#[test]
fn degree_distribution_grows_for_parallel_edges() {
    let mut graph = IncidenceGraph::new();
    let a = graph.add_node("A".to_string());
    let b = graph.add_node("B".to_string());
    graph.add_edge(a, b, 1);
    graph.add_edge(a, b, 1);
    graph.add_edge(a, b, 1);
    // One node of degree 0 and one of degree 3, which is beyond the
    // number of nodes.
    assert_eq!(degree_distribution(&graph), vec![1, 0, 0, 1]);
}

#[test]
fn distance_2_distribution_leaves_out_large_degrees() {
    let mut graph = IncidenceGraph::new();
    let a = graph.add_node("A".to_string());
    let b = graph.add_node("B".to_string());
    graph.add_edge(a, b, 1);
    graph.add_edge(b, a, 1);
    graph.add_edge(b, a, 1);
    // a has degree 1, b has degree 2. The edge into b is not counted:
    // the histogram ends before degree 2.
    assert_eq!(neighbors_at_distance_2_distribution(&graph), vec![0, 2]);
}

#[test]
fn ratio_rounds_down_and_compares_as_a_number() {
    let seven_halves = Ratio { numerator: 7, denominator: 2 };
    let three = Ratio { numerator: 3, denominator: 1 };
    let nothing = Ratio { numerator: 5, denominator: 0 };
    assert_eq!(seven_halves.whole(), 3);
    assert_eq!(nothing.whole(), 0);
    assert!(nothing.zero());
    assert!(seven_halves.greater_than(&three));
    assert!(!three.greater_than(&seven_halves));
    assert!(three.greater_than(&nothing));
    assert!(!nothing.greater_than(&three));
    assert!(!three.greater_than(&Ratio { numerator: 6, denominator: 2 }));
}
