use disease_graph::{degrees_of_separation, shortest_distances, shortest_path_length, IncidenceGraph};

#[test]
fn test_shortest_path_length() {
    let mut graph = IncidenceGraph::new();
    let a = graph.add_node("A".to_string());
    let b = graph.add_node("B".to_string());
    let d = graph.add_node("D".to_string());

    graph.add_edge(a, b, 1);
    graph.add_edge(b, d, 1);

    assert_eq!(shortest_path_length(&graph, a, d).unwrap(), 2);
}

#[test]
fn main_test_shortest_path_length() {
    let mut graph = IncidenceGraph::new();
    let a = graph.add_node("A".to_string());
    let b = graph.add_node("B".to_string());
    let c = graph.add_node("C".to_string());
    let d = graph.add_node("D".to_string());

    graph.add_edge(a, b, 0);
    graph.add_edge(b, c, 0);
    graph.add_edge(c, d, 0);

    // A walk of three edges that weigh nothing: the distance is the
    // weight, not the number of nodes met on the way.
    assert_eq!(shortest_path_length(&graph, a, d), Some(0));
}

#[test]
fn test_degrees_of_separation() {
    let mut graph = IncidenceGraph::new();
    let disease_diphtheria = graph.add_node("Diphtheria".to_string());
    let city_alameda = graph.add_node("Alameda".to_string());
    let city_berkeley = graph.add_node("Berkeley".to_string());

    graph.add_edge(disease_diphtheria, city_alameda, 1);
    graph.add_edge(city_alameda, city_berkeley, 1);

    // Check degrees of separation between "Diphtheria" and "Alameda"
    assert_eq!(degrees_of_separation(&graph, disease_diphtheria, city_alameda), Some(1));

    // Check degrees of separation between "Diphtheria" and "Berkeley"
    assert_eq!(degrees_of_separation(&graph, disease_diphtheria, city_berkeley), Some(2));
}

#[test]
fn two_edges_of_weight_one_make_distance_two() {
    let mut graph = IncidenceGraph::new();
    let a = graph.add_node("A".to_string());
    let b = graph.add_node("B".to_string());
    let d = graph.add_node("D".to_string());
    graph.add_edge(a, b, 1);
    graph.add_edge(b, d, 1);
    assert_eq!(shortest_distances(&graph, a), vec![Some(0), Some(1), Some(2)]);
    assert_eq!(degrees_of_separation(&graph, a, d), Some(2));
}

#[test]
fn unreachable_nodes_have_no_distance() {
    let mut graph = IncidenceGraph::new();
    let a = graph.add_node("A".to_string());
    let b = graph.add_node("B".to_string());
    let c = graph.add_node("C".to_string());
    graph.add_edge(a, b, 4);
    assert_eq!(shortest_distances(&graph, a), vec![Some(0), Some(4), None]);
    assert_eq!(shortest_distances(&graph, b), vec![None, Some(0), None]);
    assert_eq!(degrees_of_separation(&graph, b, a), None);
    assert_eq!(shortest_path_length(&graph, a, c), None);
    assert_eq!(shortest_path_length(&graph, c, a), None);
}

#[test]
fn a_node_is_at_distance_zero_from_itself() {
    let mut graph = IncidenceGraph::new();
    let a = graph.add_node("A".to_string());
    let b = graph.add_node("B".to_string());
    graph.add_edge(a, b, 3);
    graph.add_edge(b, a, 5);
    assert_eq!(shortest_path_length(&graph, a, a), Some(0));
    assert_eq!(degrees_of_separation(&graph, b, b), Some(0));
}

#[test]
fn the_lighter_of_two_routes_is_the_distance() {
    // A branching graph, where the order of discovery says nothing of the
    // weight: the direct edge is heavier than the detour.
    let mut graph = IncidenceGraph::new();
    let a = graph.add_node("A".to_string());
    let b = graph.add_node("B".to_string());
    let c = graph.add_node("C".to_string());
    let d = graph.add_node("D".to_string());
    graph.add_edge(a, d, 10);
    graph.add_edge(a, b, 2);
    graph.add_edge(b, c, 3);
    graph.add_edge(c, d, 4);
    assert_eq!(shortest_path_length(&graph, a, d), Some(9));
    assert_eq!(degrees_of_separation(&graph, a, d), Some(9));
    assert_eq!(shortest_distances(&graph, a), vec![Some(0), Some(2), Some(5), Some(9)]);
}

#[test]
fn of_parallel_edges_the_lightest_counts() {
    let mut graph = IncidenceGraph::new();
    let a = graph.add_node("A".to_string());
    let b = graph.add_node("B".to_string());
    graph.add_edge(a, b, 8);
    graph.add_edge(a, b, 3);
    graph.add_edge(a, b, 5);
    assert_eq!(shortest_path_length(&graph, a, b), Some(3));
}

#[test]
fn distances_beyond_32_bits_are_exact() {
    let mut graph = IncidenceGraph::new();
    let a = graph.add_node("A".to_string());
    let b = graph.add_node("B".to_string());
    let c = graph.add_node("C".to_string());
    graph.add_edge(a, b, u32::MAX);
    graph.add_edge(b, c, u32::MAX);
    assert_eq!(degrees_of_separation(&graph, a, c), Some(2 * (u32::MAX as u64)));
    assert_eq!(shortest_path_length(&graph, a, c), Some(8589934590));
}

#[test]
fn cycles_do_not_trap_the_search() {
    let mut graph = IncidenceGraph::new();
    let a = graph.add_node("A".to_string());
    let b = graph.add_node("B".to_string());
    let c = graph.add_node("C".to_string());
    graph.add_edge(a, b, 1);
    graph.add_edge(b, a, 1);
    graph.add_edge(b, c, 1);
    graph.add_edge(c, c, 0);
    assert_eq!(shortest_distances(&graph, a), vec![Some(0), Some(1), Some(2)]);
    assert_eq!(shortest_distances(&graph, c), vec![None, None, Some(0)]);
}
