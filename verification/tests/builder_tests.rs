use disease_graph::{
    add_record, build_graph, build_graph_from_csv, generate_graph_from_csv, parse_count,
    parse_record, read_rows, Field, IncidenceGraph, Layout, MalformedRecord, NodeId, Record,
};

fn row(fields: &[&str]) -> Vec<String> {
    fields.iter().map(|field| field.to_string()).collect()
}

fn record(disease: &str, location: &str, year: Option<u32>, count: u32) -> Record {
    Record { disease: disease.to_string(), location: location.to_string(), year, count }
}

#[test]
fn numbers_are_plain_decimals() {
    assert_eq!(parse_count("0"), Some(0));
    assert_eq!(parse_count("7"), Some(7));
    assert_eq!(parse_count("2020"), Some(2020));
    assert_eq!(parse_count("0042"), Some(42));
    assert_eq!(parse_count("+15"), Some(15));
    assert_eq!(parse_count("4294967295"), Some(u32::MAX));
    assert_eq!(parse_count("000000000000000000004294967295"), Some(u32::MAX));
}

#[test]
fn what_is_no_number_is_refused() {
    assert_eq!(parse_count(""), None);
    assert_eq!(parse_count("+"), None);
    assert_eq!(parse_count("-1"), None);
    assert_eq!(parse_count("-0"), None);
    assert_eq!(parse_count("++1"), None);
    assert_eq!(parse_count("1+"), None);
    assert_eq!(parse_count("12a"), None);
    assert_eq!(parse_count(" 12"), None);
    assert_eq!(parse_count("12 "), None);
    assert_eq!(parse_count("1.5"), None);
    assert_eq!(parse_count("٣"), None);
    assert_eq!(parse_count("4294967296"), None);
    assert_eq!(parse_count("99999999999999999999999999"), None);
    assert_eq!(parse_count("4294967296x"), None);
}

#[test]
fn a_full_row_is_read() {
    let parsed = parse_record(0, &row(&["Mumps", "Alameda", "2020", "12"])).unwrap();
    assert_eq!(parsed.disease, "Mumps");
    assert_eq!(parsed.location, "Alameda");
    assert_eq!(parsed.year, Some(2020));
    assert_eq!(parsed.count, 12);
}

#[test]
fn year_and_count_may_be_left_out() {
    let short = parse_record(3, &row(&["Mumps", "Alameda"])).unwrap();
    assert_eq!(short.year, None);
    assert_eq!(short.count, 0);
    let dated = parse_record(3, &row(&["Mumps", "Alameda", "2019"])).unwrap();
    assert_eq!(dated.year, Some(2019));
    assert_eq!(dated.count, 0);
    let long = parse_record(3, &row(&["Mumps", "Alameda", "2019", "5", "rest", "-"])).unwrap();
    assert_eq!(long.count, 5);
}

#[test]
fn a_bad_row_names_its_field() {
    assert_eq!(parse_record(4, &row(&[])).err(), Some(MalformedRecord { row: 4, field: Field::Disease }));
    assert_eq!(parse_record(5, &row(&["Mumps"])).err(), Some(MalformedRecord { row: 5, field: Field::Location }));
    assert_eq!(
        parse_record(6, &row(&["Mumps", "Alameda", "MMXX", "3"])).err(),
        Some(MalformedRecord { row: 6, field: Field::Year })
    );
    assert_eq!(
        parse_record(7, &row(&["Mumps", "Alameda", "2020", "-3"])).err(),
        Some(MalformedRecord { row: 7, field: Field::Count })
    );
    assert_eq!(
        parse_record(8, &row(&["Mumps", "Alameda", "2020", ""])).err(),
        Some(MalformedRecord { row: 8, field: Field::Count })
    );
    assert_eq!(
        parse_record(9, &row(&["Mumps", "Alameda", "", "x"])).err(),
        Some(MalformedRecord { row: 9, field: Field::Year })
    );
}

#[test]
fn one_record_adds_two_nodes_and_an_edge() {
    let mut graph = IncidenceGraph::new();
    add_record(&mut graph, &record("Mumps", "Alameda", Some(2020), 12));
    assert_eq!(graph.node_count(), 2);
    assert_eq!(graph.edge_count(), 1);
    let mumps = graph.find_node(&"Mumps".to_string()).unwrap();
    let alameda = graph.find_node(&"Alameda".to_string()).unwrap();
    assert_eq!(mumps, NodeId { index: 0 });
    assert_eq!(alameda, NodeId { index: 1 });
    assert_eq!(graph.edge(0), (mumps, alameda, 12));
    assert_eq!(graph.year(mumps), Some(2020));
    assert_eq!(graph.year(alameda), Some(2020));
}

#[test]
fn rows_become_edges_and_names_become_nodes() {
    let records = vec![
        record("Mumps", "Alameda", Some(2020), 4),
        record("Mumps", "Berkeley", Some(2020), 2),
        record("Measles", "Alameda", Some(2021), 7),
        record("Mumps", "Alameda", Some(2021), 1),
    ];
    let (graph, leaving, entering) = build_graph(&records);
    // As many edges as rows, as many nodes as different names.
    assert_eq!(graph.edge_count(), 4);
    assert_eq!(graph.node_count(), 4);
    // Nodes stand in the order in which their names were first seen.
    assert_eq!(graph.label(NodeId { index: 0 }), "Mumps");
    assert_eq!(graph.label(NodeId { index: 1 }), "Alameda");
    assert_eq!(graph.label(NodeId { index: 2 }), "Berkeley");
    assert_eq!(graph.label(NodeId { index: 3 }), "Measles");
    assert_eq!(graph.year(NodeId { index: 1 }), Some(2020));
    assert_eq!(graph.year(NodeId { index: 3 }), Some(2021));
    assert_eq!(graph.edge(0), (NodeId { index: 0 }, NodeId { index: 1 }, 4));
    assert_eq!(graph.edge(1), (NodeId { index: 0 }, NodeId { index: 2 }, 2));
    assert_eq!(graph.edge(2), (NodeId { index: 3 }, NodeId { index: 1 }, 7));
    assert_eq!(graph.edge(3), (NodeId { index: 0 }, NodeId { index: 1 }, 1));
    assert_eq!(leaving, vec![3, 0, 0, 1]);
    assert_eq!(entering, vec![0, 3, 1, 0]);
    assert_eq!(leaving.iter().sum::<usize>(), 4);
    assert_eq!(entering.iter().sum::<usize>(), 4);
}

#[test]
fn a_name_on_both_sides_is_one_node() {
    let records = vec![record("A", "B", None, 1), record("B", "A", None, 1), record("A", "A", None, 1)];
    let (graph, leaving, entering) = build_graph(&records);
    assert_eq!(graph.node_count(), 2);
    assert_eq!(graph.edge_count(), 3);
    assert_eq!(leaving, vec![2, 1]);
    assert_eq!(entering, vec![2, 1]);
}

#[test]
fn no_records_build_an_empty_graph() {
    let (graph, leaving, entering) = build_graph(&Vec::new());
    assert_eq!(graph.node_count(), 0);
    assert_eq!(graph.edge_count(), 0);
    assert_eq!(leaving, Vec::<usize>::new());
    assert_eq!(entering, Vec::<usize>::new());
}

#[test]
fn rows_of_text_build_the_graph() {
    let rows = vec![
        row(&["Diphtheria", "Alameda", "2001", "1"]),
        row(&["Diphtheria", "Berkeley", "2001", "0"]),
        row(&["Mumps", "Alameda", "2002"]),
        row(&["Mumps", "San Bernardino"]),
    ];
    match build_graph_from_csv(&rows) {
        Ok((graph, leaving, entering)) => {
            assert_eq!(graph.edge_count(), 4);
            assert_eq!(graph.node_count(), 5);
            assert_eq!(graph.label(NodeId { index: 4 }), "San Bernardino");
            assert_eq!(graph.year(NodeId { index: 3 }), Some(2002));
            assert_eq!(graph.year(NodeId { index: 4 }), None);
            assert_eq!(graph.edge(0).2, 1);
            assert_eq!(graph.edge(3).2, 0);
            assert_eq!(leaving, vec![2, 0, 0, 2, 0]);
            assert_eq!(entering, vec![0, 2, 1, 0, 1]);
        },
        Err(error) => panic!("row {} was refused", error.row),
    }
}

#[test]
fn the_first_bad_row_fails_the_build() {
    let rows = vec![
        row(&["Diphtheria", "Alameda", "2001", "1"]),
        row(&["Diphtheria", "Berkeley", "2001", "many"]),
        row(&["Mumps"]),
    ];
    match build_graph_from_csv(&rows) {
        Ok(_) => panic!("a bad row was read"),
        Err(error) => assert_eq!(error, MalformedRecord { row: 1, field: Field::Count }),
    }
    let short = vec![row(&["Mumps", "Alameda"]), row(&["Mumps", "Alameda"]), row(&["Mumps"])];
    match build_graph_from_csv(&short) {
        Ok(_) => panic!("a bad row was read"),
        Err(error) => assert_eq!(error, MalformedRecord { row: 2, field: Field::Location }),
    }
}

#[test]
fn links_are_read_from_the_third_and_fourth_column() {
    let rows = vec![
        row(&["2019", "x", "Asthma", "Texas", "more"]),
        row(&["2019", "x", "Asthma", "Ohio"]),
        row(&["2019", "x", "Cancer", "Texas"]),
        row(&["2019", "x", "Cancer", "Utah"]),
    ];
    let graph = generate_graph_from_csv(&rows, 3).ok().unwrap();
    assert_eq!(graph.edge_count(), 3);
    assert_eq!(graph.node_count(), 4);
    assert_eq!(graph.label(NodeId { index: 0 }), "Asthma");
    assert_eq!(graph.label(NodeId { index: 1 }), "Texas");
    assert_eq!(graph.label(NodeId { index: 2 }), "Ohio");
    assert_eq!(graph.label(NodeId { index: 3 }), "Cancer");
    assert_eq!(graph.edge(2), (NodeId { index: 3 }, NodeId { index: 1 }, 0));
    let all = generate_graph_from_csv(&rows, 100).ok().unwrap();
    assert_eq!(all.edge_count(), 4);
    assert_eq!(all.node_count(), 5);
    let none = generate_graph_from_csv(&rows, 0).ok().unwrap();
    assert_eq!(none.edge_count(), 0);
    assert_eq!(none.node_count(), 0);
}

#[test]
fn a_short_row_of_links_is_refused_within_the_limit() {
    let rows = vec![row(&["2019", "x", "Asthma", "Texas"]), row(&["2019", "x", "Asthma"]), row(&["2019"])];
    assert_eq!(generate_graph_from_csv(&rows, 3).err(), Some(MalformedRecord { row: 1, field: Field::Location }));
    assert_eq!(generate_graph_from_csv(&rows, 2).err(), Some(MalformedRecord { row: 1, field: Field::Location }));
    assert!(generate_graph_from_csv(&rows, 1).is_ok());
    let first = vec![row(&["2019", "x"])];
    assert_eq!(generate_graph_from_csv(&first, 1).err(), Some(MalformedRecord { row: 0, field: Field::Disease }));
}

#[test]
fn rows_are_read_up_to_the_limit() {
    let rows = vec![row(&["A", "B", "1", "2"]), row(&["C", "D"]), row(&["E"])];
    let two = read_rows(&rows, 2, Layout::Incidence).unwrap();
    assert_eq!(two.len(), 2);
    assert_eq!(two[0].count, 2);
    assert_eq!(two[1].disease, "C");
    assert_eq!(read_rows(&rows, 3, Layout::Incidence).err(), Some(MalformedRecord { row: 2, field: Field::Location }));
    assert_eq!(read_rows(&rows, 9, Layout::Links).err(), Some(MalformedRecord { row: 1, field: Field::Disease }));
}
