//! Building a graph from rows of incidence data.
//!
//! Each record adds one edge from its disease to its location, weighted by
//! its count. A name becomes a node the first time it is seen, so the nodes
//! stand in the order in which their names first occur, and a name that
//! occurs as a disease and as a location is one node.

use vstd::prelude::*;
use crate::graph::{GraphView, IncidenceGraph, NodeId};
use crate::metrics::calculate_min_connections;
use crate::model::{in_degree, out_degree};
use crate::record::{parse_record, record_of, Field, MalformedRecord, Record, RecordView};

verus! {

/// The position of `label` among `labels`.
pub open spec fn label_index(labels: Seq<Seq<char>>, label: Seq<char>) -> int {
    choose|i: int| 0 <= i < labels.len() && labels[i] == label
}

/// The graph with a node for `label`: the graph itself where it has one,
/// else the graph with one more node that carries `label` and `year`.
pub open spec fn with_node(graph: GraphView, label: Seq<char>, year: Option<u32>) -> GraphView {
    if graph.has_label(label) {
        graph
    } else {
        GraphView { labels: graph.labels.push(label), years: graph.years.push(year), edges: graph.edges }
    }
}

/// The graph after one more record: nodes for its disease and its
/// location, in this order, and one edge between them.
pub open spec fn with_record(graph: GraphView, record: RecordView) -> GraphView {
    let named = with_node(with_node(graph, record.disease, record.year), record.location, record.year);
    GraphView {
        labels: named.labels,
        years: named.years,
        edges: named.edges.push(
            (
                label_index(named.labels, record.disease) as usize,
                label_index(named.labels, record.location) as usize,
                record.count,
            ),
        ),
    }
}

/// The graph that `records` build, taken in their order.
pub open spec fn graph_of(records: Seq<RecordView>) -> GraphView
    decreases records.len(),
{
    if records.len() == 0 {
        GraphView { labels: Seq::empty(), years: Seq::empty(), edges: Seq::empty() }
    } else {
        with_record(graph_of(records.drop_last()), records.last())
    }
}

/// The records as plain values.
pub open spec fn views_of(records: Seq<Record>) -> Seq<RecordView> {
    Seq::new(records.len(), |i: int| records[i]@)
}

/// The names that occur in `records`, as a disease or as a location.
pub open spec fn names_of(records: Seq<RecordView>) -> Set<Seq<char>> {
    Set::new(
        |name: Seq<char>|
            exists|i: int|
                0 <= i < records.len() && ((#[trigger] records[i]).disease == name || records[i].location == name),
    )
}

/// Whether no label occurs twice.
pub open spec fn labels_distinct(labels: Seq<Seq<char>>) -> bool {
    forall|i: int, j: int| 0 <= i < j < labels.len() ==> #[trigger] labels[i] != #[trigger] labels[j]
}

/// A node for a name adds the name to the labels and nothing else, and
/// keeps the labels distinct.
pub proof fn lemma_with_node(graph: GraphView, label: Seq<char>, year: Option<u32>)
    requires
        labels_distinct(graph.labels),
    ensures
        labels_distinct(with_node(graph, label, year).labels),
        with_node(graph, label, year).has_label(label),
        with_node(graph, label, year).labels.to_set() == graph.labels.to_set().insert(label),
        with_node(graph, label, year).edges == graph.edges,
        graph.labels.len() <= with_node(graph, label, year).labels.len() <= graph.labels.len() + 1,
{
    let grown = with_node(graph, label, year);
    if graph.has_label(label) {
        let i = choose|i: int| 0 <= i < graph.labels.len() && #[trigger] graph.labels[i] == label;
        assert(graph.labels.contains(label));
        assert(grown.labels.to_set() =~= graph.labels.to_set().insert(label));
    } else {
        assert(grown.labels[graph.labels.len() as int] == label);
        assert forall|name: Seq<char>| grown.labels.to_set().contains(name) <==> graph.labels.to_set().insert(
            label,
        ).contains(name) by {
            if grown.labels.contains(name) {
                let k = choose|k: int| 0 <= k < grown.labels.len() && grown.labels[k] == name;
                if k < graph.labels.len() {
                    assert(graph.labels[k] == name);
                    assert(graph.labels.contains(name));
                }
            }
            if graph.labels.contains(name) {
                let k = choose|k: int| 0 <= k < graph.labels.len() && graph.labels[k] == name;
                assert(grown.labels[k] == name);
            }
        }
        assert(grown.labels.to_set() =~= graph.labels.to_set().insert(label));
    }
}

/// Building a graph from `k` records yields `k` edges, and as many nodes as
/// there are different names among the diseases and the locations: the
/// labels are these names, each once.
pub proof fn lemma_built_sizes(records: Seq<RecordView>)
    ensures
        graph_of(records).edges.len() == records.len(),
        labels_distinct(graph_of(records).labels),
        graph_of(records).labels.to_set() == names_of(records),
        names_of(records).finite(),
        graph_of(records).labels.len() == names_of(records).len(),
        graph_of(records).labels.len() <= 2 * records.len(),
    decreases records.len(),
{
    let built = graph_of(records);
    if records.len() == 0 {
        assert(built.labels.to_set() =~= Set::<Seq<char>>::empty());
        assert(names_of(records) =~= Set::<Seq<char>>::empty());
    } else {
        let rest = records.drop_last();
        let last = records.last();
        lemma_built_sizes(rest);
        let before = graph_of(rest);
        let first = with_node(before, last.disease, last.year);
        lemma_with_node(before, last.disease, last.year);
        lemma_with_node(first, last.location, last.year);
        assert forall|name: Seq<char>| names_of(records).contains(name) <==> names_of(rest).insert(
            last.disease,
        ).insert(last.location).contains(name) by {
            if names_of(records).contains(name) {
                let i = choose|i: int|
                    0 <= i < records.len() && ((#[trigger] records[i]).disease == name || records[i].location
                        == name);
                if i < rest.len() {
                    assert(rest[i] == records[i]);
                }
            }
            if names_of(rest).contains(name) {
                let i = choose|i: int|
                    0 <= i < rest.len() && ((#[trigger] rest[i]).disease == name || rest[i].location == name);
                assert(records[i] == rest[i]);
            }
            if name == last.disease || name == last.location {
                assert(records[records.len() - 1] == last);
            }
        }
        assert(names_of(records) =~= names_of(rest).insert(last.disease).insert(last.location));
        assert(built.labels.to_set() =~= names_of(records));
    }
    assert(built.labels.no_duplicates());
    built.labels.unique_seq_to_set();
}

/// Adds one record to the graph: nodes for its two names where they are
/// new, and one edge from the disease to the location. The graph must have
/// room for two more nodes and one more edge.
pub fn add_record(graph: &mut IncidenceGraph, record: &Record)
    requires
        old(graph).wf(),
        old(graph)@.labels.len() + 2 < u32::MAX,
        old(graph)@.edges.len() + 1 < u32::MAX,
    ensures
        final(graph).wf(),
        final(graph)@ == with_record(old(graph)@, record@),
{
    let ghost start = graph@;
    let source: NodeId = graph.add_node_in_year(record.disease.clone(), record.year);
    let ghost first = graph@;
    let target: NodeId = graph.add_node_in_year(record.location.clone(), record.year);
    let ghost named = graph@;
    proof {
        assert(first == with_node(start, record@.disease, record@.year));
        assert(named == with_node(first, record@.location, record@.year));
        assert(named.labels[source.index as int] == record@.disease) by {
            if !first.has_label(record@.location) {
                assert(named.labels[source.index as int] == first.labels[source.index as int]);
            }
        }
        assert(label_index(named.labels, record@.disease) == source.index) by {
            let i = label_index(named.labels, record@.disease);
            assert(0 <= i < named.labels.len() && named.labels[i] == record@.disease);
        }
        assert(label_index(named.labels, record@.location) == target.index) by {
            let i = label_index(named.labels, record@.location);
            assert(0 <= i < named.labels.len() && named.labels[i] == record@.location);
        }
    }
    graph.add_edge(source, target, record.count);
    proof {
        assert(graph@.edges == with_record(start, record@).edges);
    }
}

/// Builds the graph of `records` and its connection counts: for each
/// node, by node index, first the number of edges that leave it, then the
/// number of edges that enter it. The records must be few enough for the
/// graph's 32-bit indices.
pub fn build_graph(records: &Vec<Record>) -> (built: (IncidenceGraph, Vec<usize>, Vec<usize>))
    requires
        2 * records@.len() + 2 < u32::MAX,
    ensures
        built.0.wf(),
        built.0@ == graph_of(views_of(records@)),
        built.0@.edges.len() == records@.len(),
        built.0@.labels.len() == names_of(views_of(records@)).len(),
        built.1@.len() == built.0@.labels.len(),
        built.2@.len() == built.0@.labels.len(),
        forall|v: int| 0 <= v < built.1@.len() ==> #[trigger] built.1@[v] == out_degree(built.0@.edges, v),
        forall|v: int| 0 <= v < built.2@.len() ==> #[trigger] built.2@[v] == in_degree(built.0@.edges, v),
{
    let ghost views = views_of(records@);
    let mut graph: IncidenceGraph = IncidenceGraph::new();
    let mut i: usize = 0;
    proof {
        assert(views.take(0) =~= Seq::<RecordView>::empty());
        assert(graph@.labels =~= Seq::<Seq<char>>::empty());
        assert(graph@.years =~= Seq::<Option<u32>>::empty());
        assert(graph@.edges =~= Seq::<(usize, usize, u32)>::empty());
        assert(graph@ =~= graph_of(views.take(0)));
    }
    while i < records.len()
        invariant
            views == views_of(records@),
            2 * records@.len() + 2 < u32::MAX,
            0 <= i <= records@.len(),
            graph.wf(),
            graph@ == graph_of(views.take(i as int)),
        decreases records@.len() - i,
    {
        proof {
            lemma_built_sizes(views.take(i as int));
            assert(views.take(i + 1).drop_last() =~= views.take(i as int));
            assert(views.take(i + 1).last() == records@[i as int]@);
        }
        add_record(&mut graph, &records[i]);
        i += 1;
    }
    proof {
        assert(views.take(records@.len() as int) =~= views);
        lemma_built_sizes(views);
    }
    let counts: (Vec<usize>, Vec<usize>) = calculate_min_connections(&graph);
    (graph, counts.0, counts.1)
}

/// How the columns of a row are laid out.
#[derive(Clone, Copy, Debug, PartialEq, Eq, Structural)]
pub enum Layout {
    /// Disease, location, year and count in the first four columns; the
    /// last two may be left out.
    Incidence,
    /// The two names in the third and the fourth column, nothing else
    /// read: an edge without a year that counts zero.
    Links,
}

/// What a row of links says: its third and fourth field name the two
/// nodes. A row that is too short fails on the first name that it lacks.
pub open spec fn link_of(row: usize, fields: Seq<String>) -> Result<RecordView, MalformedRecord> {
    if fields.len() < 3 {
        Err(MalformedRecord { row, field: Field::Disease })
    } else if fields.len() < 4 {
        Err(MalformedRecord { row, field: Field::Location })
    } else {
        Ok(RecordView { disease: fields[2]@, location: fields[3]@, year: None, count: 0 })
    }
}

/// What a row says under a layout.
pub open spec fn row_of(layout: Layout, row: usize, fields: Seq<String>) -> Result<RecordView, MalformedRecord> {
    match layout {
        Layout::Incidence => record_of(row, fields),
        Layout::Links => link_of(row, fields),
    }
}

/// Whether each of the first `count` rows can be read.
pub open spec fn rows_good(layout: Layout, rows: Seq<Vec<String>>, count: int) -> bool {
    forall|i: int| 0 <= i < count ==> (#[trigger] row_of(layout, i as usize, rows[i]@)) is Ok
}

/// Whether `error` is what the first row that cannot be read fails with,
/// among the first `count` rows.
pub open spec fn first_failure(layout: Layout, rows: Seq<Vec<String>>, count: int, error: MalformedRecord) -> bool {
    exists|i: int|
        0 <= i < count && #[trigger] row_of(layout, i as usize, rows[i]@) == Err::<RecordView, MalformedRecord>(
            error,
        ) && rows_good(layout, rows, i)
}

/// The records that the first `count` rows hold.
pub open spec fn rows_read(layout: Layout, rows: Seq<Vec<String>>, count: int) -> Seq<RecordView> {
    Seq::new(count as nat, |i: int| row_of(layout, i as usize, rows[i]@).unwrap())
}

/// The smaller of the two numbers.
pub open spec fn at_most(limit: int, len: int) -> int {
    if limit < len {
        limit
    } else {
        len
    }
}

/// Reads a row of links.
fn parse_link(row: usize, fields: &Vec<String>) -> (parsed: Result<Record, MalformedRecord>)
    ensures
        match parsed {
            Ok(record) => link_of(row, fields@) == Ok::<RecordView, MalformedRecord>(record@),
            Err(error) => link_of(row, fields@) == Err::<RecordView, MalformedRecord>(error),
        },
{
    if fields.len() < 3 {
        return Err(MalformedRecord { row, field: Field::Disease });
    }
    if fields.len() < 4 {
        return Err(MalformedRecord { row, field: Field::Location });
    }
    Ok(Record { disease: fields[2].clone(), location: fields[3].clone(), year: None, count: 0 })
}

/// Reads the first `limit` rows, or all of them if there are fewer. The
/// first row that cannot be read ends the reading with its error.
pub fn read_rows(rows: &Vec<Vec<String>>, limit: usize, layout: Layout) -> (read: Result<
    Vec<Record>,
    MalformedRecord,
>)
    ensures
        match read {
            Ok(records) => {
                &&& rows_good(layout, rows@, at_most(limit as int, rows@.len() as int))
                &&& views_of(records@) == rows_read(layout, rows@, at_most(limit as int, rows@.len() as int))
            },
            Err(error) => first_failure(layout, rows@, at_most(limit as int, rows@.len() as int), error),
        },
{
    let count: usize = if limit < rows.len() {
        limit
    } else {
        rows.len()
    };
    let mut records: Vec<Record> = Vec::new();
    let mut i: usize = 0;
    while i < count
        invariant
            count == at_most(limit as int, rows@.len() as int),
            0 <= i <= count,
            records@.len() == i,
            rows_good(layout, rows@, i as int),
            forall|k: int|
                0 <= k < i ==> row_of(layout, k as usize, rows@[k]@) == Ok::<RecordView, MalformedRecord>(
                    (#[trigger] records@[k])@,
                ),
        decreases count - i,
    {
        let parsed: Result<Record, MalformedRecord> = match layout {
            Layout::Incidence => parse_record(i, &rows[i]),
            Layout::Links => parse_link(i, &rows[i]),
        };
        match parsed {
            Ok(record) => {
                records.push(record);
            },
            Err(error) => {
                proof {
                    assert(row_of(layout, i as usize, rows@[i as int]@) == Err::<RecordView, MalformedRecord>(error));
                }
                return Err(error);
            },
        }
        i += 1;
    }
    proof {
        assert(views_of(records@) =~= rows_read(layout, rows@, count as int));
    }
    Ok(records)
}

/// Builds the graph of the incidence rows `rows` and its connection
/// counts, as [`build_graph`] does for records. The first row that cannot
/// be read fails the whole build with its error. The rows must be few
/// enough for the graph's 32-bit indices.
pub fn build_graph_from_csv(rows: &Vec<Vec<String>>) -> (built: Result<
    (IncidenceGraph, Vec<usize>, Vec<usize>),
    MalformedRecord,
>)
    requires
        2 * rows@.len() + 2 < u32::MAX,
    ensures
        match built {
            Ok((graph, leaving, entering)) => {
                &&& rows_good(Layout::Incidence, rows@, rows@.len() as int)
                &&& graph.wf()
                &&& graph@ == graph_of(rows_read(Layout::Incidence, rows@, rows@.len() as int))
                &&& graph@.edges.len() == rows@.len()
                &&& graph@.labels.len() == names_of(rows_read(Layout::Incidence, rows@, rows@.len() as int)).len()
                &&& leaving@.len() == graph@.labels.len()
                &&& entering@.len() == graph@.labels.len()
                &&& forall|v: int| 0 <= v < leaving@.len() ==> #[trigger] leaving@[v] == out_degree(graph@.edges, v)
                &&& forall|v: int| 0 <= v < entering@.len() ==> #[trigger] entering@[v] == in_degree(graph@.edges, v)
            },
            Err(error) => first_failure(Layout::Incidence, rows@, rows@.len() as int, error),
        },
{
    match read_rows(rows, rows.len(), Layout::Incidence) {
        Ok(records) => {
            proof {
                assert(views_of(records@).len() == rows@.len());
            }
            Ok(build_graph(&records))
        },
        Err(error) => Err(error),
    }
}

/// Builds the graph of the first `limit` rows of links: one unweighted
/// edge for each row, between the names in its third and fourth column.
/// The rows that are read must be few enough for the graph's 32-bit
/// indices; rows beyond the limit do not count.
pub fn generate_graph_from_csv(rows: &Vec<Vec<String>>, limit: usize) -> (built: Result<
    IncidenceGraph,
    MalformedRecord,
>)
    requires
        2 * at_most(limit as int, rows@.len() as int) + 2 < u32::MAX,
    ensures
        match built {
            Ok(graph) => {
                &&& rows_good(Layout::Links, rows@, at_most(limit as int, rows@.len() as int))
                &&& graph.wf()
                &&& graph@ == graph_of(rows_read(Layout::Links, rows@, at_most(limit as int, rows@.len() as int)))
                &&& graph@.edges.len() == at_most(limit as int, rows@.len() as int)
            },
            Err(error) => first_failure(Layout::Links, rows@, at_most(limit as int, rows@.len() as int), error),
        },
{
    match read_rows(rows, limit, Layout::Links) {
        Ok(records) => {
            proof {
                assert(views_of(records@).len() == at_most(limit as int, rows@.len() as int));
            }
            let built: (IncidenceGraph, Vec<usize>, Vec<usize>) = build_graph(&records);
            Ok(built.0)
        },
        Err(error) => Err(error),
    }
}

} // verus!
