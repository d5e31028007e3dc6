//! The graph store: `petgraph`'s directed graph, seen through contracts.
//!
//! Verus does not read `petgraph`. What this module says of it is believed,
//! not proved: each function below makes one call into `petgraph` and states
//! what that call does to the nodes and edges of the store.

use vstd::prelude::*;
use petgraph::graph::DiGraph;
use petgraph::graph::NodeIndex;
use crate::model::{is_distance, out_targets, reachable};

verus! {

#[verifier::external_type_specification]
#[verifier::external_body]
pub struct ExDirected(petgraph::Directed);

#[verifier::external_type_specification]
#[verifier::external_body]
#[verifier::reject_recursive_types(N)]
#[verifier::reject_recursive_types(E)]
#[verifier::reject_recursive_types(Ty)]
#[verifier::reject_recursive_types(Ix)]
pub struct ExGraph<N, E, Ty, Ix>(petgraph::graph::Graph<N, E, Ty, Ix>);

/// The labels of the store's nodes, in the order in which they were added.
/// The position of a label is the index of its node.
pub uninterp spec fn store_labels(store: DiGraph<String, u32>) -> Seq<Seq<char>>;

/// The edges of the store as `(source, target, weight)`, in the order in
/// which they were added.
pub uninterp spec fn store_edges(store: DiGraph<String, u32>) -> Seq<(usize, usize, u32)>;

/// `Graph::new`: a store without nodes and edges.
#[verifier::external_body]
pub(crate) fn store_new() -> (store: DiGraph<String, u32>)
    ensures
        store_labels(store).len() == 0,
        store_edges(store).len() == 0,
{
    DiGraph::<String, u32>::new()
}

/// `Graph::node_count`: the number of nodes.
#[verifier::external_body]
pub(crate) fn store_node_count(store: &DiGraph<String, u32>) -> (n: usize)
    ensures
        n == store_labels(*store).len(),
{
    store.node_count()
}

/// `Graph::edge_count`: the number of edges.
#[verifier::external_body]
pub(crate) fn store_edge_count(store: &DiGraph<String, u32>) -> (n: usize)
    ensures
        n == store_edges(*store).len(),
{
    store.edge_count()
}

/// `Graph::add_node`: appends a node with the given label and returns its
/// index, which is the number of nodes before the call. The edges stay as
/// they are. `petgraph` panics once the index no longer fits its 32-bit
/// index type, which the precondition rules out.
#[verifier::external_body]
pub(crate) fn store_add_node(store: &mut DiGraph<String, u32>, label: String) -> (index: usize)
    requires
        store_labels(*old(store)).len() < u32::MAX,
    ensures
        index == store_labels(*old(store)).len(),
        store_labels(*final(store)) == store_labels(*old(store)).push(label@),
        store_edges(*final(store)) == store_edges(*old(store)),
{
    store.add_node(label).index()
}

/// `Graph::add_edge`: appends an edge from node `a` to node `b` with the
/// given weight. The nodes stay as they are; parallel edges and loops are
/// kept. `petgraph` panics where an end is no node, or once the edge's index
/// no longer fits its 32-bit index type; the precondition rules both out.
#[verifier::external_body]
pub(crate) fn store_add_edge(store: &mut DiGraph<String, u32>, a: usize, b: usize, weight: u32)
    requires
        a < store_labels(*old(store)).len(),
        b < store_labels(*old(store)).len(),
        store_labels(*old(store)).len() <= u32::MAX,
        store_edges(*old(store)).len() < u32::MAX,
    ensures
        store_edges(*final(store)) == store_edges(*old(store)).push((a, b, weight)),
        store_labels(*final(store)) == store_labels(*old(store)),
{
    store.add_edge(NodeIndex::new(a), NodeIndex::new(b), weight);
}

/// Indexing a `Graph` by a node index: the label of node `a`.
#[verifier::external_body]
pub(crate) fn store_label(store: &DiGraph<String, u32>, a: usize) -> (label: &String)
    requires
        a < store_labels(*store).len(),
        store_labels(*store).len() <= u32::MAX,
    ensures
        label@ == store_labels(*store)[a as int],
{
    &store[NodeIndex::new(a)]
}

/// `Graph::raw_edges`, at one position: the ends and the weight of the
/// edge that was added as the `i`-th.
#[verifier::external_body]
pub(crate) fn store_edge(store: &DiGraph<String, u32>, i: usize) -> (edge: (usize, usize, u32))
    requires
        i < store_edges(*store).len(),
    ensures
        edge == store_edges(*store)[i as int],
{
    let raw = &store.raw_edges()[i];
    (raw.source().index(), raw.target().index(), raw.weight)
}

/// `Graph::neighbors`: the targets of the edges that leave node `a`. For a
/// directed graph `petgraph` lists them in reverse order of insertion, one
/// entry for each edge.
#[verifier::external_body]
pub(crate) fn store_neighbors(store: &DiGraph<String, u32>, a: usize) -> (targets: Vec<usize>)
    requires
        a < store_labels(*store).len(),
        store_labels(*store).len() <= u32::MAX,
    ensures
        targets@ == out_targets(store_edges(*store), a as int),
{
    store.neighbors(NodeIndex::new(a)).map(|target| target.index()).collect()
}

/// The cost of an edge in a shortest-path query: its weight, widened so
/// that the cost of a walk cannot overflow.
pub(crate) fn edge_cost(weight: u32) -> (cost: u64)
    ensures
        cost == weight,
{
    weight as u64
}

/// `petgraph::algo::dijkstra` from node `start`, the cost of an edge being
/// its weight. The result is laid out by node index: `Some` of the least
/// weight of a walk from `start` to the node, `None` for a node that no
/// walk reaches. With a goal the search ends as soon as the goal's cost is
/// settled, so only the goal's entry is claimed then.
///
/// A least-weight walk visits no node twice, so a cost stays below the
/// number of nodes times the largest weight and fits 64 bits.
#[verifier::external_body]
pub(crate) fn store_dijkstra(store: &DiGraph<String, u32>, start: usize, goal: Option<usize>) -> (costs:
    Vec<Option<u64>>)
    requires
        start < store_labels(*store).len(),
        store_labels(*store).len() <= u32::MAX,
        goal matches Some(t) ==> t < store_labels(*store).len(),
    ensures
        costs@.len() == store_labels(*store).len(),
        forall|v: int|
            0 <= v < costs@.len() && (goal is None || goal == Some(v as usize)) ==> match #[trigger] costs@[v] {
                Some(d) => is_distance(store_edges(*store), start as int, v, d as int),
                None => !reachable(store_edges(*store), start as int, v),
            },
{
    let found = petgraph::algo::dijkstra(
        store,
        NodeIndex::new(start),
        goal.map(|t| NodeIndex::new(t)),
        |edge| edge_cost(*edge.weight()),
    );
    (0..store.node_count()).map(|v| found.get(&NodeIndex::new(v)).copied()).collect()
}

} // verus!
