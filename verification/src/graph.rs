//! The incidence graph: labelled nodes and weighted directed edges.
//!
//! A graph only grows. Every label names one node, so adding a label a
//! second time hands back the node that already carries it. Edges are kept
//! as they come: parallel edges and loops are allowed.

use vstd::prelude::*;
use petgraph::graph::DiGraph;
use crate::model::{has_edge, is_distance, lemma_out_targets_are_edges, out_degree, out_targets, reachable};
use crate::storage::{
    store_add_edge, store_add_node, store_dijkstra, store_edge, store_edge_count, store_edges, store_label,
    store_labels, store_neighbors, store_new, store_node_count,
};

verus! {

/// The handle of a node: its position in the order of creation. A handle
/// means something only for the graph that gave it out.
#[derive(Clone, Copy, Debug, PartialEq, Eq, Structural, Hash)]
pub struct NodeId {
    pub index: usize,
}

/// What a graph holds, as plain sequences.
#[verifier::ext_equal]
pub struct GraphView {
    /// The label of each node, by node index.
    pub labels: Seq<Seq<char>>,
    /// The year attached to each node, by node index.
    pub years: Seq<Option<u32>>,
    /// The edges as `(source, target, weight)`, in the order of insertion.
    pub edges: Seq<(usize, usize, u32)>,
}

impl GraphView {
    /// Whether some node carries `label`.
    pub open spec fn has_label(self, label: Seq<char>) -> bool {
        exists|i: int| 0 <= i < self.labels.len() && #[trigger] self.labels[i] == label
    }

    /// The validity of a graph: the numbers of its nodes and of its edges
    /// stay below the largest 32-bit number, each node has a year slot, each
    /// edge joins two nodes, and no label occurs twice.
    pub open spec fn wf(self) -> bool {
        &&& self.labels.len() < u32::MAX
        &&& self.edges.len() < u32::MAX
        &&& self.years.len() == self.labels.len()
        &&& forall|i: int|
            0 <= i < self.edges.len() ==> (#[trigger] self.edges[i]).0 < self.labels.len()
                && self.edges[i].1 < self.labels.len()
        &&& forall|i: int, j: int|
            0 <= i < j < self.labels.len() ==> #[trigger] self.labels[i] != #[trigger] self.labels[j]
    }
}

/// A directed graph over labelled nodes with counted edges.
pub struct IncidenceGraph {
    store: DiGraph<String, u32>,
    years: Vec<Option<u32>>,
}

impl View for IncidenceGraph {
    type V = GraphView;

    closed spec fn view(&self) -> GraphView {
        GraphView { labels: store_labels(self.store), years: self.years@, edges: store_edges(self.store) }
    }
}

impl IncidenceGraph {
    /// The validity of the graph, see [`GraphView::wf`].
    pub open spec fn wf(&self) -> bool {
        self@.wf()
    }

    /// Whether `node` is a node of this graph.
    pub open spec fn has_node(&self, node: NodeId) -> bool {
        node.index < self@.labels.len()
    }

    /// A graph without nodes and edges.
    pub fn new() -> (graph: IncidenceGraph)
        ensures
            graph.wf(),
            graph@.labels.len() == 0,
            graph@.years.len() == 0,
            graph@.edges.len() == 0,
    {
        IncidenceGraph { store: store_new(), years: Vec::new() }
    }

    /// The number of nodes.
    pub fn node_count(&self) -> (n: usize)
        ensures
            n == self@.labels.len(),
    {
        store_node_count(&self.store)
    }

    /// The number of edges.
    pub fn edge_count(&self) -> (n: usize)
        ensures
            n == self@.edges.len(),
    {
        store_edge_count(&self.store)
    }

    /// Whether `node` is a node of this graph.
    pub fn contains(&self, node: NodeId) -> (found: bool)
        ensures
            found == self.has_node(node),
    {
        node.index < store_node_count(&self.store)
    }

    /// The node that carries `label`, if there is one.
    pub fn find_node(&self, label: &String) -> (found: Option<NodeId>)
        requires
            self.wf(),
        ensures
            match found {
                Some(node) => self.has_node(node) && self@.labels[node.index as int] == label@,
                None => !self@.has_label(label@),
            },
    {
        let n: usize = store_node_count(&self.store);
        let mut i: usize = 0;
        while i < n
            invariant
                self.wf(),
                n == self@.labels.len(),
                0 <= i <= n,
                forall|j: int| 0 <= j < i ==> self@.labels[j] != label@,
            decreases n - i,
        {
            let current: &String = store_label(&self.store, i);
            if *current == *label {
                return Some(NodeId { index: i });
            }
            i += 1;
        }
        None
    }

    /// The node that carries `label`, created if no node carries it yet. A
    /// new node gets the next index and the given year; a node that exists is
    /// handed back unchanged, whatever `year` says. The graph must have room
    /// for one more node.
    pub fn add_node_in_year(&mut self, label: String, year: Option<u32>) -> (node: NodeId)
        requires
            old(self).wf(),
            old(self)@.labels.len() + 1 < u32::MAX,
        ensures
            final(self).wf(),
            final(self).has_node(node),
            final(self)@.labels[node.index as int] == label@,
            final(self)@.edges == old(self)@.edges,
            old(self)@.has_label(label@) ==> final(self)@ == old(self)@,
            !old(self)@.has_label(label@) ==> {
                &&& node.index == old(self)@.labels.len()
                &&& final(self)@.labels == old(self)@.labels.push(label@)
                &&& final(self)@.years == old(self)@.years.push(year)
            },
    {
        match self.find_node(&label) {
            Some(node) => node,
            None => {
                let index: usize = store_add_node(&mut self.store, label);
                self.years.push(year);
                NodeId { index }
            },
        }
    }

    /// The node that carries `label`, created without a year if no node
    /// carries it yet.
    pub fn add_node(&mut self, label: String) -> (node: NodeId)
        requires
            old(self).wf(),
            old(self)@.labels.len() + 1 < u32::MAX,
        ensures
            final(self).wf(),
            final(self).has_node(node),
            final(self)@.labels[node.index as int] == label@,
            final(self)@.edges == old(self)@.edges,
            old(self)@.has_label(label@) ==> final(self)@ == old(self)@,
            !old(self)@.has_label(label@) ==> {
                &&& node.index == old(self)@.labels.len()
                &&& final(self)@.labels == old(self)@.labels.push(label@)
                &&& final(self)@.years == old(self)@.years.push(None)
            },
    {
        self.add_node_in_year(label, None)
    }

    /// Appends an edge from `source` to `target`. Nothing else changes. The
    /// graph must have room for one more edge.
    pub fn add_edge(&mut self, source: NodeId, target: NodeId, weight: u32)
        requires
            old(self).wf(),
            old(self).has_node(source),
            old(self).has_node(target),
            old(self)@.edges.len() + 1 < u32::MAX,
        ensures
            final(self).wf(),
            final(self)@.labels == old(self)@.labels,
            final(self)@.years == old(self)@.years,
            final(self)@.edges == old(self)@.edges.push((source.index, target.index, weight)),
    {
        store_add_edge(&mut self.store, source.index, target.index, weight);
    }

    /// The label of `node`.
    pub fn label(&self, node: NodeId) -> (label: &String)
        requires
            self.wf(),
            self.has_node(node),
        ensures
            label@ == self@.labels[node.index as int],
    {
        store_label(&self.store, node.index)
    }

    /// The year of `node`, if it has one.
    pub fn year(&self, node: NodeId) -> (year: Option<u32>)
        requires
            self.wf(),
            self.has_node(node),
        ensures
            year == self@.years[node.index as int],
    {
        self.years[node.index]
    }

    /// The edge that was added as the `i`-th: its source, target and weight.
    pub fn edge(&self, i: usize) -> (edge: (NodeId, NodeId, u32))
        requires
            self.wf(),
            i < self@.edges.len(),
        ensures
            self.has_node(edge.0),
            self.has_node(edge.1),
            (edge.0.index, edge.1.index, edge.2) == self@.edges[i as int],
    {
        let raw: (usize, usize, u32) = store_edge(&self.store, i);
        (NodeId { index: raw.0 }, NodeId { index: raw.1 }, raw.2)
    }

    /// The targets of the edges that leave `node`, the most recently added
    /// edge first, one entry for each edge.
    pub fn neighbors(&self, node: NodeId) -> (targets: Vec<NodeId>)
        requires
            self.wf(),
            self.has_node(node),
        ensures
            targets@.len() == out_degree(self@.edges, node.index as int),
            forall|k: int|
                0 <= k < targets@.len() ==> (#[trigger] targets@[k]).index == out_targets(
                    self@.edges,
                    node.index as int,
                )[k],
            forall|k: int| 0 <= k < targets@.len() ==> self.has_node(#[trigger] targets@[k]),
            forall|k: int|
                0 <= k < targets@.len() ==> has_edge(
                    self@.edges,
                    node.index as int,
                    (#[trigger] targets@[k]).index as int,
                ),
    {
        let raw: Vec<usize> = store_neighbors(&self.store, node.index);
        let mut targets: Vec<NodeId> = Vec::new();
        let mut k: usize = 0;
        proof {
            lemma_out_targets_are_edges(self@.edges, node.index as int);
        }
        while k < raw.len()
            invariant
                0 <= k <= raw@.len(),
                targets@.len() == k,
                forall|j: int| 0 <= j < k ==> (#[trigger] targets@[j]).index == raw@[j],
            decreases raw@.len() - k,
        {
            targets.push(NodeId { index: raw[k] });
            k += 1;
        }
        targets
    }

    /// A shortest-path search from `start`, laid out by node index: `Some`
    /// of the least weight of a walk from `start`, `None` where there is no
    /// walk. With a goal only the goal's entry is settled.
    pub(crate) fn dijkstra(&self, start: NodeId, goal: Option<NodeId>) -> (costs: Vec<Option<u64>>)
        requires
            self.wf(),
            self.has_node(start),
            goal matches Some(t) ==> self.has_node(t),
        ensures
            costs@.len() == self@.labels.len(),
            forall|v: int|
                0 <= v < costs@.len() && (goal is None || goal == Some(NodeId { index: v as usize }))
                    ==> match #[trigger] costs@[v] {
                    Some(d) => is_distance(self@.edges, start.index as int, v, d as int),
                    None => !reachable(self@.edges, start.index as int, v),
                },
    {
        let target: Option<usize> = match goal {
            Some(t) => Some(t.index),
            None => None,
        };
        store_dijkstra(&self.store, start.index, target)
    }

    /// The number of edges that leave `node`.
    pub fn out_degree(&self, node: NodeId) -> (degree: usize)
        requires
            self.wf(),
            self.has_node(node),
        ensures
            degree == out_degree(self@.edges, node.index as int),
    {
        store_neighbors(&self.store, node.index).len()
    }
}

} // verus!
