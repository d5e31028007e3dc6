//! Shortest paths: the least cumulative weight between two nodes.
//!
//! The distance from a node to another is the least weight of a walk
//! between them. A node that no walk reaches has no distance. Weights are
//! counts, so no walk weighs less than nothing and every node is at
//! distance zero from itself.

use vstd::prelude::*;
use crate::graph::{IncidenceGraph, NodeId};
use crate::model::{is_distance, is_walk, reachable, walk_weight};

verus! {

/// The distance from `from` to `to`: the least weight of a walk between
/// them, or `None` where there is no walk.
pub open spec fn distance(edges: Seq<(usize, usize, u32)>, from: int, to: int) -> Option<int> {
    if reachable(edges, from, to) {
        Some(choose|d: int| is_distance(edges, from, to, d))
    } else {
        None
    }
}

/// A least weight is the distance: there is only one.
pub proof fn lemma_distance_unique(edges: Seq<(usize, usize, u32)>, from: int, to: int, d: int)
    requires
        is_distance(edges, from, to, d),
    ensures
        distance(edges, from, to) == Some(d),
{
    let walk = choose|walk: Seq<int>| #[trigger]
        is_walk(edges, from, to, walk) && walk_weight(edges, walk) == d;
    assert(is_walk(edges, from, to, walk));
    let other = choose|d: int| is_distance(edges, from, to, d);
    assert(is_distance(edges, from, to, other));
    let other_walk = choose|walk: Seq<int>| #[trigger]
        is_walk(edges, from, to, walk) && walk_weight(edges, walk) == other;
    assert(is_walk(edges, from, to, other_walk));
}

/// No walk weighs less than nothing.
pub proof fn lemma_walk_weight_nonnegative(edges: Seq<(usize, usize, u32)>, walk: Seq<int>)
    ensures
        walk_weight(edges, walk) >= 0,
    decreases walk.len(),
{
    if walk.len() > 0 {
        lemma_walk_weight_nonnegative(edges, walk.drop_first());
    }
}

/// Every node is at distance zero from itself.
pub proof fn lemma_distance_to_self(edges: Seq<(usize, usize, u32)>, node: int)
    ensures
        distance(edges, node, node) == Some(0int),
{
    let stay = Seq::<int>::empty();
    assert(is_walk(edges, node, node, stay));
    assert(walk_weight(edges, stay) == 0);
    assert forall|walk: Seq<int>| #[trigger] is_walk(edges, node, node, walk) implies 0 <= walk_weight(
        edges,
        walk,
    ) by {
        lemma_walk_weight_nonnegative(edges, walk);
    }
    lemma_distance_unique(edges, node, node, 0);
}

/// Where every edge weighs at least one, two different nodes are at a
/// distance of at least one, if at any.
pub proof fn lemma_distance_positive(edges: Seq<(usize, usize, u32)>, from: int, to: int)
    requires
        forall|i: int| 0 <= i < edges.len() ==> (#[trigger] edges[i]).2 >= 1,
        from != to,
    ensures
        distance(edges, from, to) matches Some(d) ==> d >= 1,
{
    if reachable(edges, from, to) {
        let d = choose|d: int| is_distance(edges, from, to, d);
        let some = choose|walk: Seq<int>| #[trigger] is_walk(edges, from, to, walk);
        lemma_some_walk_is_lightest(edges, from, to, some);
        assert(is_distance(edges, from, to, d));
        let walk = choose|walk: Seq<int>| #[trigger]
            is_walk(edges, from, to, walk) && walk_weight(edges, walk) == d;
        assert(walk.len() > 0);
        lemma_walk_weight_nonnegative(edges, walk.drop_first());
    }
}

/// Among the walks between two nodes one is lightest: where a walk exists,
/// so does a distance.
pub proof fn lemma_some_walk_is_lightest(edges: Seq<(usize, usize, u32)>, from: int, to: int, walk: Seq<int>)
    requires
        is_walk(edges, from, to, walk),
    ensures
        exists|d: int| is_distance(edges, from, to, d),
{
    lemma_walk_weight_nonnegative(edges, walk);
    lemma_lightest_below(edges, from, to, walk, walk_weight(edges, walk) as nat);
}

/// Induction behind `lemma_some_walk_is_lightest`, on the weight of the
/// walk at hand.
proof fn lemma_lightest_below(edges: Seq<(usize, usize, u32)>, from: int, to: int, walk: Seq<int>, bound: nat)
    requires
        is_walk(edges, from, to, walk),
        walk_weight(edges, walk) == bound,
    ensures
        exists|d: int| is_distance(edges, from, to, d),
    decreases bound,
{
    if forall|other: Seq<int>| #[trigger] is_walk(edges, from, to, other) ==> bound <= walk_weight(edges, other) {
        assert(is_distance(edges, from, to, bound as int));
    } else {
        let other = choose|other: Seq<int>| #[trigger]
            is_walk(edges, from, to, other) && !(bound <= walk_weight(edges, other));
        lemma_walk_weight_nonnegative(edges, other);
        lemma_lightest_below(edges, from, to, other, walk_weight(edges, other) as nat);
    }
}

/// A distance is never negative.
pub proof fn lemma_distance_nonnegative(edges: Seq<(usize, usize, u32)>, from: int, to: int)
    ensures
        distance(edges, from, to) matches Some(d) ==> d >= 0,
{
    if reachable(edges, from, to) {
        let d = choose|d: int| is_distance(edges, from, to, d);
        let some = choose|walk: Seq<int>| #[trigger] is_walk(edges, from, to, walk);
        lemma_some_walk_is_lightest(edges, from, to, some);
        assert(is_distance(edges, from, to, d));
        let walk = choose|walk: Seq<int>| #[trigger]
            is_walk(edges, from, to, walk) && walk_weight(edges, walk) == d;
        lemma_walk_weight_nonnegative(edges, walk);
    }
}

/// The distances from `source` to every node, by node index: `Some` of the
/// distance, `None` for a node that cannot be reached.
pub fn shortest_distances(graph: &IncidenceGraph, source: NodeId) -> (distances: Vec<Option<u64>>)
    requires
        graph.wf(),
        graph.has_node(source),
    ensures
        distances@.len() == graph@.labels.len(),
        forall|v: int|
            0 <= v < distances@.len() ==> match #[trigger] distances@[v] {
                Some(d) => distance(graph@.edges, source.index as int, v) == Some(d as int),
                None => distance(graph@.edges, source.index as int, v) is None,
            },
{
    let distances: Vec<Option<u64>> = graph.dijkstra(source, None);
    proof {
        assert forall|v: int| 0 <= v < distances@.len() implies match #[trigger] distances@[v] {
            Some(d) => distance(graph@.edges, source.index as int, v) == Some(d as int),
            None => distance(graph@.edges, source.index as int, v) is None,
        } by {
            match distances@[v] {
                Some(d) => lemma_distance_unique(graph@.edges, source.index as int, v, d as int),
                None => {},
            }
        }
    }
    distances
}

/// The distance from `start` to `end`, found by a search that stops at
/// `end`.
pub fn shortest_path_length(graph: &IncidenceGraph, start: NodeId, end: NodeId) -> (length: Option<u64>)
    requires
        graph.wf(),
        graph.has_node(start),
        graph.has_node(end),
    ensures
        match length {
            Some(d) => distance(graph@.edges, start.index as int, end.index as int) == Some(d as int),
            None => distance(graph@.edges, start.index as int, end.index as int) is None,
        },
{
    let distances: Vec<Option<u64>> = graph.dijkstra(start, Some(end));
    let length: Option<u64> = distances[end.index];
    proof {
        match length {
            Some(d) => lemma_distance_unique(graph@.edges, start.index as int, end.index as int, d as int),
            None => {},
        }
    }
    length
}

/// The degrees of separation between `start` and `end`: their distance,
/// looked up among the distances from `start` to every node.
pub fn degrees_of_separation(graph: &IncidenceGraph, start: NodeId, end: NodeId) -> (degrees: Option<u64>)
    requires
        graph.wf(),
        graph.has_node(start),
        graph.has_node(end),
    ensures
        match degrees {
            Some(d) => distance(graph@.edges, start.index as int, end.index as int) == Some(d as int),
            None => distance(graph@.edges, start.index as int, end.index as int) is None,
        },
{
    let distances: Vec<Option<u64>> = shortest_distances(graph, start);
    distances[end.index]
}

} // verus!
