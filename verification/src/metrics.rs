//! Aggregate statistics: average distance, degrees and their histograms.

use vstd::prelude::*;
use crate::graph::{IncidenceGraph, NodeId};
use crate::model::{in_degree, out_degree, reachable};
use crate::paths::{distance, lemma_distance_nonnegative, lemma_distance_positive, shortest_distances};
use crate::ratio::Ratio;

verus! {

/// What the ordered pair `(from, to)` adds to the sum of distances: the
/// distance, where the two nodes differ and a walk joins them, else nothing.
pub open spec fn pair_distance(edges: Seq<(usize, usize, u32)>, from: int, to: int) -> int {
    if from == to {
        0
    } else {
        match distance(edges, from, to) {
            Some(d) => d,
            None => 0,
        }
    }
}

/// Whether the ordered pair `(from, to)` is counted: two different nodes
/// joined by a walk.
pub open spec fn is_joined_pair(edges: Seq<(usize, usize, u32)>, from: int, to: int) -> bool {
    from != to && reachable(edges, from, to)
}

/// The sum of the distances from `from` to the nodes below `upto`.
pub open spec fn row_distance(edges: Seq<(usize, usize, u32)>, from: int, upto: nat) -> int
    decreases upto,
{
    if upto == 0 {
        0
    } else {
        row_distance(edges, from, (upto - 1) as nat) + pair_distance(edges, from, upto - 1)
    }
}

/// The number of nodes below `upto`, other than `from`, that `from` reaches.
pub open spec fn row_pairs(edges: Seq<(usize, usize, u32)>, from: int, upto: nat) -> nat
    decreases upto,
{
    if upto == 0 {
        0
    } else {
        row_pairs(edges, from, (upto - 1) as nat) + if is_joined_pair(edges, from, upto - 1) {
            1nat
        } else {
            0nat
        }
    }
}

/// The sum of the distances over the ordered pairs of joined nodes whose
/// first node is below `rows`, in a graph of `nodes` nodes.
pub open spec fn total_distance(edges: Seq<(usize, usize, u32)>, nodes: nat, rows: nat) -> int
    decreases rows,
{
    if rows == 0 {
        0
    } else {
        total_distance(edges, nodes, (rows - 1) as nat) + row_distance(edges, rows - 1, nodes)
    }
}

/// The number of ordered pairs of joined nodes whose first node is below
/// `rows`, in a graph of `nodes` nodes.
pub open spec fn total_pairs(edges: Seq<(usize, usize, u32)>, nodes: nat, rows: nat) -> nat
    decreases rows,
{
    if rows == 0 {
        0
    } else {
        total_pairs(edges, nodes, (rows - 1) as nat) + row_pairs(edges, rows - 1, nodes)
    }
}

/// Whether every edge weighs at least one.
pub open spec fn weights_positive(edges: Seq<(usize, usize, u32)>) -> bool {
    forall|i: int| 0 <= i < edges.len() ==> (#[trigger] edges[i]).2 >= 1
}

/// Within one row: the sum of distances is not negative, it is zero where
/// no pair is counted, and with positive weights it is at least the number
/// of pairs.
pub proof fn lemma_row_sign(edges: Seq<(usize, usize, u32)>, from: int, upto: nat)
    ensures
        row_distance(edges, from, upto) >= 0,
        row_pairs(edges, from, upto) == 0 ==> row_distance(edges, from, upto) == 0,
        weights_positive(edges) ==> row_distance(edges, from, upto) >= row_pairs(edges, from, upto),
    decreases upto,
{
    if upto > 0 {
        lemma_row_sign(edges, from, (upto - 1) as nat);
        lemma_distance_nonnegative(edges, from, upto - 1);
        if weights_positive(edges) && from != upto - 1 {
            lemma_distance_positive(edges, from, upto - 1);
        }
    }
}

/// The average distance is never negative and is zero where no pair of
/// nodes is joined. Where every edge weighs at least one it is zero only
/// there: each joined pair then lies at a distance of at least one.
pub proof fn lemma_average_distance_sign(edges: Seq<(usize, usize, u32)>, nodes: nat, rows: nat)
    ensures
        total_distance(edges, nodes, rows) >= 0,
        total_pairs(edges, nodes, rows) == 0 ==> total_distance(edges, nodes, rows) == 0,
        weights_positive(edges) ==> total_distance(edges, nodes, rows) >= total_pairs(edges, nodes, rows),
        weights_positive(edges) ==> (total_distance(edges, nodes, rows) == 0 <==> total_pairs(
            edges,
            nodes,
            rows,
        ) == 0),
    decreases rows,
{
    if rows > 0 {
        lemma_average_distance_sign(edges, nodes, (rows - 1) as nat);
        lemma_row_sign(edges, rows - 1, nodes);
    }
}

/// The average distance between the ordered pairs of joined nodes: the sum
/// of their distances over their number. Where no pair is joined the
/// denominator is zero and the ratio stands for zero.
pub fn average_distance_between_vertices(graph: &IncidenceGraph) -> (average: Ratio)
    requires
        graph.wf(),
    ensures
        average.numerator == total_distance(graph@.edges, graph@.labels.len(), graph@.labels.len()),
        average.denominator == total_pairs(graph@.edges, graph@.labels.len(), graph@.labels.len()),
        average.is_zero() <== average.denominator == 0,
        weights_positive(graph@.edges) ==> (average.is_zero() <==> average.denominator == 0),
{
    let n: usize = graph.node_count();
    let mut total: u128 = 0;
    let mut pairs: u64 = 0;
    let mut u: usize = 0;
    while u < n
        invariant
            graph.wf(),
            n == graph@.labels.len(),
            0 <= u <= n,
            total == total_distance(graph@.edges, n as nat, u as nat),
            pairs == total_pairs(graph@.edges, n as nat, u as nat),
            pairs <= u * n,
            total <= pairs * u64::MAX,
        decreases n - u,
    {
        let distances: Vec<Option<u64>> = shortest_distances(graph, NodeId { index: u });
        let mut row_total: u128 = 0;
        let mut row_count: u64 = 0;
        let mut v: usize = 0;
        while v < n
            invariant
                graph.wf(),
                n == graph@.labels.len(),
                0 <= u < n,
                0 <= v <= n,
                distances@.len() == n,
                forall|w: int|
                    0 <= w < n ==> match #[trigger] distances@[w] {
                        Some(d) => distance(graph@.edges, u as int, w) == Some(d as int),
                        None => distance(graph@.edges, u as int, w) is None,
                    },
                row_total == row_distance(graph@.edges, u as int, v as nat),
                row_count == row_pairs(graph@.edges, u as int, v as nat),
                row_count <= v,
                row_total <= row_count * u64::MAX,
            decreases n - v,
        {
            if v != u {
                match distances[v] {
                    Some(d) => {
                        assert((row_count + 1) * u64::MAX <= 0x1_0000_0000 * u64::MAX) by (nonlinear_arith)
                            requires
                                row_count + 1 <= 0x1_0000_0000,
                        ;
                        assert(row_total + d <= (row_count + 1) * u64::MAX) by (nonlinear_arith)
                            requires
                                row_total <= row_count * u64::MAX,
                                d <= u64::MAX,
                        ;
                        row_total = row_total + (d as u128);
                        row_count = row_count + 1;
                    },
                    None => {},
                }
            }
            v += 1;
        }
        proof {
            let m: int = u64::MAX as int;
            assert(pairs + row_count <= (u + 1) * n) by (nonlinear_arith)
                requires
                    pairs <= u * n,
                    row_count <= n,
            ;
            assert((u + 1) * n <= 0xFFFF_FFFF * 0xFFFF_FFFF) by (nonlinear_arith)
                requires
                    0 <= u + 1 <= n,
                    n <= 0xFFFF_FFFF,
            ;
            assert(total + row_total <= (pairs + row_count) * m) by (nonlinear_arith)
                requires
                    total <= pairs * m,
                    row_total <= row_count * m,
            ;
            assert((pairs + row_count) * m <= 0xFFFF_FFFF * 0xFFFF_FFFF * m) by (nonlinear_arith)
                requires
                    0 <= pairs + row_count <= 0xFFFF_FFFF * 0xFFFF_FFFF,
                    m >= 0,
            ;
        }
        total = total + row_total;
        pairs = pairs + row_count;
        u += 1;
    }
    proof {
        lemma_average_distance_sign(graph@.edges, n as nat, n as nat);
    }
    Ratio { numerator: total, denominator: pairs }
}

/// The average distance together with the number of joined pairs and the
/// number of edges.
pub fn calculate_average_distance(graph: &IncidenceGraph) -> (summary: (Ratio, u64, usize))
    requires
        graph.wf(),
    ensures
        summary.0.numerator == total_distance(graph@.edges, graph@.labels.len(), graph@.labels.len()),
        summary.0.denominator == total_pairs(graph@.edges, graph@.labels.len(), graph@.labels.len()),
        summary.1 == summary.0.denominator,
        summary.2 == graph@.edges.len(),
{
    let average: Ratio = average_distance_between_vertices(graph);
    (average, average.denominator, graph.edge_count())
}

/// The sum of the out-degrees of the nodes below `upto`.
pub open spec fn out_degree_sum(edges: Seq<(usize, usize, u32)>, upto: nat) -> nat
    decreases upto,
{
    if upto == 0 {
        0
    } else {
        out_degree_sum(edges, (upto - 1) as nat) + out_degree(edges, upto - 1)
    }
}

/// The sum of the in-degrees of the nodes below `upto`.
pub open spec fn in_degree_sum(edges: Seq<(usize, usize, u32)>, upto: nat) -> nat
    decreases upto,
{
    if upto == 0 {
        0
    } else {
        in_degree_sum(edges, (upto - 1) as nat) + in_degree(edges, upto - 1)
    }
}

/// The number of nodes below `upto` whose out-degree is `degree`.
pub open spec fn nodes_of_degree(edges: Seq<(usize, usize, u32)>, upto: nat, degree: int) -> nat
    decreases upto,
{
    if upto == 0 {
        0
    } else {
        nodes_of_degree(edges, (upto - 1) as nat, degree) + if out_degree(edges, upto - 1) == degree {
            1nat
        } else {
            0nat
        }
    }
}

/// The number of edges among the first `upto` whose target has the
/// out-degree `degree`.
pub open spec fn edges_into_degree(edges: Seq<(usize, usize, u32)>, upto: nat, degree: int) -> nat
    decreases upto,
{
    if upto == 0 {
        0
    } else {
        edges_into_degree(edges, (upto - 1) as nat, degree) + if out_degree(
            edges,
            edges[upto - 1].1 as int,
        ) == degree {
            1nat
        } else {
            0nat
        }
    }
}

/// One more edge adds one to the out-degree of its source and to the
/// in-degree of its target, and nothing to any other degree.
pub proof fn lemma_degree_step(edges: Seq<(usize, usize, u32)>, a: int)
    requires
        edges.len() > 0,
    ensures
        out_degree(edges, a) == out_degree(edges.drop_last(), a) + if edges.last().0 == a {
            1nat
        } else {
            0nat
        },
        in_degree(edges, a) == in_degree(edges.drop_last(), a) + if edges.last().1 == a {
            1nat
        } else {
            0nat
        },
{
}

/// No degree exceeds the number of edges.
pub proof fn lemma_degree_bound(edges: Seq<(usize, usize, u32)>, a: int)
    ensures
        out_degree(edges, a) <= edges.len(),
        in_degree(edges, a) <= edges.len(),
    decreases edges.len(),
{
    if edges.len() > 0 {
        lemma_degree_step(edges, a);
        lemma_degree_bound(edges.drop_last(), a);
    }
}

proof fn lemma_degree_sum_step(edges: Seq<(usize, usize, u32)>, upto: nat)
    requires
        edges.len() > 0,
    ensures
        out_degree_sum(edges, upto) == out_degree_sum(edges.drop_last(), upto) + if edges.last().0 < upto {
            1nat
        } else {
            0nat
        },
        in_degree_sum(edges, upto) == in_degree_sum(edges.drop_last(), upto) + if edges.last().1 < upto {
            1nat
        } else {
            0nat
        },
    decreases upto,
{
    if upto > 0 {
        lemma_degree_sum_step(edges, (upto - 1) as nat);
        lemma_degree_step(edges, upto - 1);
    }
}

/// Every edge is counted once on each side: where all edges join nodes
/// below `nodes`, the out-degrees of these nodes add up to the number of
/// edges, and so do their in-degrees.
pub proof fn lemma_degree_sums_are_edge_count(edges: Seq<(usize, usize, u32)>, nodes: nat)
    requires
        forall|i: int| 0 <= i < edges.len() ==> (#[trigger] edges[i]).0 < nodes && edges[i].1 < nodes,
    ensures
        out_degree_sum(edges, nodes) == edges.len(),
        in_degree_sum(edges, nodes) == edges.len(),
    decreases edges.len(),
{
    if edges.len() == 0 {
        assert(edges =~= Seq::<(usize, usize, u32)>::empty());
        lemma_degree_sums_of_nothing(nodes);
    } else {
        let rest = edges.drop_last();
        assert forall|i: int| 0 <= i < rest.len() implies (#[trigger] rest[i]).0 < nodes && rest[i].1 < nodes by {
            assert(rest[i] == edges[i]);
        }
        lemma_degree_sums_are_edge_count(rest, nodes);
        lemma_degree_sum_step(edges, nodes);
        assert(edges.last() == edges[edges.len() - 1]);
    }
}

proof fn lemma_degree_sums_of_nothing(upto: nat)
    ensures
        out_degree_sum(Seq::<(usize, usize, u32)>::empty(), upto) == 0,
        in_degree_sum(Seq::<(usize, usize, u32)>::empty(), upto) == 0,
    decreases upto,
{
    if upto > 0 {
        lemma_degree_sums_of_nothing((upto - 1) as nat);
    }
}

/// The out-degree of each node, by node index.
pub fn out_degrees(graph: &IncidenceGraph) -> (degrees: Vec<usize>)
    requires
        graph.wf(),
    ensures
        degrees@.len() == graph@.labels.len(),
        forall|v: int| 0 <= v < degrees@.len() ==> #[trigger] degrees@[v] == out_degree(graph@.edges, v),
{
    let n: usize = graph.node_count();
    let mut degrees: Vec<usize> = Vec::new();
    let mut v: usize = 0;
    while v < n
        invariant
            graph.wf(),
            n == graph@.labels.len(),
            0 <= v <= n,
            degrees@.len() == v,
            forall|w: int| 0 <= w < v ==> #[trigger] degrees@[w] == out_degree(graph@.edges, w),
        decreases n - v,
    {
        degrees.push(graph.out_degree(NodeId { index: v }));
        v += 1;
    }
    degrees
}

/// The average out-degree: the out-degrees of all nodes, added up, over
/// the number of nodes. The sum is the number of edges.
pub fn average_degree(graph: &IncidenceGraph) -> (average: Ratio)
    requires
        graph.wf(),
    ensures
        average.numerator == out_degree_sum(graph@.edges, graph@.labels.len()),
        average.numerator == graph@.edges.len(),
        average.denominator == graph@.labels.len(),
{
    let n: usize = graph.node_count();
    let mut total: u128 = 0;
    let mut v: usize = 0;
    while v < n
        invariant
            graph.wf(),
            n == graph@.labels.len(),
            0 <= v <= n,
            total == out_degree_sum(graph@.edges, v as nat),
            total <= v * 0xFFFF_FFFF,
        decreases n - v,
    {
        let degree: usize = graph.out_degree(NodeId { index: v });
        proof {
            lemma_degree_bound(graph@.edges, v as int);
            assert((v + 1) * 0xFFFF_FFFF <= 0xFFFF_FFFF * 0xFFFF_FFFF) by (nonlinear_arith)
                requires
                    v + 1 <= 0xFFFF_FFFF,
            ;
        }
        total = total + (degree as u128);
        v += 1;
    }
    proof {
        lemma_degree_sums_are_edge_count(graph@.edges, n as nat);
    }
    Ratio { numerator: total, denominator: n as u64 }
}

/// The connection counts of each node, by node index: first the number of
/// edges that leave it, then the number of edges that enter it. Each edge
/// adds one to the first count of its source and one to the second count
/// of its target.
pub fn calculate_min_connections(graph: &IncidenceGraph) -> (counts: (Vec<usize>, Vec<usize>))
    requires
        graph.wf(),
    ensures
        counts.0@.len() == graph@.labels.len(),
        counts.1@.len() == graph@.labels.len(),
        forall|v: int| 0 <= v < counts.0@.len() ==> #[trigger] counts.0@[v] == out_degree(graph@.edges, v),
        forall|v: int| 0 <= v < counts.1@.len() ==> #[trigger] counts.1@[v] == in_degree(graph@.edges, v),
{
    let n: usize = graph.node_count();
    let m: usize = graph.edge_count();
    let mut leaving: Vec<usize> = zeros(n);
    let mut entering: Vec<usize> = zeros(n);
    let mut i: usize = 0;
    while i < m
        invariant
            graph.wf(),
            n == graph@.labels.len(),
            m == graph@.edges.len(),
            0 <= i <= m,
            leaving@.len() == n,
            entering@.len() == n,
            forall|v: int|
                0 <= v < n ==> #[trigger] leaving@[v] == out_degree(graph@.edges.take(i as int), v),
            forall|v: int|
                0 <= v < n ==> #[trigger] entering@[v] == in_degree(graph@.edges.take(i as int), v),
        decreases m - i,
    {
        let edge: (NodeId, NodeId, u32) = graph.edge(i);
        let source: usize = edge.0.index;
        let target: usize = edge.1.index;
        proof {
            let before = graph@.edges.take(i as int);
            let after = graph@.edges.take(i + 1);
            assert(after.drop_last() =~= before);
            assert(after.last() == graph@.edges[i as int]);
            assert forall|v: int| 0 <= v < n implies out_degree(after, v) == out_degree(before, v) + if v
                == source {
                1nat
            } else {
                0nat
            } && in_degree(after, v) == in_degree(before, v) + if v == target {
                1nat
            } else {
                0nat
            } by {
                lemma_degree_step(after, v);
            }
            lemma_degree_bound(before, source as int);
            lemma_degree_bound(before, target as int);
        }
        leaving.set(source, leaving[source] + 1);
        entering.set(target, entering[target] + 1);
        i += 1;
    }
    assert(graph@.edges.take(m as int) =~= graph@.edges);
    (leaving, entering)
}

/// A vector of `len` zeros.
fn zeros(len: usize) -> (v: Vec<usize>)
    ensures
        v@.len() == len,
        forall|i: int| 0 <= i < len ==> #[trigger] v@[i] == 0,
{
    let mut v: Vec<usize> = Vec::new();
    let mut i: usize = 0;
    while i < len
        invariant
            0 <= i <= len,
            v@.len() == i,
            forall|j: int| 0 <= j < i ==> #[trigger] v@[j] == 0,
        decreases len - i,
    {
        v.push(0);
        i += 1;
    }
    v
}

/// No more than `upto` nodes lie below `upto`, whatever their degree; and
/// a node below `upto` with the degree asked for is counted.
pub proof fn lemma_nodes_of_degree_bounds(edges: Seq<(usize, usize, u32)>, upto: nat, degree: int)
    ensures
        nodes_of_degree(edges, upto, degree) <= upto,
        forall|v: int|
            0 <= v < upto && #[trigger] out_degree(edges, v) == degree ==> nodes_of_degree(edges, upto, degree)
                >= 1,
    decreases upto,
{
    if upto > 0 {
        lemma_nodes_of_degree_bounds(edges, (upto - 1) as nat, degree);
    }
}

/// The histogram of out-degrees: entry `d` is the number of nodes that
/// `d` edges leave.
///
/// The histogram has an entry for each degree below the number of nodes.
/// Where parallel edges or loops push a degree beyond that, it is as long
/// as the largest degree asks for and no longer, so that every node is
/// counted.
pub fn degree_distribution(graph: &IncidenceGraph) -> (histogram: Vec<usize>)
    requires
        graph.wf(),
    ensures
        histogram@.len() >= graph@.labels.len(),
        forall|d: int|
            0 <= d < histogram@.len() ==> #[trigger] histogram@[d] == nodes_of_degree(
                graph@.edges,
                graph@.labels.len(),
                d,
            ),
        forall|v: int| 0 <= v < graph@.labels.len() ==> out_degree(graph@.edges, v) < histogram@.len(),
        histogram@.len() > graph@.labels.len() ==> histogram@[histogram@.len() - 1] > 0,
{
    let n: usize = graph.node_count();
    let degrees: Vec<usize> = out_degrees(graph);
    let mut largest: usize = 0;
    let mut v: usize = 0;
    while v < n
        invariant
            n == graph@.labels.len(),
            degrees@.len() == n,
            0 <= v <= n,
            forall|w: int| 0 <= w < v ==> #[trigger] degrees@[w] <= largest,
            largest == 0 || exists|w: int| 0 <= w < v && #[trigger] degrees@[w] == largest,
        decreases n - v,
    {
        if degrees[v] > largest {
            largest = degrees[v];
        }
        v += 1;
    }
    proof {
        if n > 0 {
            lemma_degree_bound(graph@.edges, 0);
            assert(degrees@[0] <= largest);
            if largest > 0 {
                let w = choose|w: int| 0 <= w < n && #[trigger] degrees@[w] == largest;
                lemma_degree_bound(graph@.edges, w);
            }
        }
    }
    let len: usize = if n == 0 {
        0
    } else if largest < n {
        n
    } else {
        largest + 1
    };
    let mut histogram: Vec<usize> = zeros(len);
    let mut v: usize = 0;
    while v < n
        invariant
            n == graph@.labels.len(),
            degrees@.len() == n,
            0 <= v <= n,
            histogram@.len() == len,
            forall|w: int| 0 <= w < n ==> #[trigger] degrees@[w] == out_degree(graph@.edges, w),
            forall|w: int| 0 <= w < n ==> #[trigger] degrees@[w] < len,
            forall|d: int| 0 <= d < len ==> #[trigger] histogram@[d] == nodes_of_degree(graph@.edges, v as nat, d),
        decreases n - v,
    {
        let degree: usize = degrees[v];
        proof {
            lemma_nodes_of_degree_bounds(graph@.edges, v as nat, degree as int);
        }
        histogram.set(degree, histogram[degree] + 1);
        v += 1;
    }
    proof {
        assert forall|w: int| 0 <= w < n implies out_degree(graph@.edges, w) < len by {
            assert(degrees@[w] < len);
        }
        if len > n {
            let w = choose|w: int| 0 <= w < n && #[trigger] degrees@[w] == largest;
            lemma_nodes_of_degree_bounds(graph@.edges, n as nat, largest as int);
            assert(out_degree(graph@.edges, w) == largest);
        }
    }
    histogram
}

/// The histogram of the out-degrees met one step away: entry `d` is the
/// number of edges whose target `d` edges leave. It has an entry for each
/// degree below the number of nodes; an edge whose target has a larger
/// degree is not counted.
pub fn neighbors_at_distance_2_distribution(graph: &IncidenceGraph) -> (histogram: Vec<usize>)
    requires
        graph.wf(),
    ensures
        histogram@.len() == graph@.labels.len(),
        forall|d: int|
            0 <= d < histogram@.len() ==> #[trigger] histogram@[d] == edges_into_degree(
                graph@.edges,
                graph@.edges.len(),
                d,
            ),
{
    let n: usize = graph.node_count();
    let m: usize = graph.edge_count();
    let degrees: Vec<usize> = out_degrees(graph);
    let mut histogram: Vec<usize> = zeros(n);
    let mut i: usize = 0;
    while i < m
        invariant
            graph.wf(),
            n == graph@.labels.len(),
            m == graph@.edges.len(),
            degrees@.len() == n,
            0 <= i <= m,
            histogram@.len() == n,
            forall|w: int| 0 <= w < n ==> #[trigger] degrees@[w] == out_degree(graph@.edges, w),
            forall|d: int|
                0 <= d < n ==> #[trigger] histogram@[d] == edges_into_degree(graph@.edges, i as nat, d),
            forall|d: int| 0 <= d < n ==> #[trigger] histogram@[d] <= i,
        decreases m - i,
    {
        let edge: (NodeId, NodeId, u32) = graph.edge(i);
        let degree: usize = degrees[edge.1.index];
        if degree < n {
            histogram.set(degree, histogram[degree] + 1);
        }
        i += 1;
    }
    histogram
}

} // verus!
