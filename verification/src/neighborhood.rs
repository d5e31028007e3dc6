//! Neighbourhoods: the nodes within a number of hops of a node.
//!
//! The search goes level by level along outgoing edges. A node that has
//! been reached is never expanded again, so cycles do no harm and the
//! search ends as soon as a level brings nothing new.

use vstd::prelude::*;
use crate::graph::{IncidenceGraph, NodeId};
use crate::model::{has_edge, lemma_out_targets_are_edges, out_degree, out_targets, within_hops};
use crate::ratio::Ratio;

verus! {

/// A node within some number of hops is within any larger number of hops.
pub proof fn lemma_within_hops_monotonic(
    edges: Seq<(usize, usize, u32)>,
    from: int,
    to: int,
    fewer: nat,
    more: nat,
)
    requires
        fewer <= more,
        within_hops(edges, from, to, fewer),
    ensures
        within_hops(edges, from, to, more),
    decreases more,
{
    if fewer < more {
        lemma_within_hops_monotonic(edges, from, to, fewer, (more - 1) as nat);
    }
}

/// Hops lead from a node to nodes: where every edge ends in a node below
/// `nodes`, so does every node within reach of one.
pub proof fn lemma_within_hops_is_node(
    edges: Seq<(usize, usize, u32)>,
    nodes: nat,
    from: int,
    to: int,
    hops: nat,
)
    requires
        0 <= from < nodes,
        forall|i: int| 0 <= i < edges.len() ==> (#[trigger] edges[i]).1 < nodes,
        within_hops(edges, from, to, hops),
    ensures
        0 <= to < nodes,
    decreases hops,
{
    if hops > 0 {
        if within_hops(edges, from, to, (hops - 1) as nat) {
            lemma_within_hops_is_node(edges, nodes, from, to, (hops - 1) as nat);
        }
    }
}

/// One more edge costs one more hop.
pub proof fn lemma_within_hops_step(edges: Seq<(usize, usize, u32)>, from: int, mid: int, to: int, hops: nat)
    requires
        within_hops(edges, from, mid, hops),
        has_edge(edges, mid, to),
    ensures
        within_hops(edges, from, to, hops + 1),
{
    assert((hops + 1 - 1) as nat == hops);
}

/// A node that needs the last hop is entered by an edge from a node that
/// does not.
pub proof fn lemma_within_hops_last(edges: Seq<(usize, usize, u32)>, from: int, to: int, hops: nat)
    requires
        within_hops(edges, from, to, hops + 1),
        !within_hops(edges, from, to, hops),
    ensures
        exists|mid: int| within_hops(edges, from, mid, hops) && #[trigger] has_edge(edges, mid, to),
{
    assert((hops + 1 - 1) as nat == hops);
}

/// Once a level brings nothing new, no later level does: where the nodes
/// within `hops` hops are closed under taking an edge, the nodes within any
/// larger number of hops are the same.
pub proof fn lemma_closed_neighbourhood_is_final(
    edges: Seq<(usize, usize, u32)>,
    from: int,
    hops: nat,
    more: nat,
)
    requires
        forall|mid: int, to: int| #[trigger]
            within_hops(edges, from, mid, hops) && #[trigger] has_edge(edges, mid, to) ==> within_hops(
                edges,
                from,
                to,
                hops,
            ),
    ensures
        forall|to: int| #[trigger] within_hops(edges, from, to, hops + more) <==> within_hops(edges, from, to, hops),
    decreases more,
{
    if more > 0 {
        let less: nat = (more - 1) as nat;
        lemma_closed_neighbourhood_is_final(edges, from, hops, less);
        assert(hops + less + 1 == hops + more);
        assert forall|to: int| #[trigger] within_hops(edges, from, to, hops + more) <==> within_hops(
            edges,
            from,
            to,
            hops,
        ) by {
            if within_hops(edges, from, to, hops + more) && !within_hops(edges, from, to, hops + less) {
                lemma_within_hops_last(edges, from, to, hops + less);
                let mid = choose|mid: int|
                    within_hops(edges, from, mid, hops + less) && #[trigger] has_edge(edges, mid, to);
                assert(within_hops(edges, from, mid, hops));
            }
            if within_hops(edges, from, to, hops) {
                lemma_within_hops_monotonic(edges, from, to, hops, hops + more);
            }
        }
    }
}

/// A vector of `len` times `false`.
pub(crate) fn all_false(len: usize) -> (v: Vec<bool>)
    ensures
        v@.len() == len,
        forall|i: int| 0 <= i < len ==> !#[trigger] v@[i],
{
    let mut v: Vec<bool> = Vec::new();
    let mut i: usize = 0;
    while i < len
        invariant
            0 <= i <= len,
            v@.len() == i,
            forall|j: int| 0 <= j < i ==> !#[trigger] v@[j],
        decreases len - i,
    {
        v.push(false);
        i += 1;
    }
    v
}

/// For each node, whether it lies within `radius` hops of `node`.
pub fn reach_flags(graph: &IncidenceGraph, node: NodeId, radius: usize) -> (flags: Vec<bool>)
    requires
        graph.wf(),
        graph.has_node(node),
    ensures
        flags@.len() == graph@.labels.len(),
        forall|v: int|
            0 <= v < flags@.len() ==> (#[trigger] flags@[v] <==> within_hops(
                graph@.edges,
                node.index as int,
                v,
                radius as nat,
            )),
{
    let n: usize = graph.node_count();
    let ghost edges = graph@.edges;
    let ghost from = node.index as int;
    let mut flags: Vec<bool> = all_false(n);
    flags.set(node.index, true);
    let mut frontier: Vec<usize> = Vec::new();
    frontier.push(node.index);
    let mut depth: usize = 0;
    proof {
        assert(frontier@[0] == node.index);
        assert forall|u: int, b: int|
            0 <= u < n && flags@[u] && !frontier@.contains(u as usize) && #[trigger] has_edge(
                edges,
                u,
                b,
            ) implies 0 <= b < n && flags@[b] by {
            assert(u == node.index);
            assert(frontier@[0] == u as usize);
        }
    }
    while depth < radius && frontier.len() > 0
        invariant
            graph.wf(),
            edges == graph@.edges,
            from == node.index as int,
            n == graph@.labels.len(),
            0 <= from < n,
            depth <= radius,
            flags@.len() == n,
            forall|v: int| 0 <= v < n ==> (#[trigger] flags@[v] <==> within_hops(edges, from, v, depth as nat)),
            forall|i: int| 0 <= i < frontier@.len() ==> #[trigger] frontier@[i] < n && flags@[frontier@[i] as int],
            forall|u: int, b: int|
                0 <= u < n && flags@[u] && !frontier@.contains(u as usize) && #[trigger] has_edge(edges, u, b)
                    ==> 0 <= b < n && flags@[b],
        decreases radius - depth,
    {
        let ghost old_flags = flags@;
        let mut next: Vec<usize> = Vec::new();
        let mut i: usize = 0;
        while i < frontier.len()
            invariant
                graph.wf(),
                edges == graph@.edges,
                from == node.index as int,
                n == graph@.labels.len(),
                0 <= from < n,
                depth < radius,
                old_flags.len() == n,
                flags@.len() == n,
                0 <= i <= frontier@.len(),
                forall|v: int| 0 <= v < n ==> (#[trigger] old_flags[v] <==> within_hops(edges, from, v, depth as nat)),
                forall|k: int|
                    0 <= k < frontier@.len() ==> #[trigger] frontier@[k] < n && old_flags[frontier@[k] as int],
                forall|v: int| 0 <= v < n && old_flags[v] ==> #[trigger] flags@[v],
                forall|v: int|
                    0 <= v < n && #[trigger] flags@[v] ==> within_hops(edges, from, v, (depth + 1) as nat),
                forall|v: int|
                    0 <= v < n && #[trigger] flags@[v] && !old_flags[v] ==> next@.contains(v as usize),
                forall|k: int| 0 <= k < next@.len() ==> #[trigger] next@[k] < n && flags@[next@[k] as int],
                forall|k: int, b: int|
                    0 <= k < i && #[trigger] has_edge(edges, frontier@[k] as int, b) ==> 0 <= b < n && flags@[b],
            decreases frontier@.len() - i,
        {
            let u: usize = frontier[i];
            let targets: Vec<NodeId> = graph.neighbors(NodeId { index: u });
            let mut j: usize = 0;
            while j < targets.len()
                invariant
                    graph.wf(),
                    edges == graph@.edges,
                    from == node.index as int,
                    n == graph@.labels.len(),
                    0 <= from < n,
                    depth < radius,
                    old_flags.len() == n,
                    flags@.len() == n,
                    0 <= i < frontier@.len(),
                    u == frontier@[i as int],
                    u < n,
                    old_flags[u as int],
                    0 <= j <= targets@.len(),
                    forall|k: int| 0 <= k < targets@.len() ==> (#[trigger] targets@[k]).index < n,
                    forall|k: int|
                        0 <= k < targets@.len() ==> has_edge(edges, u as int, (#[trigger] targets@[k]).index as int),
                    forall|v: int|
                        0 <= v < n ==> (#[trigger] old_flags[v] <==> within_hops(edges, from, v, depth as nat)),
                    forall|v: int| 0 <= v < n && old_flags[v] ==> #[trigger] flags@[v],
                    forall|v: int|
                        0 <= v < n && #[trigger] flags@[v] ==> within_hops(edges, from, v, (depth + 1) as nat),
                    forall|v: int|
                        0 <= v < n && #[trigger] flags@[v] && !old_flags[v] ==> next@.contains(v as usize),
                    forall|k: int| 0 <= k < next@.len() ==> #[trigger] next@[k] < n && flags@[next@[k] as int],
                    forall|k: int, b: int|
                        0 <= k < i && #[trigger] has_edge(edges, frontier@[k] as int, b) ==> 0 <= b < n
                            && flags@[b],
                    forall|k: int| 0 <= k < j ==> flags@[(#[trigger] targets@[k]).index as int],
                decreases targets@.len() - j,
            {
                let w: usize = targets[j].index;
                if !flags[w] {
                    let ghost before = flags@;
                    let ghost next_before = next@;
                    flags.set(w, true);
                    next.push(w);
                    proof {
                        assert(within_hops(edges, from, u as int, depth as nat));
                        assert(has_edge(edges, u as int, w as int));
                        lemma_within_hops_step(edges, from, u as int, w as int, depth as nat);
                        assert(within_hops(edges, from, w as int, (depth + 1) as nat));
                        assert forall|k: int| 0 <= k < next@.len() implies #[trigger] next@[k] < n && flags@[next@[k] as int] by {
                            if k < next_before.len() {
                                assert(next@[k] == next_before[k]);
                            }
                        }
                        assert(next@[next_before.len() as int] == w);
                        assert forall|v: int| 0 <= v < n && #[trigger] flags@[v] && !old_flags[v] implies next@.contains(
                            v as usize,
                        ) by {
                            if v != w {
                                assert(before[v]);
                                assert(next_before.contains(v as usize));
                                let k = choose|k: int| 0 <= k < next_before.len() && next_before[k] == v as usize;
                                assert(next@[k] == v as usize);
                            }
                        }
                    }
                }
                j += 1;
            }
            proof {
                assert forall|k: int, b: int| 0 <= k < i + 1 && #[trigger] has_edge(
                    edges,
                    frontier@[k] as int,
                    b,
                ) implies 0 <= b < n && flags@[b] by {
                    if k == i {
                        lemma_out_targets_are_edges(edges, u as int);
                        let e = choose|e: int| 0 <= e < edges.len() && (#[trigger] edges[e]).0 == u as int
                            && edges[e].1 == b;
                        assert(out_targets(edges, u as int).contains(edges[e].1));
                        let t = choose|t: int|
                            0 <= t < out_targets(edges, u as int).len() && out_targets(edges, u as int)[t]
                                == edges[e].1;
                        assert(targets@[t].index == b);
                    }
                }
            }
            i += 1;
        }
        proof {
            assert forall|v: int| 0 <= v < n implies (#[trigger] flags@[v] <==> within_hops(
                edges,
                from,
                v,
                (depth + 1) as nat,
            )) by {
                if within_hops(edges, from, v, (depth + 1) as nat) && !within_hops(edges, from, v, depth as nat) {
                    lemma_within_hops_last(edges, from, v, depth as nat);
                    let mid = choose|mid: int|
                        within_hops(edges, from, mid, depth as nat) && #[trigger] has_edge(edges, mid, v);
                    lemma_within_hops_is_node(edges, n as nat, from, mid, depth as nat);
                    assert(old_flags[mid]);
                    if frontier@.contains(mid as usize) {
                        let k = choose|k: int| 0 <= k < frontier@.len() && frontier@[k] == mid as usize;
                        assert(has_edge(edges, frontier@[k] as int, v));
                    }
                }
            }
            assert forall|u: int, b: int|
                0 <= u < n && flags@[u] && !next@.contains(u as usize) && #[trigger] has_edge(
                    edges,
                    u,
                    b,
                ) implies 0 <= b < n && flags@[b] by {
                assert(old_flags[u]);
                if frontier@.contains(u as usize) {
                    let k = choose|k: int| 0 <= k < frontier@.len() && frontier@[k] == u as usize;
                    assert(has_edge(edges, frontier@[k] as int, b));
                } else {
                    assert(old_flags[b]);
                }
            }
        }
        frontier = next;
        depth += 1;
    }
    proof {
        if depth < radius {
            assert forall|mid: int, to: int| #[trigger]
                within_hops(edges, from, mid, depth as nat) && #[trigger] has_edge(
                    edges,
                    mid,
                    to,
                ) implies within_hops(edges, from, to, depth as nat) by {
                lemma_within_hops_is_node(edges, n as nat, from, mid, depth as nat);
                assert(flags@[mid]);
                assert(!frontier@.contains(mid as usize));
            }
            lemma_closed_neighbourhood_is_final(edges, from, depth as nat, (radius - depth) as nat);
            assert(depth as nat + (radius - depth) as nat == radius as nat);
        }
    }
    flags
}

/// The nodes within `distance` hops of `node`, by rising index, each once.
/// With no hop allowed that is `node` alone.
pub fn bfs_neighbors_at_distance(graph: &IncidenceGraph, node: NodeId, distance: usize) -> (reached: Vec<NodeId>)
    requires
        graph.wf(),
        graph.has_node(node),
    ensures
        forall|i: int, j: int|
            0 <= i < j < reached@.len() ==> (#[trigger] reached@[i]).index < (#[trigger] reached@[j]).index,
        forall|i: int|
            0 <= i < reached@.len() ==> graph.has_node(#[trigger] reached@[i]) && within_hops(
                graph@.edges,
                node.index as int,
                reached@[i].index as int,
                distance as nat,
            ),
        forall|v: int|
            0 <= v < graph@.labels.len() && within_hops(graph@.edges, node.index as int, v, distance as nat)
                ==> #[trigger] reached@.contains(NodeId { index: v as usize }),
        distance == 0 ==> reached@ == seq![node],
{
    let n: usize = graph.node_count();
    let flags: Vec<bool> = reach_flags(graph, node, distance);
    let mut reached: Vec<NodeId> = Vec::new();
    let mut v: usize = 0;
    while v < n
        invariant
            n == graph@.labels.len(),
            flags@.len() == n,
            0 <= v <= n,
            forall|i: int| 0 <= i < reached@.len() ==> (#[trigger] reached@[i]).index < v,
            forall|i: int| 0 <= i < reached@.len() ==> flags@[(#[trigger] reached@[i]).index as int],
            forall|i: int, j: int|
                0 <= i < j < reached@.len() ==> (#[trigger] reached@[i]).index < (#[trigger] reached@[j]).index,
            forall|w: int| 0 <= w < v && flags@[w] ==> #[trigger] reached@.contains(NodeId { index: w as usize }),
        decreases n - v,
    {
        if flags[v] {
            let ghost before = reached@;
            reached.push(NodeId { index: v });
            proof {
                assert(reached@[before.len() as int] == NodeId { index: v });
                assert forall|w: int| 0 <= w < v + 1 && flags@[w] implies #[trigger] reached@.contains(
                    NodeId { index: w as usize },
                ) by {
                    if w < v {
                        assert(before.contains(NodeId { index: w as usize }));
                        let k = choose|k: int| 0 <= k < before.len() && before[k] == NodeId { index: w as usize };
                        assert(reached@[k] == before[k]);
                    }
                }
            }
        }
        v += 1;
    }
    proof {
        if distance == 0 {
            let w: int = node.index as int;
            assert(flags@[w]);
            assert(reached@.contains(NodeId { index: w as usize }));
            assert(NodeId { index: w as usize } == node);
            assert forall|i: int| 0 <= i < reached@.len() implies (#[trigger] reached@[i]) == node by {
                assert(flags@[reached@[i].index as int]);
            }
            if reached@.len() > 1 {
                assert(reached@[0].index < reached@[1].index);
            }
            assert(reached@ =~= seq![node]);
        }
    }
    reached
}

/// The sum of the out-degrees of the nodes below `upto` that lie within
/// `hops` hops of `from`.
pub open spec fn row_neighbor_degrees(edges: Seq<(usize, usize, u32)>, from: int, hops: nat, upto: nat) -> nat
    decreases upto,
{
    if upto == 0 {
        0
    } else {
        row_neighbor_degrees(edges, from, hops, (upto - 1) as nat) + if within_hops(edges, from, upto - 1, hops) {
            out_degree(edges, upto - 1)
        } else {
            0nat
        }
    }
}

/// The number of nodes below `upto` that lie within `hops` hops of `from`.
pub open spec fn row_neighbors(edges: Seq<(usize, usize, u32)>, from: int, hops: nat, upto: nat) -> nat
    decreases upto,
{
    if upto == 0 {
        0
    } else {
        row_neighbors(edges, from, hops, (upto - 1) as nat) + if within_hops(edges, from, upto - 1, hops) {
            1nat
        } else {
            0nat
        }
    }
}

/// `row_neighbor_degrees`, added up over the start nodes below `rows`.
pub open spec fn total_neighbor_degrees(edges: Seq<(usize, usize, u32)>, nodes: nat, hops: nat, rows: nat) -> nat
    decreases rows,
{
    if rows == 0 {
        0
    } else {
        total_neighbor_degrees(edges, nodes, hops, (rows - 1) as nat) + row_neighbor_degrees(
            edges,
            rows - 1,
            hops,
            nodes,
        )
    }
}

/// `row_neighbors`, added up over the start nodes below `rows`.
pub open spec fn total_neighbors(edges: Seq<(usize, usize, u32)>, nodes: nat, hops: nat, rows: nat) -> nat
    decreases rows,
{
    if rows == 0 {
        0
    } else {
        total_neighbors(edges, nodes, hops, (rows - 1) as nat) + row_neighbors(edges, rows - 1, hops, nodes)
    }
}

/// The average out-degree over the neighbourhoods of all nodes: for each
/// node, the out-degrees of the nodes within `distance` hops of it are
/// added up; the sum over all nodes is set against the number of nodes so
/// visited. A node counts once for each neighbourhood it lies in.
pub fn average_neighbor_degree(graph: &IncidenceGraph, distance: usize) -> (average: Ratio)
    requires
        graph.wf(),
    ensures
        average.numerator == total_neighbor_degrees(
            graph@.edges,
            graph@.labels.len(),
            distance as nat,
            graph@.labels.len(),
        ),
        average.denominator == total_neighbors(
            graph@.edges,
            graph@.labels.len(),
            distance as nat,
            graph@.labels.len(),
        ),
{
    let n: usize = graph.node_count();
    let degrees: Vec<usize> = crate::metrics::out_degrees(graph);
    let mut total: u128 = 0;
    let mut count: u64 = 0;
    let mut u: usize = 0;
    proof {
        assert forall|w: int| 0 <= w < n implies #[trigger] degrees@[w] <= 0xFFFF_FFFF by {
            crate::metrics::lemma_degree_bound(graph@.edges, w);
        }
    }
    while u < n
        invariant
            graph.wf(),
            n == graph@.labels.len(),
            degrees@.len() == n,
            forall|w: int| 0 <= w < n ==> #[trigger] degrees@[w] == out_degree(graph@.edges, w),
            forall|w: int| 0 <= w < n ==> #[trigger] degrees@[w] <= 0xFFFF_FFFF,
            0 <= u <= n,
            total == total_neighbor_degrees(graph@.edges, n as nat, distance as nat, u as nat),
            count == total_neighbors(graph@.edges, n as nat, distance as nat, u as nat),
            count <= u * n,
            total <= u * n * 0xFFFF_FFFF,
        decreases n - u,
    {
        let flags: Vec<bool> = reach_flags(graph, NodeId { index: u }, distance);
        let mut row_total: u128 = 0;
        let mut row_count: u64 = 0;
        let mut v: usize = 0;
        while v < n
            invariant
                n == graph@.labels.len(),
                n < 0xFFFF_FFFF,
                degrees@.len() == n,
                flags@.len() == n,
                forall|w: int| 0 <= w < n ==> #[trigger] degrees@[w] == out_degree(graph@.edges, w),
                forall|w: int| 0 <= w < n ==> #[trigger] degrees@[w] <= 0xFFFF_FFFF,
                forall|w: int|
                    0 <= w < n ==> (#[trigger] flags@[w] <==> within_hops(
                        graph@.edges,
                        u as int,
                        w,
                        distance as nat,
                    )),
                0 <= u < n,
                0 <= v <= n,
                row_total == row_neighbor_degrees(graph@.edges, u as int, distance as nat, v as nat),
                row_count == row_neighbors(graph@.edges, u as int, distance as nat, v as nat),
                row_count <= v,
                row_total <= v * 0xFFFF_FFFF,
            decreases n - v,
        {
            if flags[v] {
                assert((v + 1) * 0xFFFF_FFFF <= 0xFFFF_FFFF * 0xFFFF_FFFF) by (nonlinear_arith)
                    requires
                        v + 1 <= 0xFFFF_FFFF,
                ;
                row_total = row_total + (degrees[v] as u128);
                row_count = row_count + 1;
            }
            v += 1;
        }
        proof {
            assert(count + row_count <= (u + 1) * n) by (nonlinear_arith)
                requires
                    count <= u * n,
                    row_count <= n,
            ;
            assert(total + row_total <= (u + 1) * n * 0xFFFF_FFFF) by (nonlinear_arith)
                requires
                    total <= u * n * 0xFFFF_FFFF,
                    row_total <= n * 0xFFFF_FFFF,
            ;
            assert((u + 1) * n <= 0xFFFF_FFFF * 0xFFFF_FFFF) by (nonlinear_arith)
                requires
                    0 <= u + 1 <= n,
                    n <= 0xFFFF_FFFF,
            ;
            assert((u + 1) * n * 0xFFFF_FFFF <= 0xFFFF_FFFF * 0xFFFF_FFFF * 0xFFFF_FFFF) by (nonlinear_arith)
                requires
                    0 <= (u + 1) * n <= 0xFFFF_FFFF * 0xFFFF_FFFF,
            ;
        }
        total = total + row_total;
        count = count + row_count;
        u += 1;
    }
    Ratio { numerator: total, denominator: count }
}

} // verus!
