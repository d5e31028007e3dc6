//! The mathematical model of a graph: what its edges mean.
//!
//! An edge is a triple `(source, target, weight)` of node indices and a
//! count. A graph's edges form a sequence in the order of insertion; all
//! definitions here are stated over that sequence alone.

use vstd::prelude::*;

verus! {

/// Whether `walk`, a sequence of edge positions, leads from `from` to `to`:
/// each edge starts where the one before it ended. The empty walk leads
/// from a node to itself.
pub open spec fn is_walk(edges: Seq<(usize, usize, u32)>, from: int, to: int, walk: Seq<int>) -> bool
    decreases walk.len(),
{
    if walk.len() == 0 {
        from == to
    } else {
        &&& 0 <= walk[0] < edges.len()
        &&& edges[walk[0]].0 == from
        &&& is_walk(edges, edges[walk[0]].1 as int, to, walk.drop_first())
    }
}

/// The sum of the weights of the edges that `walk` takes.
pub open spec fn walk_weight(edges: Seq<(usize, usize, u32)>, walk: Seq<int>) -> int
    decreases walk.len(),
{
    if walk.len() == 0 {
        0
    } else {
        edges[walk[0]].2 + walk_weight(edges, walk.drop_first())
    }
}

/// Whether some walk leads from `from` to `to`.
pub open spec fn reachable(edges: Seq<(usize, usize, u32)>, from: int, to: int) -> bool {
    exists|walk: Seq<int>| #[trigger] is_walk(edges, from, to, walk)
}

/// Whether `d` is the least weight of a walk from `from` to `to`.
pub open spec fn is_distance(edges: Seq<(usize, usize, u32)>, from: int, to: int, d: int) -> bool {
    &&& exists|walk: Seq<int>| #[trigger]
        is_walk(edges, from, to, walk) && walk_weight(edges, walk) == d
    &&& forall|walk: Seq<int>| #[trigger]
        is_walk(edges, from, to, walk) ==> d <= walk_weight(edges, walk)
}

/// The targets of the edges that leave `a`, the most recently added edge
/// first. A target occurs once for each such edge.
pub open spec fn out_targets(edges: Seq<(usize, usize, u32)>, a: int) -> Seq<usize>
    decreases edges.len(),
{
    if edges.len() == 0 {
        Seq::empty()
    } else if edges.last().0 == a {
        seq![edges.last().1] + out_targets(edges.drop_last(), a)
    } else {
        out_targets(edges.drop_last(), a)
    }
}

/// The number of edges that leave `a`.
pub open spec fn out_degree(edges: Seq<(usize, usize, u32)>, a: int) -> nat {
    out_targets(edges, a).len()
}

/// The number of edges that enter `a`.
pub open spec fn in_degree(edges: Seq<(usize, usize, u32)>, a: int) -> nat
    decreases edges.len(),
{
    if edges.len() == 0 {
        0
    } else if edges.last().1 == a {
        1 + in_degree(edges.drop_last(), a)
    } else {
        in_degree(edges.drop_last(), a)
    }
}

/// Whether an edge leads from `a` to `b`.
pub open spec fn has_edge(edges: Seq<(usize, usize, u32)>, a: int, b: int) -> bool {
    exists|i: int| 0 <= i < edges.len() && (#[trigger] edges[i]).0 == a && edges[i].1 == b
}

/// The direct successors of `a`.
pub open spec fn successors(edges: Seq<(usize, usize, u32)>, a: int) -> Set<int> {
    Set::new(|b: int| has_edge(edges, a, b))
}

/// Whether `to` can be reached from `from` along at most `hops` edges.
pub open spec fn within_hops(edges: Seq<(usize, usize, u32)>, from: int, to: int, hops: nat) -> bool
    decreases hops,
{
    if hops == 0 {
        to == from
    } else {
        ||| within_hops(edges, from, to, (hops - 1) as nat)
        ||| exists|mid: int|
            within_hops(edges, from, mid, (hops - 1) as nat) && #[trigger] has_edge(edges, mid, to)
    }
}

/// Each entry of `out_targets(edges, a)` is the target of an edge from `a`,
/// and each edge from `a` has its target among the entries.
pub proof fn lemma_out_targets_are_edges(edges: Seq<(usize, usize, u32)>, a: int)
    ensures
        forall|k: int|
            0 <= k < out_targets(edges, a).len() ==> has_edge(edges, a, #[trigger] out_targets(edges, a)[k] as int),
        forall|i: int|
            0 <= i < edges.len() && (#[trigger] edges[i]).0 == a ==> out_targets(edges, a).contains(edges[i].1),
    decreases edges.len(),
{
    if edges.len() > 0 {
        let rest = edges.drop_last();
        lemma_out_targets_are_edges(rest, a);
        let tail = out_targets(rest, a);
        assert forall|k: int| 0 <= k < out_targets(edges, a).len() implies has_edge(
            edges,
            a,
            #[trigger] out_targets(edges, a)[k] as int,
        ) by {
            if edges.last().0 == a && k == 0 {
                assert(edges[edges.len() - 1].0 == a);
            } else {
                let kk = if edges.last().0 == a { k - 1 } else { k };
                assert(out_targets(edges, a)[k] == tail[kk]);
                assert(has_edge(rest, a, tail[kk] as int));
                let i = choose|i: int| 0 <= i < rest.len() && (#[trigger] rest[i]).0 == a && rest[i].1 == tail[kk];
                assert(edges[i] == rest[i]);
            }
        }
        assert forall|i: int| 0 <= i < edges.len() && (#[trigger] edges[i]).0 == a implies out_targets(
            edges,
            a,
        ).contains(edges[i].1) by {
            if i == edges.len() - 1 {
                assert(out_targets(edges, a)[0] == edges[i].1);
            } else {
                assert(rest[i] == edges[i]);
                assert(tail.contains(edges[i].1));
                let k = choose|k: int| 0 <= k < tail.len() && tail[k] == edges[i].1;
                if edges.last().0 == a {
                    assert(out_targets(edges, a)[k + 1] == tail[k]);
                } else {
                    assert(out_targets(edges, a)[k] == tail[k]);
                }
            }
        }
    }
}

} // verus!
