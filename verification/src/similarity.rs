//! Similarity of nodes by their successors.
//!
//! Two nodes are alike as far as their edges lead to the same nodes: the
//! Jaccard similarity sets the number of successors that they share against
//! the number of successors that either has.

use vstd::prelude::*;
use crate::graph::{IncidenceGraph, NodeId};
use crate::model::{has_edge, lemma_out_targets_are_edges, out_targets, successors};
use crate::neighborhood::all_false;
use crate::ratio::{lemma_exceeds_transitive, Ratio};

verus! {

/// The number of successors that `a` and `b` share, and the number of
/// successors that either has.
pub open spec fn jaccard(edges: Seq<(usize, usize, u32)>, a: int, b: int) -> (nat, nat) {
    (
        successors(edges, a).intersect(successors(edges, b)).len(),
        successors(edges, a).union(successors(edges, b)).len(),
    )
}

/// The Jaccard similarity of `a` and `b` as a ratio: shared successors
/// over joint successors. Two nodes without successors are not similar.
pub open spec fn similarity(edges: Seq<(usize, usize, u32)>, a: int, b: int) -> Ratio {
    Ratio { numerator: jaccard(edges, a, b).0 as u128, denominator: jaccard(edges, a, b).1 as u64 }
}

/// Whether the ordered pair `(a, b)` comes before `(x, y)` when pairs are
/// taken row by row.
pub open spec fn pair_before(a: int, b: int, x: int, y: int) -> bool {
    a < x || (a == x && b < y)
}

/// A node has finitely many successors.
pub proof fn lemma_successors_finite(edges: Seq<(usize, usize, u32)>, a: int)
    ensures
        successors(edges, a).finite(),
    decreases edges.len(),
{
    if edges.len() == 0 {
        assert(successors(edges, a) =~= Set::<int>::empty());
    } else {
        let rest = edges.drop_last();
        lemma_successors_finite(rest, a);
        let last = edges.last();
        let grown = if last.0 == a {
            successors(rest, a).insert(last.1 as int)
        } else {
            successors(rest, a)
        };
        assert forall|b: int| successors(edges, a).contains(b) <==> grown.contains(b) by {
            if has_edge(edges, a, b) {
                let i = choose|i: int| 0 <= i < edges.len() && (#[trigger] edges[i]).0 == a && edges[i].1 == b;
                if i < rest.len() {
                    assert(rest[i] == edges[i]);
                }
            }
            if has_edge(rest, a, b) {
                let i = choose|i: int| 0 <= i < rest.len() && (#[trigger] rest[i]).0 == a && rest[i].1 == b;
                assert(edges[i] == rest[i]);
            }
            if last.0 == a && b == last.1 {
                assert(edges[edges.len() - 1] == last);
            }
        }
        assert(successors(edges, a) =~= grown);
    }
}

/// Similarity does not depend on the order of the two nodes.
pub proof fn lemma_similarity_symmetric(edges: Seq<(usize, usize, u32)>, a: int, b: int)
    ensures
        jaccard(edges, a, b) == jaccard(edges, b, a),
        similarity(edges, a, b) == similarity(edges, b, a),
{
    assert(successors(edges, a).intersect(successors(edges, b)) =~= successors(edges, b).intersect(
        successors(edges, a),
    ));
    assert(successors(edges, a).union(successors(edges, b)) =~= successors(edges, b).union(successors(edges, a)));
}

/// Similarity lies between zero and one: no more successors are shared
/// than there are.
pub proof fn lemma_similarity_is_fraction(edges: Seq<(usize, usize, u32)>, a: int, b: int)
    ensures
        0 <= jaccard(edges, a, b).0 <= jaccard(edges, a, b).1,
{
    lemma_successors_finite(edges, a);
    lemma_successors_finite(edges, b);
    let shared = successors(edges, a).intersect(successors(edges, b));
    let joint = successors(edges, a).union(successors(edges, b));
    vstd::set_lib::lemma_len_subset(shared, joint);
}

/// The shared successors below `upto`.
pub open spec fn shared_below(edges: Seq<(usize, usize, u32)>, a: int, b: int, upto: int) -> Set<int> {
    Set::new(|v: int| 0 <= v < upto && has_edge(edges, a, v) && has_edge(edges, b, v))
}

/// The joint successors below `upto`.
pub open spec fn joint_below(edges: Seq<(usize, usize, u32)>, a: int, b: int, upto: int) -> Set<int> {
    Set::new(|v: int| 0 <= v < upto && (has_edge(edges, a, v) || has_edge(edges, b, v)))
}

/// For each node, whether an edge leads to it from `node`.
fn successor_flags(graph: &IncidenceGraph, node: NodeId) -> (flags: Vec<bool>)
    requires
        graph.wf(),
        graph.has_node(node),
    ensures
        flags@.len() == graph@.labels.len(),
        forall|v: int| 0 <= v < flags@.len() ==> (#[trigger] flags@[v] <==> has_edge(graph@.edges, node.index as int, v)),
{
    let n: usize = graph.node_count();
    let targets: Vec<NodeId> = graph.neighbors(node);
    let mut flags: Vec<bool> = all_false(n);
    let mut j: usize = 0;
    while j < targets.len()
        invariant
            n == graph@.labels.len(),
            flags@.len() == n,
            0 <= j <= targets@.len(),
            forall|k: int| 0 <= k < targets@.len() ==> (#[trigger] targets@[k]).index < n,
            forall|k: int| 0 <= k < j ==> flags@[(#[trigger] targets@[k]).index as int],
            forall|w: int|
                0 <= w < n && #[trigger] flags@[w] ==> exists|k: int|
                    0 <= k < j && (#[trigger] targets@[k]).index == w,
        decreases targets@.len() - j,
    {
        let ghost before = flags@;
        flags.set(targets[j].index, true);
        proof {
            assert forall|w: int| 0 <= w < n && #[trigger] flags@[w] implies exists|k: int|
                0 <= k < j + 1 && (#[trigger] targets@[k]).index == w by {
                if w == targets@[j as int].index {
                    assert(targets@[j as int].index == w);
                } else {
                    assert(before[w]);
                    let k = choose|k: int| 0 <= k < j && (#[trigger] targets@[k]).index == w;
                    assert(targets@[k].index == w);
                }
            }
        }
        j += 1;
    }
    proof {
        let edges = graph@.edges;
        let a = node.index as int;
        lemma_out_targets_are_edges(edges, a);
        assert forall|w: int| 0 <= w < n implies (#[trigger] flags@[w] <==> has_edge(edges, a, w)) by {
            if flags@[w] {
                let k = choose|k: int| 0 <= k < targets@.len() && (#[trigger] targets@[k]).index == w;
                assert(has_edge(edges, a, targets@[k].index as int));
            }
            if has_edge(edges, a, w) {
                let e = choose|e: int| 0 <= e < edges.len() && (#[trigger] edges[e]).0 == a && edges[e].1 == w;
                assert(out_targets(edges, a).contains(edges[e].1));
                let t = choose|t: int| 0 <= t < out_targets(edges, a).len() && out_targets(edges, a)[t] == edges[e].1;
                assert(targets@[t].index == w);
            }
        }
    }
    flags
}

/// The Jaccard similarity of two nodes: the number of successors that
/// both have over the number of successors that either has. Where neither
/// has a successor the denominator is zero and the ratio stands for zero.
pub fn jaccard_similarity(graph: &IncidenceGraph, node1: NodeId, node2: NodeId) -> (ratio: Ratio)
    requires
        graph.wf(),
        graph.has_node(node1),
        graph.has_node(node2),
    ensures
        ratio.numerator == jaccard(graph@.edges, node1.index as int, node2.index as int).0,
        ratio.denominator == jaccard(graph@.edges, node1.index as int, node2.index as int).1,
        ratio == similarity(graph@.edges, node1.index as int, node2.index as int),
        ratio.is_fraction(),
        ratio.denominator <= graph@.labels.len(),
{
    let n: usize = graph.node_count();
    let first: Vec<bool> = successor_flags(graph, node1);
    let second: Vec<bool> = successor_flags(graph, node2);
    let ghost edges = graph@.edges;
    let ghost a = node1.index as int;
    let ghost b = node2.index as int;
    let mut shared: u64 = 0;
    let mut joint: u64 = 0;
    let mut v: usize = 0;
    proof {
        assert(shared_below(edges, a, b, 0) =~= Set::<int>::empty());
        assert(joint_below(edges, a, b, 0) =~= Set::<int>::empty());
    }
    while v < n
        invariant
            n == graph@.labels.len(),
            edges == graph@.edges,
            a == node1.index as int,
            b == node2.index as int,
            first@.len() == n,
            second@.len() == n,
            forall|w: int| 0 <= w < n ==> (#[trigger] first@[w] <==> has_edge(edges, a, w)),
            forall|w: int| 0 <= w < n ==> (#[trigger] second@[w] <==> has_edge(edges, b, w)),
            0 <= v <= n,
            shared_below(edges, a, b, v as int).finite(),
            joint_below(edges, a, b, v as int).finite(),
            shared == shared_below(edges, a, b, v as int).len(),
            joint == joint_below(edges, a, b, v as int).len(),
            shared <= joint <= v,
        decreases n - v,
    {
        let in_first: bool = first[v];
        let in_second: bool = second[v];
        proof {
            let s0 = shared_below(edges, a, b, v as int);
            let s1 = shared_below(edges, a, b, v + 1);
            let j0 = joint_below(edges, a, b, v as int);
            let j1 = joint_below(edges, a, b, v + 1);
            if in_first && in_second {
                assert(s1 =~= s0.insert(v as int));
            } else {
                assert(s1 =~= s0);
            }
            if in_first || in_second {
                assert(j1 =~= j0.insert(v as int));
            } else {
                assert(j1 =~= j0);
            }
        }
        if in_first && in_second {
            shared = shared + 1;
        }
        if in_first || in_second {
            joint = joint + 1;
        }
        v += 1;
    }
    proof {
        assert forall|w: int| has_edge(edges, a, w) || has_edge(edges, b, w) implies 0 <= w < n by {
            if has_edge(edges, a, w) {
                let e = choose|e: int| 0 <= e < edges.len() && (#[trigger] edges[e]).0 == a && edges[e].1 == w;
            } else {
                let e = choose|e: int| 0 <= e < edges.len() && (#[trigger] edges[e]).0 == b && edges[e].1 == w;
            }
        }
        assert(shared_below(edges, a, b, n as int) =~= successors(edges, a).intersect(successors(edges, b)));
        assert(joint_below(edges, a, b, n as int) =~= successors(edges, a).union(successors(edges, b)));
    }
    Ratio { numerator: shared as u128, denominator: joint }
}

/// The pair of different nodes that are most alike. Pairs are taken row
/// by row in the order of the node indices, and among pairs that are
/// equally alike the first one wins; where no two nodes share a successor
/// that is the first pair of all. Only a graph with fewer than two nodes
/// has no pair.
pub fn friend_recommendation_similarity(graph: &IncidenceGraph) -> (best: Option<(NodeId, NodeId)>)
    requires
        graph.wf(),
    ensures
        best is None <==> graph@.labels.len() < 2,
        best matches Some((x, y)) ==> {
            &&& graph.has_node(x)
            &&& graph.has_node(y)
            &&& x != y
            &&& forall|a: int, b: int|
                0 <= a < graph@.labels.len() && 0 <= b < graph@.labels.len() && a != b ==> !(
                #[trigger] similarity(graph@.edges, a, b)).exceeds(
                    similarity(graph@.edges, x.index as int, y.index as int),
                )
            &&& forall|a: int, b: int|
                0 <= a < graph@.labels.len() && 0 <= b < graph@.labels.len() && a != b && pair_before(
                    a,
                    b,
                    x.index as int,
                    y.index as int,
                ) ==> similarity(graph@.edges, x.index as int, y.index as int).exceeds(
                    #[trigger] similarity(graph@.edges, a, b),
                )
        },
{
    let n: usize = graph.node_count();
    let ghost edges = graph@.edges;
    let mut best: Option<(NodeId, NodeId)> = None;
    let mut best_ratio: Ratio = Ratio { numerator: 0, denominator: 1 };
    let mut u: usize = 0;
    while u < n
        invariant
            graph.wf(),
            edges == graph@.edges,
            n == graph@.labels.len(),
            0 <= u <= n,
            best_ratio.numerator <= u64::MAX,
            search_state(edges, n as int, best, best_ratio, u as int, 0),
        decreases n - u,
    {
        let mut v: usize = 0;
        while v < n
            invariant
                graph.wf(),
                edges == graph@.edges,
                n == graph@.labels.len(),
                0 <= u < n,
                0 <= v <= n,
                best_ratio.numerator <= u64::MAX,
                search_state(edges, n as int, best, best_ratio, u as int, v as int),
            decreases n - v,
        {
            if u != v {
                let ratio: Ratio = jaccard_similarity(graph, NodeId { index: u }, NodeId { index: v });
                let better: bool = match best {
                    None => true,
                    Some(_) => ratio.greater_than(&best_ratio),
                };
                if better {
                    proof {
                        assert(!ratio.exceeds(ratio));
                        assert forall|a: int, b: int|
                            0 <= a < n && 0 <= b < n && a != b && pair_before(a, b, u as int, v as int) implies ratio.exceeds(
                            #[trigger] similarity(edges, a, b),
                        ) && !similarity(edges, a, b).exceeds(ratio) by {
                            if best is Some {
                                lemma_exceeds_transitive(similarity(edges, a, b), best_ratio, ratio);
                            }
                        }
                    }
                    best_ratio = ratio;
                    best = Some((NodeId { index: u }, NodeId { index: v }));
                }
            }
            v += 1;
        }
        u += 1;
    }
    best
}

/// What the search for the most similar pair knows when it stands before
/// the pair `(u, v)`. It has no best pair as long as it has met no pair:
/// in a graph with fewer than two nodes, or before the second node of the
/// first row. After that `ratio` is the similarity of the best pair so
/// far, no earlier pair exceeds it, and it exceeds every pair before the
/// best one.
pub open spec fn search_state(
    edges: Seq<(usize, usize, u32)>,
    n: int,
    best: Option<(NodeId, NodeId)>,
    ratio: Ratio,
    u: int,
    v: int,
) -> bool {
    match best {
        None => n < 2 || (u == 0 && v <= 1),
        Some((x, y)) => {
            &&& 0 <= x.index < n
            &&& 0 <= y.index < n
            &&& x != y
            &&& pair_before(x.index as int, y.index as int, u, v)
            &&& ratio == similarity(edges, x.index as int, y.index as int)
            &&& forall|a: int, b: int|
                0 <= a < n && 0 <= b < n && a != b && pair_before(a, b, u, v) ==> !(#[trigger] similarity(
                    edges,
                    a,
                    b,
                )).exceeds(ratio)
            &&& forall|a: int, b: int|
                0 <= a < n && 0 <= b < n && a != b && pair_before(a, b, x.index as int, y.index as int)
                    ==> ratio.exceeds(#[trigger] similarity(edges, a, b))
        },
    }
}

} // verus!
