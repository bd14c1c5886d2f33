//! The mathematical model of the review graph: a sequence of node labels
//! (byte strings) and a sequence of undirected edges, each a pair of node
//! indices in insertion order. Adjacency and degree are defined from the
//! edge sequence alone.

use vstd::prelude::*;
use vstd::multiset::Multiset;

verus! {

/// Does edge `e` touch node `a`?
pub open spec fn touches(e: (int, int), a: int) -> bool {
    e.0 == a || e.1 == a
}

/// The endpoint of `e` opposite to `a` (for a self-loop, `a` itself).
pub open spec fn other_end(e: (int, int), a: int) -> int {
    if e.0 == a {
        e.1
    } else {
        e.0
    }
}

/// The multiset of neighbors of `a`: one entry per incident edge, carrying
/// the opposite endpoint. A self-loop contributes one entry, matching the
/// graph store's adjacency enumeration.
pub open spec fn incident_ms(edges: Seq<(int, int)>, a: int) -> Multiset<int>
    decreases edges.len(),
{
    if edges.len() == 0 {
        Multiset::empty()
    } else {
        incident_ms(edges.drop_last(), a).add(
            if touches(edges.last(), a) {
                Multiset::singleton(other_end(edges.last(), a))
            } else {
                Multiset::empty()
            },
        )
    }
}

/// The degree of `a`: the number of incident edges (each parallel edge
/// counted, a self-loop counted once).
pub open spec fn degree_of(edges: Seq<(int, int)>, a: int) -> nat {
    incident_ms(edges, a).len()
}

/// `u` and `v` are joined by some edge.
pub open spec fn adjacent(edges: Seq<(int, int)>, u: int, v: int) -> bool {
    incident_ms(edges, u).contains(v)
}

/// Adjacency is symmetric: the edges are undirected.
pub proof fn lemma_adjacent_symmetric(edges: Seq<(int, int)>, u: int, v: int)
    requires
        adjacent(edges, u, v),
    ensures
        adjacent(edges, v, u),
    decreases edges.len(),
{
    if edges.len() > 0 {
        if incident_ms(edges.drop_last(), u).contains(v) {
            lemma_adjacent_symmetric(edges.drop_last(), u, v);
            assert(incident_ms(edges, v).count(u) >= incident_ms(edges.drop_last(), v).count(u));
        } else {
            let e = edges.last();
            assert(touches(e, u) && other_end(e, u) == v);
            assert(touches(e, v) && other_end(e, v) == u);
        }
    }
}

/// Every edge endpoint lies below `n`.
pub open spec fn edges_wf(edges: Seq<(int, int)>, n: int) -> bool {
    forall|k: int|
        0 <= k < edges.len() ==> 0 <= (#[trigger] edges[k]).0 < n && 0 <= edges[k].1 < n
}

/// In a well-formed edge list, every neighbor is a valid node index.
pub proof fn lemma_incident_in_range(edges: Seq<(int, int)>, n: int, a: int, v: int)
    requires
        edges_wf(edges, n),
        incident_ms(edges, a).contains(v),
    ensures
        0 <= v < n,
    decreases edges.len(),
{
    if edges.len() > 0 {
        assert(edges_wf(edges.drop_last(), n)) by {
            assert(forall|k: int|
                0 <= k < edges.drop_last().len() ==> edges.drop_last()[k] == edges[k]);
        }
        if incident_ms(edges.drop_last(), a).contains(v) {
            lemma_incident_in_range(edges.drop_last(), n, a, v);
        } else {
            assert(touches(edges.last(), a) && other_end(edges.last(), a) == v);
            assert(edges[edges.len() - 1] == edges.last());
        }
    }
}

} // verus!
