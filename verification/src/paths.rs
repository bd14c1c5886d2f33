//! Shortest-path distances on the graph model: walks, reachability, and
//! the minimum walk length between two nodes.

use vstd::prelude::*;
use crate::model::{adjacent, lemma_adjacent_symmetric};

verus! {

/// A walk of exactly `d` hops from `s` ends at `v`.
pub open spec fn reaches(edges: Seq<(int, int)>, s: int, v: int, d: nat) -> bool
    decreases d,
{
    if d == 0 {
        v == s
    } else {
        exists|u: int| reaches(edges, s, u, (d - 1) as nat) && adjacent(edges, u, v)
    }
}

/// Some walk from `s` ends at `v`.
pub open spec fn reachable(edges: Seq<(int, int)>, s: int, v: int) -> bool {
    exists|d: nat| reaches(edges, s, v, d)
}

/// The shortest-path distance from `s` to `v`, meaningful when `v` is
/// reachable from `s`.
pub open spec fn dist_spec(edges: Seq<(int, int)>, s: int, v: int) -> nat {
    choose|d: nat|
        reaches(edges, s, v, d) && (forall|d2: nat| d2 < d ==> !reaches(edges, s, v, d2))
}

/// Among the walk lengths from `s` to `v` there is a least one.
pub proof fn lemma_min_reach_exists(edges: Seq<(int, int)>, s: int, v: int, d: nat)
    requires
        reaches(edges, s, v, d),
    ensures
        exists|m: nat|
            reaches(edges, s, v, m) && (forall|d2: nat| d2 < m ==> !reaches(edges, s, v, d2)),
    decreases d,
{
    if exists|d2: nat| d2 < d && reaches(edges, s, v, d2) {
        let d2 = choose|d2: nat| d2 < d && reaches(edges, s, v, d2);
        lemma_min_reach_exists(edges, s, v, d2);
    } else {
        assert(reaches(edges, s, v, d) && (forall|d2: nat| d2 < d ==> !reaches(edges, s, v, d2)));
    }
}

/// For a reachable `v`, `dist_spec` is realized by a walk and no shorter
/// walk exists.
pub proof fn lemma_dist_spec(edges: Seq<(int, int)>, s: int, v: int)
    requires
        reachable(edges, s, v),
    ensures
        reaches(edges, s, v, dist_spec(edges, s, v)),
        forall|d2: nat| d2 < dist_spec(edges, s, v) ==> !reaches(edges, s, v, d2),
{
    let d = choose|d: nat| reaches(edges, s, v, d);
    lemma_min_reach_exists(edges, s, v, d);
}

/// Every node reaches itself at distance zero.
pub proof fn lemma_dist_self(edges: Seq<(int, int)>, s: int)
    ensures
        reachable(edges, s, s),
        dist_spec(edges, s, s) == 0,
{
    assert(reaches(edges, s, s, 0));
    lemma_dist_spec(edges, s, s);
    if dist_spec(edges, s, s) > 0 {
        assert(!reaches(edges, s, s, 0));
    }
}

/// Distances are monotone along edges: one hop changes the shortest
/// distance by at most one.
pub proof fn lemma_dist_step(edges: Seq<(int, int)>, s: int, u: int, v: int)
    requires
        reachable(edges, s, u),
        adjacent(edges, u, v),
    ensures
        reachable(edges, s, v),
        dist_spec(edges, s, v) <= dist_spec(edges, s, u) + 1,
{
    lemma_dist_spec(edges, s, u);
    let du = dist_spec(edges, s, u);
    assert(reaches(edges, s, v, (du + 1) as nat)) by {
        assert(reaches(edges, s, u, du) && adjacent(edges, u, v));
    }
    lemma_dist_spec(edges, s, v);
    if dist_spec(edges, s, v) > du + 1 {
        assert(!reaches(edges, s, v, (du + 1) as nat));
    }
}

/// Along any shortest-path tree, adjacent nodes sit on the same level or
/// on neighboring levels: distances never jump by more than one hop in
/// either direction across an edge.
pub proof fn lemma_level_monotone(edges: Seq<(int, int)>, s: int, u: int, v: int)
    requires
        reachable(edges, s, u),
        adjacent(edges, u, v),
    ensures
        reachable(edges, s, v),
        dist_spec(edges, s, v) <= dist_spec(edges, s, u) + 1,
        dist_spec(edges, s, u) <= dist_spec(edges, s, v) + 1,
{
    lemma_dist_step(edges, s, u, v);
    lemma_adjacent_symmetric(edges, u, v);
    lemma_dist_step(edges, s, v, u);
}

} // verus!
