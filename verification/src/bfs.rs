//! Breadth-first search: from a source node, the shortest-path distance to
//! every reachable node. The FIFO frontier is a vector with a head cursor;
//! a node is assigned the first (minimum) distance at which it is
//! discovered and never revisited.

use vstd::prelude::*;
use vstd::pervasive::VecAdditionalExecFns;
use vstd::set_lib::{lemma_int_range, lemma_len_subset, set_int_range};
use crate::graph::ReviewGraph;
use crate::model::adjacent;
use crate::paths::{dist_spec, lemma_dist_spec, reachable, reaches};

verus! {

/// A distance map is closed when every neighbor of a mapped node is
/// mapped, at most one hop further out.
pub open spec fn dm_closed(edges: Seq<(int, int)>, dm: Seq<Option<usize>>) -> bool {
    forall|u: int, v: int|
        0 <= u < dm.len() && dm[u] is Some && #[trigger] adjacent(edges, u, v) ==> 0 <= v
            < dm.len() && dm[v] is Some && dm[v]->Some_0 <= dm[u]->Some_0 + 1
}

/// A distance map is sound when every recorded distance is realized by a
/// walk from the source.
pub open spec fn dm_sound(edges: Seq<(int, int)>, dm: Seq<Option<usize>>, s: int) -> bool {
    forall|v: int|
        0 <= v < dm.len() && (#[trigger] dm[v]) is Some ==> reaches(
            edges,
            s,
            v,
            dm[v]->Some_0 as nat,
        )
}

/// In a closed map holding the source at zero, every node a `d`-hop walk
/// ends at is mapped at no more than `d`.
pub proof fn lemma_reach_bound(
    edges: Seq<(int, int)>,
    dm: Seq<Option<usize>>,
    s: int,
    v: int,
    d: nat,
)
    requires
        0 <= s < dm.len(),
        dm[s] is Some,
        dm[s]->Some_0 == 0,
        dm_closed(edges, dm),
        reaches(edges, s, v, d),
    ensures
        0 <= v < dm.len(),
        dm[v] is Some,
        dm[v]->Some_0 <= d,
    decreases d,
{
    if d > 0 {
        let u = choose|u: int| reaches(edges, s, u, (d - 1) as nat) && adjacent(edges, u, v);
        lemma_reach_bound(edges, dm, s, u, (d - 1) as nat);
    }
}

/// A sound, closed distance map holding the source at zero records exactly
/// the shortest-path distances, and covers exactly the reachable nodes.
pub proof fn lemma_dm_exact(edges: Seq<(int, int)>, dm: Seq<Option<usize>>, s: int)
    requires
        0 <= s < dm.len(),
        dm[s] is Some,
        dm[s]->Some_0 == 0,
        dm_closed(edges, dm),
        dm_sound(edges, dm, s),
    ensures
        forall|v: int|
            0 <= v < dm.len() ==> #[trigger] dm[v] == (if reachable(edges, s, v) {
                Some(dist_spec(edges, s, v) as usize)
            } else {
                None::<usize>
            }),
        forall|v: int|
            0 <= v < dm.len() && reachable(edges, s, v) ==> (#[trigger] dm[v]) is Some
                && dm[v]->Some_0 == dist_spec(edges, s, v),
{
    assert forall|v: int| 0 <= v < dm.len() implies (#[trigger] dm[v] == (if reachable(
        edges,
        s,
        v,
    ) {
        Some(dist_spec(edges, s, v) as usize)
    } else {
        None::<usize>
    })) && (reachable(edges, s, v) ==> dm[v] is Some && dm[v]->Some_0 == dist_spec(
        edges,
        s,
        v,
    )) by {
        if dm[v] is Some {
            let k = dm[v]->Some_0;
            assert(reaches(edges, s, v, k as nat));
            assert(reachable(edges, s, v));
            lemma_dist_spec(edges, s, v);
            let m = dist_spec(edges, s, v);
            lemma_reach_bound(edges, dm, s, v, m);
            assert(k == m) by {
                if k != m {
                    assert(m < k);
                    assert(reaches(edges, s, v, m));
                }
            }
        } else {
            if reachable(edges, s, v) {
                let d = choose|d: nat| reaches(edges, s, v, d);
                lemma_reach_bound(edges, dm, s, v, d);
            }
        }
    }
}

/// A duplicate-free vector of node indices below `n` has at most `n`
/// entries.
proof fn lemma_bounded_nodup_len(q: Seq<usize>, n: int)
    requires
        q.no_duplicates(),
        forall|i: int| 0 <= i < q.len() ==> (#[trigger] q[i] as int) < n,
        0 <= n,
    ensures
        q.len() <= n,
{
    let qi = q.map_values(|x: usize| x as int);
    assert(qi.no_duplicates()) by {
        assert forall|i: int, j: int|
            0 <= i < qi.len() && 0 <= j < qi.len() && i != j implies qi[i] != qi[j] by {
            assert(q[i] != q[j]);
        }
    }
    qi.unique_seq_to_set();
    assert(qi.to_set().subset_of(set_int_range(0, n))) by {
        assert forall|x: int| qi.to_set().contains(x) implies set_int_range(0, n).contains(x) by {
            let i = choose|i: int| 0 <= i < qi.len() && qi[i] == x;
            assert(q[i] as int == x);
        }
    }
    lemma_int_range(0, n);
    lemma_len_subset(qi.to_set(), set_int_range(0, n));
}

impl ReviewGraph {
    /// Shortest-path distances in edge hops from `start`: entry `v` is
    /// `Some(d)` exactly when `v` is reachable from `start` and `d` is the
    /// minimum walk length, and `None` exactly when `v` is unreachable.
    #[verifier::rlimit(100)]
    pub fn bfs_distances(&self, start: usize) -> (r: Vec<Option<usize>>)
        requires
            self.wf(),
            start < self.nodes().len(),
        ensures
            r@.len() == self.nodes().len(),
            r@[start as int] == Some(0usize),
            forall|v: int|
                0 <= v < r@.len() && (#[trigger] r@[v]) is Some ==> r@[v]->Some_0 < r@.len(),
            forall|v: int|
                0 <= v < r@.len() && reachable(self.edges(), start as int, v) ==> (
                #[trigger] r@[v]) is Some && r@[v]->Some_0 == dist_spec(
                    self.edges(),
                    start as int,
                    v,
                ),
            forall|v: int|
                0 <= v < r@.len() ==> #[trigger] r@[v] == (if reachable(
                    self.edges(),
                    start as int,
                    v,
                ) {
                    Some(dist_spec(self.edges(), start as int, v) as usize)
                } else {
                    None::<usize>
                }),
    {
        let n = self.node_count();
        let ghost es = self.edges();
        let mut dist: Vec<Option<usize>> = Vec::new();
        let mut i: usize = 0;
        while i < n
            invariant
                i <= n,
                dist@.len() == i as int,
                forall|j: int| 0 <= j < i ==> (#[trigger] dist@[j]) is None,
            decreases n - i,
        {
            dist.push(None);
            i = i + 1;
        }
        dist.set(start, Some(0));
        let mut queue: Vec<usize> = Vec::new();
        queue.push(start);
        let mut head: usize = 0;
        proof {
            assert(reaches(es, start as int, start as int, 0));
            assert(queue@[0] == start);
            assert(queue@.contains(start));
            assert forall|v: int|
                0 <= v < n && (#[trigger] dist@[v]) is Some implies queue@.contains(
                v as usize,
            ) by {
                if v != start as int {
                    assert(dist@[v] is None);
                } else {
                    assert(queue@[0] == start);
                }
            }
        }
        while head < queue.len()
            invariant
                self.wf(),
                n == self.nodes().len(),
                es == self.edges(),
                start < n,
                dist@.len() == n,
                head <= queue@.len(),
                queue@.len() <= n,
                dist@[start as int] == Some(0usize),
                forall|i: int|
                    0 <= i < queue@.len() ==> (#[trigger] queue@[i] as int) < n
                        && dist@[queue@[i] as int] is Some,
                queue@.no_duplicates(),
                forall|v: int|
                    0 <= v < n && (#[trigger] dist@[v]) is Some ==> queue@.contains(v as usize),
                dm_sound(es, dist@, start as int),
                forall|i: int|
                    0 <= i < queue@.len() ==> dist@[#[trigger] queue@[i] as int]->Some_0 <= i,
                forall|i: int, j: int|
                    0 <= i <= j < queue@.len() ==> dist@[#[trigger] queue@[i] as int]->Some_0
                        <= dist@[#[trigger] queue@[j] as int]->Some_0,
                forall|i: int, j: int|
                    head <= i < queue@.len() && 0 <= j < queue@.len()
                        ==> dist@[#[trigger] queue@[j] as int]->Some_0
                        <= dist@[#[trigger] queue@[i] as int]->Some_0 + 1,
                forall|i: int, v: int|
                    0 <= i < head && #[trigger] adjacent(es, queue@[i] as int, v) ==> 0 <= v < n
                        && dist@[v] is Some && dist@[v]->Some_0 <= dist@[queue@[i] as int]->Some_0
                        + 1,
            decreases n - head,
        {
            let u = queue[head];
            let du = dist[u].unwrap();
            let ns = self.neighbors(u);
            let ghost m = ns@.map_values(|x: usize| x as int);
            proof {
                m.to_multiset_ensures();
            }
            let mut kk: usize = 0;
            while kk < ns.len()
                invariant
                    self.wf(),
                    n == self.nodes().len(),
                    es == self.edges(),
                    start < n,
                    dist@.len() == n,
                    head < queue@.len(),
                    queue@.len() <= n,
                    dist@[start as int] == Some(0usize),
                    u == queue@[head as int],
                    (u as int) < n,
                    dist@[u as int] == Some(du),
                    du as int <= head,
                    kk <= ns@.len(),
                    m == ns@.map_values(|x: usize| x as int),
                    m.to_multiset() == crate::model::incident_ms(es, u as int),
                    forall|i: int| 0 <= i < ns@.len() ==> (#[trigger] ns@[i] as int) < n,
                    forall|i: int|
                        0 <= i < queue@.len() ==> (#[trigger] queue@[i] as int) < n
                            && dist@[queue@[i] as int] is Some,
                    queue@.no_duplicates(),
                    forall|v: int|
                        0 <= v < n && (#[trigger] dist@[v]) is Some ==> queue@.contains(v as usize),
                    dm_sound(es, dist@, start as int),
                    forall|i: int|
                        0 <= i < queue@.len() ==> dist@[#[trigger] queue@[i] as int]->Some_0 <= i,
                    forall|i: int, j: int|
                        0 <= i <= j < queue@.len() ==> dist@[#[trigger] queue@[i] as int]->Some_0
                            <= dist@[#[trigger] queue@[j] as int]->Some_0,
                    forall|i: int, j: int|
                        head <= i < queue@.len() && 0 <= j < queue@.len()
                            ==> dist@[#[trigger] queue@[j] as int]->Some_0
                            <= dist@[#[trigger] queue@[i] as int]->Some_0 + 1,
                    forall|i: int, v: int|
                        0 <= i < head && #[trigger] adjacent(es, queue@[i] as int, v) ==> 0 <= v
                            < n && dist@[v] is Some
                            && dist@[v]->Some_0 <= dist@[queue@[i] as int]->Some_0 + 1,
                    forall|j: int|
                        0 <= j < kk ==> dist@[#[trigger] ns@[j] as int] is Some
                            && dist@[ns@[j] as int]->Some_0 <= du + 1,
                decreases ns@.len() - kk,
            {
                let v = ns[kk];
                proof {
                    m.to_multiset_ensures();
                    assert(m[kk as int] == v as int);
                    assert(m.contains(v as int));
                    assert(m.to_multiset().count(v as int) > 0);
                    assert(m.to_multiset().contains(v as int));
                    assert(adjacent(es, u as int, v as int));
                }
                if dist[v].is_none() {
                    let ghost old_dist = dist@;
                    let ghost old_queue = queue@;
                    dist.set(v, Some(du + 1));
                    queue.push(v);
                    proof {
                        let L = old_queue.len() as int;
                        assert(queue@ == old_queue.push(v));
                        assert(queue@.len() == L + 1);
                        assert(forall|i: int| 0 <= i < L ==> queue@[i] == old_queue[i]);
                        assert(queue@[L] == v);
                        // v was not already queued
                        assert(!old_queue.contains(v)) by {
                            if old_queue.contains(v) {
                                let i = choose|i: int|
                                    0 <= i < old_queue.len() && old_queue[i] == v;
                                assert(old_dist[old_queue[i] as int] is Some);
                            }
                        }
                        assert(queue@.no_duplicates());
                        // distances of previously queued nodes are unchanged
                        assert(forall|i: int|
                            0 <= i < L ==> dist@[#[trigger] queue@[i] as int]
                                == old_dist[queue@[i] as int]);
                        // membership is preserved by push
                        assert forall|w: int|
                            0 <= w < n && (#[trigger] dist@[w]) is Some implies queue@.contains(
                            w as usize,
                        ) by {
                            if w == v as int {
                                assert(queue@[L] == v);
                            } else {
                                assert(old_dist[w] is Some);
                                let i = choose|i: int|
                                    0 <= i < old_queue.len() && old_queue[i] == w as usize;
                                assert(queue@[i] == w as usize);
                            }
                        }
                        // soundness of the new entry
                        assert(reaches(es, start as int, v as int, (du + 1) as nat)) by {
                            assert(reaches(es, start as int, u as int, du as nat));
                            assert(adjacent(es, u as int, v as int));
                        }
                        assert(dm_sound(es, dist@, start as int));
                        // index bound for the new entry
                        assert(dist@[queue@[L] as int]->Some_0 == du + 1 && du + 1 <= L);
                        // monotonicity: every queued distance is at most du + 1
                        assert(forall|j: int|
                            0 <= j < L ==> dist@[#[trigger] queue@[j] as int]->Some_0 <= du + 1);
                        // closure over the processed prefix is untouched: a
                        // node freshly mapped was no processed node's neighbor
                        assert forall|i: int, v2: int|
                            0 <= i < head && #[trigger] adjacent(es, queue@[i] as int, v2) implies 0
                            <= v2 < n && dist@[v2] is Some
                            && dist@[v2]->Some_0 <= dist@[queue@[i] as int]->Some_0 + 1 by {
                            assert(adjacent(es, old_queue[i] as int, v2));
                            assert(old_dist[v2] is Some);
                            assert(v2 != v as int);
                            assert(dist@[v2] == old_dist[v2]);
                        }
                        lemma_bounded_nodup_len(queue@, n as int);
                    }
                }
                kk = kk + 1;
            }
            proof {
                // after the scan, every neighbor of u is mapped within du + 1
                m.to_multiset_ensures();
                assert forall|v: int| #[trigger] adjacent(es, u as int, v) implies 0 <= v < n
                    && dist@[v] is Some && dist@[v]->Some_0 <= du + 1 by {
                    assert(m.to_multiset().count(v) > 0);
                    assert(m.to_multiset().contains(v));
                    assert(m.contains(v));
                    let j = choose|j: int| 0 <= j < m.len() && m[j] == v;
                    assert(ns@[j] as int == v);
                }
            }
            head = head + 1;
        }
        proof {
            assert(dm_closed(es, dist@)) by {
                assert forall|u: int, v: int|
                    0 <= u < dist@.len() && dist@[u] is Some && #[trigger] adjacent(
                        es,
                        u,
                        v,
                    ) implies 0 <= v < dist@.len() && dist@[v] is Some
                        && dist@[v]->Some_0 <= dist@[u]->Some_0 + 1 by {
                    assert(queue@.contains(u as usize));
                    let i = choose|i: int| 0 <= i < queue@.len() && queue@[i] == u as usize;
                    assert(queue@[i] as int == u);
                    assert(i < head);
                    assert(adjacent(es, queue@[i] as int, v));
                }
            }
            lemma_dm_exact(es, dist@, start as int);
            assert forall|v: int|
                0 <= v < dist@.len() && (#[trigger] dist@[v]) is Some implies dist@[v]->Some_0
                < dist@.len() by {
                assert(queue@.contains(v as usize));
                let i = choose|i: int| 0 <= i < queue@.len() && queue@[i] == v as usize;
                assert(dist@[queue@[i] as int]->Some_0 <= i);
            }
        }
        dist
    }
}

} // verus!
