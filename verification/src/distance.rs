//! The sampled average-distance estimator: run a BFS from each node of a
//! random sample and accumulate every discovered distance (the zero
//! self-distance included) and every (source, reachable-target) pair.
//! Unreachable pairs contribute nothing to either accumulator.

use vstd::prelude::*;
use crate::graph::ReviewGraph;
use crate::paths::{dist_spec, reachable};
use crate::sampling::{fresh_rng, sample_from};

verus! {

/// The estimator's raw accumulators: the distance sum and the number of
/// (source, reachable-target) pairs it ranges over. The estimated average
/// is `total / pairs`; zero pairs (an empty graph or an empty sample)
/// means an estimate of zero.
#[derive(PartialEq, Eq, Structural, Clone, Copy, Debug)]
pub struct DistanceEstimate {
    pub total: u128,
    pub pairs: u128,
}

/// How many of the nodes below `n` a walk from `s` reaches (`s` itself
/// included).
pub open spec fn source_pairs(edges: Seq<(int, int)>, s: int, n: int) -> int
    decreases n,
{
    if n <= 0 {
        0
    } else {
        source_pairs(edges, s, n - 1) + if reachable(edges, s, n - 1) {
            1int
        } else {
            0int
        }
    }
}

/// The sum of the shortest distances from `s` to the reachable nodes
/// below `n`.
pub open spec fn source_dist_total(edges: Seq<(int, int)>, s: int, n: int) -> int
    decreases n,
{
    if n <= 0 {
        0
    } else {
        source_dist_total(edges, s, n - 1) + if reachable(edges, s, n - 1) {
            dist_spec(edges, s, n - 1) as int
        } else {
            0int
        }
    }
}

/// The pair count accumulated over a sequence of sources.
pub open spec fn sample_pairs(edges: Seq<(int, int)>, n: int, srcs: Seq<int>) -> int
    decreases srcs.len(),
{
    if srcs.len() == 0 {
        0
    } else {
        sample_pairs(edges, n, srcs.drop_last()) + source_pairs(edges, srcs.last(), n)
    }
}

/// The distance sum accumulated over a sequence of sources.
pub open spec fn sample_dist_total(edges: Seq<(int, int)>, n: int, srcs: Seq<int>) -> int
    decreases srcs.len(),
{
    if srcs.len() == 0 {
        0
    } else {
        sample_dist_total(edges, n, srcs.drop_last()) + source_dist_total(
            edges,
            srcs.last(),
            n,
        )
    }
}

/// A valid sample of `k` out of `n` nodes: distinct valid handles,
/// `min(k, n)` of them.
pub open spec fn valid_sample(srcs: Seq<int>, n: int, k: int) -> bool {
    srcs.no_duplicates() && (forall|i: int| 0 <= i < srcs.len() ==> 0 <= #[trigger] srcs[i] < n)
        && srcs.len() == if k <= n {
        k
    } else {
        n
    }
}

/// Every node handle, in order.
pub open spec fn all_nodes(n: int) -> Seq<int> {
    Seq::new(n as nat, |i: int| i)
}

/// `r` is the estimator's output for the sample `srcs`.
pub open spec fn is_estimate_for(
    edges: Seq<(int, int)>,
    n: int,
    k: int,
    srcs: Seq<int>,
    r: DistanceEstimate,
) -> bool {
    valid_sample(srcs, n, k) && r.total == sample_dist_total(edges, n, srcs) && r.pairs
        == sample_pairs(edges, n, srcs)
}

/// One source's contribution: the distance sum and reachable-pair count
/// of a single BFS.
fn source_stats(g: &ReviewGraph, s: usize) -> (r: (u64, u64))
    requires
        g.wf(),
        s < g.nodes().len(),
        g.nodes().len() < 0xFFFF_FFFF,
    ensures
        r.0 as int == source_dist_total(g.edges(), s as int, g.nodes().len() as int),
        r.1 as int == source_pairs(g.edges(), s as int, g.nodes().len() as int),
{
    let dist = g.bfs_distances(s);
    let n = g.node_count();
    let mut sum: u64 = 0;
    let mut pairs: u64 = 0;
    let mut v: usize = 0;
    while v < n
        invariant
            n == g.nodes().len(),
            n < 0xFFFF_FFFF,
            dist@.len() == n,
            forall|w: int|
                0 <= w < n && (#[trigger] dist@[w]) is Some ==> dist@[w]->Some_0 < n,
            forall|w: int|
                0 <= w < n && (#[trigger] dist@[w]) is Some ==> reachable(
                    g.edges(),
                    s as int,
                    w,
                ),
            forall|w: int|
                0 <= w < n && reachable(g.edges(), s as int, w) ==> (#[trigger] dist@[w]) is Some
                    && dist@[w]->Some_0 == dist_spec(g.edges(), s as int, w),
            v <= n,
            sum as int == source_dist_total(g.edges(), s as int, v as int),
            pairs as int == source_pairs(g.edges(), s as int, v as int),
            sum as int <= (v as int) * 0xFFFF_FFFE,
            pairs <= v,
        decreases n - v,
    {
        match dist[v] {
            Some(d) => {
                proof {
                    assert(dist@[v as int] is Some);
                    assert(reachable(g.edges(), s as int, v as int));
                    assert(d == dist@[v as int]->Some_0);
                    assert(d as int == dist_spec(g.edges(), s as int, v as int));
                    assert((d as int) < n as int);
                }
                sum = sum + (d as u64);
                pairs = pairs + 1;
            },
            None => {
                proof {
                    assert(!reachable(g.edges(), s as int, v as int));
                }
            },
        }
        v = v + 1;
    }
    (sum, pairs)
}

impl ReviewGraph {
    /// Estimate the average shortest-path length: draw up to
    /// `sample_size` distinct source nodes uniformly at random (the whole
    /// node set when `sample_size` covers it), BFS from each, and
    /// accumulate all discovered distances and pairs. Whatever sample the
    /// generator yields, the result is the exact accumulation over some
    /// valid sample; with `sample_size >= node_count` it is the exact
    /// accumulation over all (source, reachable-target) pairs, self-pairs
    /// included.
    pub fn calculate_average_distance(&self, sample_size: usize) -> (r: DistanceEstimate)
        requires
            self.wf(),
            self.nodes().len() < 0xFFFF_FFFF,
        ensures
            exists|srcs: Seq<int>|
                #[trigger] is_estimate_for(
                    self.edges(),
                    self.nodes().len() as int,
                    sample_size as int,
                    srcs,
                    r,
                ),
            sample_size >= self.nodes().len() ==> r.total == sample_dist_total(
                self.edges(),
                self.nodes().len() as int,
                all_nodes(self.nodes().len() as int),
            ) && r.pairs == sample_pairs(
                self.edges(),
                self.nodes().len() as int,
                all_nodes(self.nodes().len() as int),
            ),
    {
        let n = self.node_count();
        let mut pool: Vec<usize> = Vec::new();
        let mut i: usize = 0;
        while i < n
            invariant
                i <= n,
                pool@.len() == i as int,
                forall|j: int| 0 <= j < i ==> (#[trigger] pool@[j]) as int == j,
            decreases n - i,
        {
            pool.push(i);
            i = i + 1;
        }
        proof {
            assert(pool@.no_duplicates()) by {
                assert forall|a: int, b: int|
                    0 <= a < pool@.len() && 0 <= b < pool@.len() && a != b implies pool@[a]
                    != pool@[b] by {
                    assert(pool@[a] as int == a && pool@[b] as int == b);
                }
            }
        }
        let exhaustive = sample_size >= n;
        let sources: Vec<usize> = if exhaustive {
            pool
        } else {
            let mut rng = fresh_rng();
            sample_from(&pool, &mut rng, sample_size)
        };
        let ghost srcs = sources@.map_values(|x: usize| x as int);
        proof {
            assert(srcs.no_duplicates()) by {
                assert forall|a: int, b: int|
                    0 <= a < srcs.len() && 0 <= b < srcs.len() && a != b implies srcs[a]
                    != srcs[b] by {
                    assert(sources@[a] != sources@[b]);
                }
            }
            assert forall|j: int| 0 <= j < srcs.len() implies 0 <= #[trigger] srcs[j]
                < n as int by {
                if !exhaustive {
                    let x = sources@[j];
                    assert(pool@.contains(x));
                    let p = choose|p: int| 0 <= p < pool@.len() && pool@[p] == x;
                    assert(pool@[p] as int == p);
                }
            }
            assert(valid_sample(srcs, n as int, sample_size as int));
            if exhaustive {
                assert(srcs =~= all_nodes(n as int));
            }
        }
        let m = sources.len();
        let mut total: u128 = 0;
        let mut pairs: u128 = 0;
        let mut t: usize = 0;
        while t < m
            invariant
                self.wf(),
                n == self.nodes().len(),
                n < 0xFFFF_FFFF,
                m == sources@.len(),
                m <= n,
                srcs == sources@.map_values(|x: usize| x as int),
                forall|j: int| 0 <= j < srcs.len() ==> 0 <= #[trigger] srcs[j] < n as int,
                t <= m,
                total as int == sample_dist_total(self.edges(), n as int, srcs.subrange(
                    0,
                    t as int,
                )),
                pairs as int == sample_pairs(self.edges(), n as int, srcs.subrange(0, t as int)),
                total as int <= (t as int) * 0xFFFF_FFFF_FFFF_FFFF,
                pairs as int <= (t as int) * 0xFFFF_FFFF_FFFF_FFFF,
            decreases m - t,
        {
            let s = sources[t];
            proof {
                assert(srcs[t as int] == s as int);
            }
            let (ds, dp) = source_stats(self, s);
            total = total + (ds as u128);
            pairs = pairs + (dp as u128);
            t = t + 1;
            proof {
                assert(srcs.subrange(0, t as int).drop_last() =~= srcs.subrange(0, t - 1));
                assert(srcs.subrange(0, t as int).last() == srcs[t - 1]);
            }
        }
        proof {
            assert(srcs.subrange(0, m as int) =~= srcs);
        }
        let r = DistanceEstimate { total, pairs };
        proof {
            assert(is_estimate_for(
                self.edges(),
                self.nodes().len() as int,
                sample_size as int,
                srcs,
                r,
            ));
        }
        r
    }
}

} // verus!
