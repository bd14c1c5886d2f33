//! Degree and degree centrality over a completed graph. Values are exact:
//! the degree is an integer, and a centrality is the rational
//! `degree / divisor` carried as a numerator/denominator pair.

use vstd::prelude::*;
use crate::graph::ReviewGraph;
use crate::model::degree_of;

verus! {

/// A degree-centrality value: the exact rational `degree / divisor`.
#[derive(PartialEq, Eq, Structural, Clone, Copy, Debug)]
pub struct Centrality {
    pub degree: u64,
    pub divisor: u64,
}

impl ReviewGraph {
    /// The degree of every node, indexed by node handle: the count of
    /// incident edges, parallel edges counted individually and a self-loop
    /// counted per the store's adjacency enumeration (once). Defined for
    /// every node, isolated ones included.
    pub fn calculate_degree(&self) -> (r: Vec<u64>)
        requires
            self.wf(),
        ensures
            r@.len() == self.nodes().len(),
            forall|i: int| 0 <= i < r@.len() ==> #[trigger] r@[i] == degree_of(self.edges(), i),
    {
        let n = self.node_count();
        let mut r: Vec<u64> = Vec::new();
        let mut i: usize = 0;
        while i < n
            invariant
                self.wf(),
                n == self.nodes().len(),
                i <= n,
                r@.len() == i as int,
                forall|j: int| 0 <= j < i ==> #[trigger] r@[j] == degree_of(self.edges(), j),
            decreases n - i,
        {
            let ns = self.neighbors(i);
            proof {
                let m = ns@.map_values(|x: usize| x as int);
                m.to_multiset_ensures();
                assert(m.to_multiset().len() == ns@.len());
            }
            r.push(ns.len() as u64);
            i = i + 1;
        }
        r
    }

    /// The degree centrality of every node, indexed by node handle: degree
    /// divided by `node_count - 1`. For a graph with zero or one node the
    /// value is defined as zero (carried as `0 / 1`) rather than a
    /// division by zero — the explicit normalization guard.
    pub fn calculate_degree_centrality(&self) -> (r: Vec<Centrality>)
        requires
            self.wf(),
        ensures
            r@.len() == self.nodes().len(),
            self.nodes().len() > 1 ==> forall|i: int|
                0 <= i < r@.len() ==> (#[trigger] r@[i]).degree == degree_of(self.edges(), i)
                    && r@[i].divisor == self.nodes().len() - 1,
            self.nodes().len() <= 1 ==> forall|i: int|
                0 <= i < r@.len() ==> (#[trigger] r@[i]).degree == 0 && r@[i].divisor == 1,
    {
        let n = self.node_count();
        let mut r: Vec<Centrality> = Vec::new();
        let mut i: usize = 0;
        if n > 1 {
            while i < n
                invariant
                    self.wf(),
                    n == self.nodes().len(),
                    n > 1,
                    i <= n,
                    r@.len() == i as int,
                    forall|j: int|
                        0 <= j < i ==> (#[trigger] r@[j]).degree == degree_of(self.edges(), j)
                            && r@[j].divisor == n - 1,
                decreases n - i,
            {
                let ns = self.neighbors(i);
                proof {
                    let m = ns@.map_values(|x: usize| x as int);
                    m.to_multiset_ensures();
                    assert(m.to_multiset().len() == ns@.len());
                }
                r.push(Centrality { degree: ns.len() as u64, divisor: (n - 1) as u64 });
                i = i + 1;
            }
        } else {
            while i < n
                invariant
                    i <= n,
                    r@.len() == i as int,
                    forall|j: int|
                        0 <= j < i ==> (#[trigger] r@[j]).degree == 0 && r@[j].divisor == 1,
                decreases n - i,
            {
                r.push(Centrality { degree: 0, divisor: 1 });
                i = i + 1;
            }
        }
        r
    }
}

/// Shared metric domain: the degree map and the centrality map of one
/// graph are both indexed by exactly the node handles `0 .. node_count`,
/// so a handle is present in one exactly when it is present in the other.
pub proof fn lemma_metric_domains(degrees: Seq<u64>, centralities: Seq<Centrality>, n: int)
    requires
        degrees.len() == n,
        centralities.len() == n,
    ensures
        degrees.len() == centralities.len(),
        forall|h: int|
            #![trigger degrees[h], centralities[h]]
            (0 <= h < degrees.len() <==> 0 <= h < centralities.len()),
{
}

} // verus!
