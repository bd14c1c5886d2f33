//! The review graph and its construction primitives: adding nodes and
//! edges, resolving a string identifier to its (unique) node handle, and
//! enumerating a node's neighbors.

use vstd::prelude::*;
use crate::model::{edges_wf, incident_ms, lemma_incident_in_range};
use crate::storage::{
    store_add_edge, store_add_node, store_edge_count, store_edges, store_neighbors, store_new,
    store_nodes, Store,
};
use crate::bytes::{bytes_eq, sub_bytes};

verus! {

/// The first node holding label `l`, or -1 if no node does.
pub open spec fn index_of_label(nodes: Seq<Seq<u8>>, l: Seq<u8>) -> int
    decreases nodes.len(),
{
    if nodes.len() == 0 {
        -1
    } else if nodes[0] == l {
        0
    } else {
        let r = index_of_label(nodes.drop_first(), l);
        if r < 0 {
            -1
        } else {
            r + 1
        }
    }
}

pub proof fn lemma_index_of_label_found(nodes: Seq<Seq<u8>>, l: Seq<u8>, i: int)
    requires
        0 <= i < nodes.len(),
        nodes[i] == l,
        forall|j: int| 0 <= j < i ==> nodes[j] != l,
    ensures
        index_of_label(nodes, l) == i,
    decreases i,
{
    if i > 0 {
        let n1 = nodes.drop_first();
        assert(n1[i - 1] == l);
        assert(forall|j: int| 0 <= j < i - 1 ==> n1[j] == nodes[j + 1] && nodes[j + 1] != l);
        lemma_index_of_label_found(n1, l, i - 1);
    }
}

pub proof fn lemma_index_of_label_none(nodes: Seq<Seq<u8>>, l: Seq<u8>)
    requires
        forall|j: int| 0 <= j < nodes.len() ==> nodes[j] != l,
    ensures
        index_of_label(nodes, l) == -1,
    decreases nodes.len(),
{
    if nodes.len() > 0 {
        let n1 = nodes.drop_first();
        assert(forall|j: int| 0 <= j < n1.len() ==> n1[j] == nodes[j + 1] && nodes[j + 1] != l);
        lemma_index_of_label_none(n1, l);
    }
}

/// A miss means the label is nowhere in the list.
pub proof fn lemma_index_of_label_complete(nodes: Seq<Seq<u8>>, l: Seq<u8>)
    ensures
        index_of_label(nodes, l) == -1 ==> forall|j: int|
            0 <= j < nodes.len() ==> nodes[j] != l,
    decreases nodes.len(),
{
    if nodes.len() > 0 && nodes[0] != l {
        lemma_index_of_label_complete(nodes.drop_first(), l);
        if index_of_label(nodes, l) == -1 {
            assert forall|j: int| 0 <= j < nodes.len() implies nodes[j] != l by {
                if j > 0 {
                    assert(nodes.drop_first()[j - 1] == nodes[j]);
                }
            }
        }
    }
}

/// Identifier resolution on the model: the node list after resolving `l`,
/// and the handle `l` resolves to. A known label keeps the list unchanged;
/// a new one is appended.
pub open spec fn resolve_spec(nodes: Seq<Seq<u8>>, l: Seq<u8>) -> (Seq<Seq<u8>>, int) {
    let i = index_of_label(nodes, l);
    if i >= 0 {
        (nodes, i)
    } else {
        (nodes.push(l), nodes.len() as int)
    }
}

/// Resolution keeps a duplicate-free node list duplicate-free.
pub proof fn lemma_resolve_unique(nodes: Seq<Seq<u8>>, l: Seq<u8>)
    requires
        nodes.no_duplicates(),
    ensures
        resolve_spec(nodes, l).0.no_duplicates(),
{
    lemma_index_of_label_complete(nodes, l);
    if index_of_label(nodes, l) < 0 {
        let n2 = nodes.push(l);
        assert forall|i: int, j: int|
            0 <= i < n2.len() && 0 <= j < n2.len() && i != j implies n2[i] != n2[j] by {
            if i < n2.len() - 1 && j < n2.len() - 1 {
                assert(n2[i] == nodes[i] && n2[j] == nodes[j]);
            } else if i == n2.len() - 1 {
                assert(n2[j] == nodes[j] && nodes[j] != l);
            } else {
                assert(n2[i] == nodes[i] && nodes[i] != l);
            }
        }
    }
}

/// An undirected multigraph whose nodes carry byte-string identifiers.
/// Node handles are `usize` indices, assigned densely in insertion order;
/// edges may be parallel and are never removed.
pub struct ReviewGraph {
    store: Store,
    labels: Vec<Vec<u8>>,
}

impl ReviewGraph {
    /// The node labels, in handle order.
    pub closed spec fn nodes(self) -> Seq<Seq<u8>> {
        store_nodes(self.store)
    }

    /// The edges, in insertion order, as pairs of node handles.
    pub closed spec fn edges(self) -> Seq<(int, int)> {
        store_edges(self.store)
    }

    /// Well-formed: the label mirror matches the store's node weights, and
    /// every edge endpoint is a valid handle.
    pub closed spec fn wf(self) -> bool {
        self.labels@.map_values(|l: Vec<u8>| l@) == store_nodes(self.store) && edges_wf(
            store_edges(self.store),
            store_nodes(self.store).len() as int,
        )
    }

    /// An empty graph.
    pub fn new() -> (g: Self)
        ensures
            g.wf(),
            g.nodes() == Seq::<Seq<u8>>::empty(),
            g.edges() == Seq::<(int, int)>::empty(),
    {
        let g = ReviewGraph { store: store_new(), labels: Vec::new() };
        proof {
            assert(g.labels@.map_values(|l: Vec<u8>| l@) =~= store_nodes(g.store));
        }
        g
    }

    pub fn node_count(&self) -> (n: usize)
        requires
            self.wf(),
        ensures
            n == self.nodes().len(),
    {
        self.labels.len()
    }

    pub fn edge_count(&self) -> (n: usize)
        ensures
            n == self.edges().len(),
    {
        store_edge_count(&self.store)
    }

    /// Append a node with the given label, returning its handle. No
    /// deduplication: a repeated label makes a second node (`resolve` is
    /// the deduplicating entry point).
    pub fn add_node(&mut self, label: Vec<u8>) -> (i: usize)
        requires
            old(self).wf(),
            old(self).nodes().len() < 0xFFFF_FFFF,
        ensures
            final(self).wf(),
            final(self).nodes() == old(self).nodes().push(label@),
            final(self).edges() == old(self).edges(),
            i == old(self).nodes().len(),
    {
        let copy = sub_bytes(&label, 0, label.len());
        proof {
            assert(copy@ =~= label@);
        }
        let i = store_add_node(&mut self.store, label);
        self.labels.push(copy);
        proof {
            assert(self.labels@.map_values(|l: Vec<u8>| l@) =~= old(self).labels@.map_values(
                |l: Vec<u8>| l@,
            ).push(copy@));
        }
        i
    }

    /// Add one undirected edge between two existing nodes.
    pub fn add_edge(&mut self, a: usize, b: usize)
        requires
            old(self).wf(),
            a < old(self).nodes().len(),
            b < old(self).nodes().len(),
            old(self).edges().len() < 0xFFFF_FFFF,
        ensures
            final(self).wf(),
            final(self).nodes() == old(self).nodes(),
            final(self).edges() == old(self).edges().push((a as int, b as int)),
    {
        store_add_edge(&mut self.store, a, b);
        proof {
            let es = self.edges();
            assert forall|k: int| 0 <= k < es.len() implies 0 <= (#[trigger] es[k]).0
                < self.nodes().len() && 0 <= es[k].1 < self.nodes().len() by {
                if k < es.len() - 1 {
                    assert(es[k] == old(self).edges()[k]);
                }
            }
        }
    }

    /// The label a handle stands for.
    pub fn label_of(&self, i: usize) -> (l: &Vec<u8>)
        requires
            self.wf(),
            i < self.nodes().len(),
        ensures
            l@ == self.nodes()[i as int],
    {
        &self.labels[i]
    }

    /// The handle for `label`: the node already holding it, if any, else a
    /// fresh node appended for it.
    pub fn resolve(&mut self, label: Vec<u8>) -> (i: usize)
        requires
            old(self).wf(),
            old(self).nodes().len() < 0xFFFF_FFFF,
        ensures
            final(self).wf(),
            final(self).nodes() == resolve_spec(old(self).nodes(), label@).0,
            i == resolve_spec(old(self).nodes(), label@).1,
            final(self).edges() == old(self).edges(),
            i < final(self).nodes().len(),
    {
        let n = self.labels.len();
        let mut j: usize = 0;
        while j < n
            invariant
                *self == *old(self),
                self.wf(),
                n == self.nodes().len(),
                j <= n,
                forall|k: int| 0 <= k < j ==> self.nodes()[k] != label@,
            decreases n - j,
        {
            if bytes_eq(&self.labels[j], &label) {
                proof {
                    lemma_index_of_label_found(self.nodes(), label@, j as int);
                }
                return j;
            }
            j = j + 1;
        }
        proof {
            lemma_index_of_label_none(self.nodes(), label@);
        }
        self.add_node(label)
    }

    /// Record one review association: resolve both identifiers (inserting
    /// each only if new) and add one edge between them.
    pub fn add_review(&mut self, user: Vec<u8>, product: Vec<u8>)
        requires
            old(self).wf(),
            old(self).nodes().len() + 2 <= 0xFFFF_FFFF,
            old(self).edges().len() < 0xFFFF_FFFF,
        ensures
            final(self).wf(),
            final(self).nodes() == resolve_spec(
                resolve_spec(old(self).nodes(), user@).0,
                product@,
            ).0,
            final(self).edges() == old(self).edges().push(
                (
                    resolve_spec(old(self).nodes(), user@).1,
                    resolve_spec(resolve_spec(old(self).nodes(), user@).0, product@).1,
                ),
            ),
    {
        let ui = self.resolve(user);
        let pi = self.resolve(product);
        self.add_edge(ui, pi);
    }

    /// The neighbors of `a`: one entry per incident edge, carrying the
    /// opposite endpoint (a self-loop appears once). The length is `a`'s
    /// degree; the order is the store's enumeration order.
    pub fn neighbors(&self, a: usize) -> (r: Vec<usize>)
        requires
            self.wf(),
            a < self.nodes().len(),
        ensures
            r@.map_values(|x: usize| x as int).to_multiset() == incident_ms(
                self.edges(),
                a as int,
            ),
            forall|i: int| 0 <= i < r@.len() ==> (#[trigger] r@[i]) < self.nodes().len(),
    {
        let r = store_neighbors(&self.store, a);
        proof {
            let m = r@.map_values(|x: usize| x as int);
            m.to_multiset_ensures();
            assert forall|i: int| 0 <= i < r@.len() implies (#[trigger] r@[i])
                < self.nodes().len() by {
                assert(m[i] == r@[i] as int);
                assert(m.contains(m[i]));
                assert(m.to_multiset().contains(m[i]));
                lemma_incident_in_range(
                    self.edges(),
                    self.nodes().len() as int,
                    a as int,
                    m[i],
                );
            }
        }
        r
    }
}

} // verus!
