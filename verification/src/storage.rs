//! Trusted bindings to petgraph, the crate that stores the graph.
//!
//! The graph itself is `petgraph::graph::Graph` with undirected edges,
//! byte-string node weights and petgraph's default `u32` indices. Verus
//! sees it as an opaque value whose contents are named by the two
//! uninterpreted functions `store_nodes` and `store_edges`; each wrapper
//! below states, over those names, what the petgraph call it makes does.

use vstd::prelude::*;
use crate::model::incident_ms;

verus! {

/// The undirected review graph as petgraph stores it.
pub type Store = petgraph::graph::Graph<Vec<u8>, (), petgraph::Undirected, u32>;

#[verifier::external_type_specification]
#[verifier::external_body]
#[verifier::reject_recursive_types(N)]
#[verifier::reject_recursive_types(E)]
#[verifier::reject_recursive_types(Ty)]
#[verifier::reject_recursive_types(Ix)]
pub struct ExGraph<N, E, Ty, Ix>(petgraph::graph::Graph<N, E, Ty, Ix>);

#[verifier::external_type_specification]
#[verifier::external_body]
pub struct ExUndirected(petgraph::Undirected);

/// The node weights of the store, in index order.
pub uninterp spec fn store_nodes(g: Store) -> Seq<Seq<u8>>;

/// The edges of the store, in insertion order, as pairs of node indices.
pub uninterp spec fn store_edges(g: Store) -> Seq<(int, int)>;

/// Relies on petgraph's `Graph::new_undirected`: a graph with no nodes and
/// no edges.
#[verifier::external_body]
pub(crate) fn store_new() -> (g: Store)
    ensures
        store_nodes(g) == Seq::<Seq<u8>>::empty(),
        store_edges(g) == Seq::<(int, int)>::empty(),
{
    petgraph::graph::Graph::new_undirected()
}

/// Relies on petgraph's `Graph::add_node`: appends one node and returns its
/// index, which equals the former node count; indices are stable because
/// this crate never removes nodes. The bound keeps `add_node` away from the
/// `u32` index limit at which it panics.
#[verifier::external_body]
pub(crate) fn store_add_node(g: &mut Store, label: Vec<u8>) -> (i: usize)
    requires
        store_nodes(*old(g)).len() < 0xFFFF_FFFF,
    ensures
        store_nodes(*final(g)) == store_nodes(*old(g)).push(label@),
        store_edges(*final(g)) == store_edges(*old(g)),
        i == store_nodes(*old(g)).len(),
{
    g.add_node(label).index()
}

/// Relies on petgraph's `Graph::add_edge`: appends one undirected edge
/// between two existing nodes (parallel edges allowed). The bounds keep it
/// away from the panics on a missing endpoint or the `u32` edge limit.
#[verifier::external_body]
pub(crate) fn store_add_edge(g: &mut Store, a: usize, b: usize)
    requires
        a < store_nodes(*old(g)).len(),
        b < store_nodes(*old(g)).len(),
        store_edges(*old(g)).len() < 0xFFFF_FFFF,
    ensures
        store_nodes(*final(g)) == store_nodes(*old(g)),
        store_edges(*final(g)) == store_edges(*old(g)).push((a as int, b as int)),
{
    g.add_edge(
        petgraph::graph::NodeIndex::new(a),
        petgraph::graph::NodeIndex::new(b),
        (),
    );
}

/// Relies on petgraph's `Graph::edge_count`: the number of edges.
#[verifier::external_body]
pub(crate) fn store_edge_count(g: &Store) -> (n: usize)
    ensures
        n == store_edges(*g).len(),
{
    g.edge_count()
}

/// Relies on petgraph's `Graph::neighbors` on an undirected graph: one
/// entry per edge incident to `a`, carrying the opposite endpoint (so a
/// self-loop yields `a` exactly once). The order petgraph walks the
/// adjacency list in is not relied on: only the multiset is stated.
#[verifier::external_body]
pub(crate) fn store_neighbors(g: &Store, a: usize) -> (r: Vec<usize>)
    requires
        a < store_nodes(*g).len(),
    ensures
        r@.map_values(|x: usize| x as int).to_multiset() == incident_ms(store_edges(*g), a as int),
{
    g.neighbors(petgraph::graph::NodeIndex::new(a)).map(|n| n.index()).collect()
}

} // verus!
