//! Review-network statistics over an undirected bipartite graph that
//! links users to the products they rated: node degree, degree
//! centrality, and a sampled estimate of the average shortest-path
//! distance, together with the permissive record parser that builds the
//! graph.
//!
//! Graph storage is petgraph's adjacency list; everything this crate
//! proves about it rests on the narrow trusted bindings in `storage`.

pub mod model;
pub mod storage;
pub mod bytes;
pub mod graph;
pub mod parse;
pub mod paths;
pub mod bfs;
pub mod metrics;
pub mod sampling;
pub mod distance;
