use review_graph::graph::ReviewGraph;

#[test]
fn test_calculate_degree() {
    let mut graph = ReviewGraph::new();
    let node1 = graph.add_node(b"User1".to_vec());
    let node2 = graph.add_node(b"Product1".to_vec());
    graph.add_edge(node1, node2);
    let degrees = graph.calculate_degree();
    assert_eq!(degrees[node1] as f64, 1.0);
    assert_eq!(degrees[node2] as f64, 1.0);
}

#[test]
fn test_calculate_degree_centrality() {
    let mut graph = ReviewGraph::new();
    let node1 = graph.add_node(b"User1".to_vec());
    let node2 = graph.add_node(b"Product1".to_vec());
    graph.add_edge(node1, node2);
    let centrality = graph.calculate_degree_centrality();
    assert!(centrality[node1].degree as f64 / centrality[node1].divisor as f64 > 0.0);
    assert!(centrality[node2].degree as f64 / centrality[node2].divisor as f64 > 0.0);
}

#[test]
fn test_bfs_distances() {
    let mut graph = ReviewGraph::new();
    let node1 = graph.add_node(b"User1".to_vec());
    let node2 = graph.add_node(b"Product1".to_vec());
    graph.add_edge(node1, node2);
    let distances = graph.bfs_distances(node1);
    assert_eq!(distances[node2], Some(1));
}

#[test]
fn two_node_graph_degree_and_centrality_are_one() {
    let mut graph = ReviewGraph::new();
    let a = graph.add_node(b"u".to_vec());
    let b = graph.add_node(b"p".to_vec());
    graph.add_edge(a, b);
    let degrees = graph.calculate_degree();
    let centrality = graph.calculate_degree_centrality();
    assert_eq!(degrees[a] as f64, 1.0);
    assert_eq!(degrees[b] as f64, 1.0);
    assert_eq!(centrality[a].degree as f64 / centrality[a].divisor as f64, 1.0);
    assert_eq!(centrality[b].degree as f64 / centrality[b].divisor as f64, 1.0);
}

#[test]
fn empty_graph_centrality_is_empty() {
    let graph = ReviewGraph::new();
    assert_eq!(graph.node_count(), 0);
    let degrees = graph.calculate_degree();
    let centrality = graph.calculate_degree_centrality();
    assert_eq!(degrees.len(), 0);
    assert_eq!(centrality.len(), 0);
}

#[test]
fn single_node_centrality_is_zero() {
    let mut graph = ReviewGraph::new();
    let a = graph.add_node(b"only".to_vec());
    let centrality = graph.calculate_degree_centrality();
    assert_eq!(centrality.len(), 1);
    assert_eq!(centrality[a].degree as f64 / centrality[a].divisor as f64, 0.0);
}

#[test]
fn degree_and_centrality_share_domain() {
    let mut graph = ReviewGraph::new();
    let a = graph.add_node(b"u1".to_vec());
    let b = graph.add_node(b"p1".to_vec());
    graph.add_node(b"lone".to_vec());
    graph.add_edge(a, b);
    let degrees = graph.calculate_degree();
    let centrality = graph.calculate_degree_centrality();
    assert_eq!(degrees.len(), centrality.len());
    assert_eq!(degrees.len(), graph.node_count());
}

#[test]
fn bfs_self_distance_is_zero() {
    let mut graph = ReviewGraph::new();
    let a = graph.add_node(b"a".to_vec());
    let b = graph.add_node(b"b".to_vec());
    let c = graph.add_node(b"c".to_vec());
    graph.add_edge(a, b);
    graph.add_edge(b, c);
    let distances = graph.bfs_distances(b);
    assert_eq!(distances[b], Some(0));
    assert_eq!(distances[a], Some(1));
    assert_eq!(distances[c], Some(1));
}

#[test]
fn bfs_unreachable_is_none() {
    let mut graph = ReviewGraph::new();
    let a = graph.add_node(b"a".to_vec());
    let b = graph.add_node(b"b".to_vec());
    let lone = graph.add_node(b"island".to_vec());
    graph.add_edge(a, b);
    let distances = graph.bfs_distances(a);
    assert_eq!(distances[lone], None);
}

#[test]
fn parallel_edges_count_in_degree() {
    let mut graph = ReviewGraph::new();
    let a = graph.add_node(b"u".to_vec());
    let b = graph.add_node(b"p".to_vec());
    graph.add_edge(a, b);
    graph.add_edge(a, b);
    let degrees = graph.calculate_degree();
    assert_eq!(degrees[a], 2);
    assert_eq!(degrees[b], 2);
    assert_eq!(graph.edge_count(), 2);
}

#[test]
fn exhaustive_sampling_gives_true_average() {
    // path a - b - c: nine ordered reachable pairs, distance sum
    // 3 + 2 + 3 = 8 over the three sources
    let mut graph = ReviewGraph::new();
    let a = graph.add_node(b"a".to_vec());
    let b = graph.add_node(b"b".to_vec());
    let c = graph.add_node(b"c".to_vec());
    graph.add_edge(a, b);
    graph.add_edge(b, c);
    let est = graph.calculate_average_distance(3);
    assert_eq!(est.pairs, 9);
    assert_eq!(est.total, 8);
    let larger = graph.calculate_average_distance(100);
    assert_eq!(larger.pairs, 9);
    assert_eq!(larger.total, 8);
}

#[test]
fn partial_sample_is_one_bfs_of_the_component() {
    // in the path a - b - c every single-source BFS reaches all three
    // nodes, so one sampled source always contributes three pairs and a
    // distance sum of 2 (from b) or 3 (from a or c)
    let mut graph = ReviewGraph::new();
    let a = graph.add_node(b"a".to_vec());
    let b = graph.add_node(b"b".to_vec());
    let c = graph.add_node(b"c".to_vec());
    graph.add_edge(a, b);
    graph.add_edge(b, c);
    let est = graph.calculate_average_distance(1);
    assert_eq!(est.pairs, 3);
    assert!(est.total == 2 || est.total == 3);
}

#[test]
fn zero_sample_gives_zero_pairs() {
    let mut graph = ReviewGraph::new();
    let a = graph.add_node(b"a".to_vec());
    let b = graph.add_node(b"b".to_vec());
    graph.add_edge(a, b);
    let est = graph.calculate_average_distance(0);
    assert_eq!(est.pairs, 0);
    assert_eq!(est.total, 0);
}

#[test]
fn empty_graph_estimate_is_zero() {
    let graph = ReviewGraph::new();
    let est = graph.calculate_average_distance(1000);
    assert_eq!(est.pairs, 0);
    assert_eq!(est.total, 0);
}

#[test]
fn labels_resolve_back_to_identifiers() {
    let mut graph = ReviewGraph::new();
    let a = graph.add_node(b"User1".to_vec());
    let b = graph.add_node(b"Product1".to_vec());
    assert_eq!(graph.label_of(a).as_slice(), b"User1");
    assert_eq!(graph.label_of(b).as_slice(), b"Product1");
}
