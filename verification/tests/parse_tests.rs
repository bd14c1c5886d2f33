use review_graph::parse::build_graph_from_lines;

fn lines(raw: &[&str]) -> Vec<Vec<u8>> {
    raw.iter().map(|s| s.as_bytes().to_vec()).collect()
}

#[test]
fn complete_and_incomplete_records() {
    // one complete record, one missing the product field: the incomplete
    // record is silently dropped, resolving no identifiers, so only the
    // complete record's two nodes and one edge exist
    let input = lines(&[
        "review/userId: u1",
        "product/productId: p1",
        "",
        "review/userId: u2",
        "",
    ]);
    let g = build_graph_from_lines(&input);
    assert_eq!(g.node_count(), 2);
    assert_eq!(g.edge_count(), 1);
    assert_eq!(g.label_of(0).as_slice(), b"u1");
    assert_eq!(g.label_of(1).as_slice(), b"p1");
    let degrees = g.calculate_degree();
    assert_eq!(degrees, vec![1, 1]);
}

#[test]
fn reparse_gives_identical_graph() {
    let input = lines(&[
        "review/userId: u1",
        "product/productId: p1",
        "",
        "review/userId: u2",
        "product/productId: p1",
        "",
    ]);
    let g1 = build_graph_from_lines(&input);
    let g2 = build_graph_from_lines(&input);
    assert_eq!(g1.node_count(), g2.node_count());
    assert_eq!(g1.edge_count(), g2.edge_count());
    for i in 0..g1.node_count() {
        assert_eq!(g1.label_of(i), g2.label_of(i));
    }
    assert_eq!(g1.calculate_degree(), g2.calculate_degree());
}

#[test]
fn repeated_identifier_resolves_to_one_node() {
    // u1 appears in two records: one node, with one edge per record
    let input = lines(&[
        "review/userId: u1",
        "product/productId: p1",
        "",
        "review/userId: u1",
        "product/productId: p2",
        "",
    ]);
    let g = build_graph_from_lines(&input);
    assert_eq!(g.node_count(), 3);
    assert_eq!(g.edge_count(), 2);
    let degrees = g.calculate_degree();
    assert_eq!(degrees[0], 2);
    assert_eq!(degrees[1], 1);
    assert_eq!(degrees[2], 1);
}

#[test]
fn repeated_record_adds_parallel_edge() {
    // no deduplication of repeated reviews: each record adds one edge
    let input = lines(&[
        "review/userId: u1",
        "product/productId: p1",
        "",
        "review/userId: u1",
        "product/productId: p1",
        "",
    ]);
    let g = build_graph_from_lines(&input);
    assert_eq!(g.node_count(), 2);
    assert_eq!(g.edge_count(), 2);
    assert_eq!(g.calculate_degree(), vec![2, 2]);
}

#[test]
fn unknown_keys_and_malformed_lines_are_ignored() {
    let input = lines(&[
        "review/score: 5.0",
        "no separator here",
        "review/userId: u1",
        "summary: tasty",
        "product/productId: p1",
        "",
    ]);
    let g = build_graph_from_lines(&input);
    assert_eq!(g.node_count(), 2);
    assert_eq!(g.edge_count(), 1);
}

#[test]
fn fields_are_trimmed() {
    let input = lines(&[
        "  review/userId :   u1  ",
        "\tproduct/productId:  p1\t",
        "   ",
    ]);
    let g = build_graph_from_lines(&input);
    assert_eq!(g.node_count(), 2);
    assert_eq!(g.edge_count(), 1);
    assert_eq!(g.label_of(0).as_slice(), b"u1");
    assert_eq!(g.label_of(1).as_slice(), b"p1");
}

#[test]
fn record_without_blank_terminator_is_dropped() {
    // a record is complete only when a blank line ends it
    let input = lines(&["review/userId: u1", "product/productId: p1"]);
    let g = build_graph_from_lines(&input);
    assert_eq!(g.node_count(), 0);
    assert_eq!(g.edge_count(), 0);
}

#[test]
fn empty_input_gives_empty_graph() {
    let input: Vec<Vec<u8>> = Vec::new();
    let g = build_graph_from_lines(&input);
    assert_eq!(g.node_count(), 0);
    assert_eq!(g.edge_count(), 0);
}
