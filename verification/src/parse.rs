//! The streaming record parser and graph builder.
//!
//! Records are separated by blank lines. Within a record, a field line has
//! the form `key: value` (the first `": "` splits key from value, both
//! trimmed). Only the user and product keys matter; all other keys are
//! ignored. On a blank line, a record with both fields present resolves
//! each identifier to a node (inserting it only if new) and adds one edge;
//! an incomplete record is silently dropped. Both slots are cleared either
//! way — the deliberate permissive-parsing policy.

use vstd::prelude::*;
use crate::bytes::{
    bytes_eq, find_sep, find_sep_range, product_key, product_key_vec, sub_bytes, trim_range,
    trimmed, user_key, user_key_vec,
};
use crate::graph::{lemma_resolve_unique, resolve_spec, ReviewGraph};

verus! {

/// The parser's state between lines: the two pending field slots and the
/// graph model built so far.
pub ghost struct ParseState {
    pub user: Option<Seq<u8>>,
    pub product: Option<Seq<u8>>,
    pub nodes: Seq<Seq<u8>>,
    pub edges: Seq<(int, int)>,
}

pub open spec fn init_state() -> ParseState {
    ParseState { user: None, product: None, nodes: Seq::empty(), edges: Seq::empty() }
}

/// What a blank line does: if both fields were seen, resolve both
/// identifiers and add one edge; either way clear both slots.
pub open spec fn finish_record(st: ParseState) -> ParseState {
    if st.user is Some && st.product is Some {
        let (n1, ui) = resolve_spec(st.nodes, st.user->Some_0);
        let (n2, pi) = resolve_spec(n1, st.product->Some_0);
        ParseState { user: None, product: None, nodes: n2, edges: st.edges.push((ui, pi)) }
    } else {
        ParseState { user: None, product: None, nodes: st.nodes, edges: st.edges }
    }
}

/// What one input line does to the parser state.
pub open spec fn step_line(st: ParseState, line: Seq<u8>) -> ParseState {
    let t = trimmed(line);
    if t.len() == 0 {
        finish_record(st)
    } else {
        let si = find_sep(t);
        if si >= 0 {
            let key = trimmed(t.subrange(0, si));
            let value = trimmed(t.subrange(si + 2, t.len() as int));
            if key == user_key() {
                ParseState { user: Some(value), product: st.product, nodes: st.nodes, edges: st.edges }
            } else if key == product_key() {
                ParseState { user: st.user, product: Some(value), nodes: st.nodes, edges: st.edges }
            } else {
                st
            }
        } else {
            st
        }
    }
}

/// The parser state after the first `k` lines.
pub open spec fn parse_upto(lines: Seq<Seq<u8>>, k: int) -> ParseState
    decreases k,
{
    if k <= 0 {
        init_state()
    } else {
        step_line(parse_upto(lines, k - 1), lines[k - 1])
    }
}

/// The parser state after the whole input.
pub open spec fn parse_all(lines: Seq<Seq<u8>>) -> ParseState {
    parse_upto(lines, lines.len() as int)
}

/// The byte-sequence views of a vector of lines.
pub open spec fn line_views(lines: Seq<Vec<u8>>) -> Seq<Seq<u8>> {
    lines.map_values(|l: Vec<u8>| l@)
}

/// Each record adds at most two nodes and one edge.
pub proof fn lemma_parse_counts(lines: Seq<Seq<u8>>, k: int)
    requires
        0 <= k,
    ensures
        parse_upto(lines, k).nodes.len() <= 2 * k,
        parse_upto(lines, k).edges.len() <= k,
    decreases k,
{
    if k > 0 {
        lemma_parse_counts(lines, k - 1);
    }
}

/// Idempotent identifier resolution: however many records mention an
/// identifier, the parsed node list holds it at most once, so it always
/// resolves to the same single node handle.
pub proof fn lemma_parse_nodes_unique(lines: Seq<Seq<u8>>)
    ensures
        parse_all(lines).nodes.no_duplicates(),
{
    lemma_parse_upto_nodes_unique(lines, lines.len() as int);
}

pub proof fn lemma_parse_upto_nodes_unique(lines: Seq<Seq<u8>>, k: int)
    ensures
        parse_upto(lines, k).nodes.no_duplicates(),
    decreases k,
{
    if k <= 0 {
        assert(parse_upto(lines, k).nodes.no_duplicates());
    } else {
        lemma_parse_upto_nodes_unique(lines, k - 1);
        let st = parse_upto(lines, k - 1);
        if st.user is Some && st.product is Some {
            lemma_resolve_unique(st.nodes, st.user->Some_0);
            lemma_resolve_unique(resolve_spec(st.nodes, st.user->Some_0).0, st.product->Some_0);
        }
    }
}

/// Construction is deterministic: the parse of a line sequence is a
/// function of that sequence alone, so two graphs built from the same
/// input have the same node list and the same edge sequence.
pub proof fn lemma_build_deterministic(g1: ReviewGraph, g2: ReviewGraph, lines: Seq<Seq<u8>>)
    requires
        g1.nodes() == parse_all(lines).nodes,
        g1.edges() == parse_all(lines).edges,
        g2.nodes() == parse_all(lines).nodes,
        g2.edges() == parse_all(lines).edges,
    ensures
        g1.nodes() == g2.nodes(),
        g1.edges() == g2.edges(),
{
}

/// The view of a pending field slot.
pub open spec fn slot_view(o: Option<Vec<u8>>) -> Option<Seq<u8>> {
    match o {
        Option::None => None,
        Option::Some(v) => Some(v@),
    }
}

/// Build the review graph from the dataset's lines, one record at a time.
/// The resulting graph is exactly the parser model's: construction is
/// deterministic in the input, and re-parsing the same lines yields a
/// structurally identical graph.
pub fn build_graph_from_lines(lines: &Vec<Vec<u8>>) -> (g: ReviewGraph)
    requires
        lines@.len() <= 0x4000_0000,
    ensures
        g.wf(),
        g.nodes() == parse_all(line_views(lines@)).nodes,
        g.edges() == parse_all(line_views(lines@)).edges,
{
    let ghost lv = line_views(lines@);
    let mut g = ReviewGraph::new();
    let mut user: Option<Vec<u8>> = None;
    let mut product: Option<Vec<u8>> = None;
    let mut k: usize = 0;
    while k < lines.len()
        invariant
            k <= lines@.len() <= 0x4000_0000,
            lv == line_views(lines@),
            g.wf(),
            g.nodes() == parse_upto(lv, k as int).nodes,
            g.edges() == parse_upto(lv, k as int).edges,
            slot_view(user) == parse_upto(lv, k as int).user,
            slot_view(product) == parse_upto(lv, k as int).product,
        decreases lines@.len() - k,
    {
        let ghost st = parse_upto(lv, k as int);
        proof {
            lemma_parse_counts(lv, k as int);
            assert(lv[k as int] == lines@[k as int]@);
        }
        let line = &lines[k];
        let n = line.len();
        let (a, b) = trim_range(line, 0, n);
        proof {
            assert(line@.subrange(0, n as int) =~= line@);
        }
        if a == b {
            proof {
                assert(trimmed(lv[k as int]).len() == 0);
            }
            if user.is_some() && product.is_some() {
                let u = user.unwrap();
                let p = product.unwrap();
                g.add_review(u, p);
            }
            user = None;
            product = None;
        } else {
            proof {
                assert(trimmed(lv[k as int]).len() == b - a);
            }
            let ghost t = trimmed(lv[k as int]);
            match find_sep_range(line, a, b) {
                Some(i) => {
                    let (ka, kb) = trim_range(line, a, i);
                    let key = sub_bytes(line, ka, kb);
                    let (va, vb) = trim_range(line, i + 2, b);
                    let value = sub_bytes(line, va, vb);
                    proof {
                        assert(t == line@.subrange(a as int, b as int));
                        assert(t.subrange(0, i - a) =~= line@.subrange(a as int, i as int));
                        assert(t.subrange(i - a + 2, t.len() as int) =~= line@.subrange(
                            i + 2,
                            b as int,
                        ));
                        assert(key@ == trimmed(t.subrange(0, find_sep(t))));
                        assert(value@ == trimmed(t.subrange(find_sep(t) + 2, t.len() as int)));
                    }
                    let uk = user_key_vec();
                    if bytes_eq(&key, &uk) {
                        user = Some(value);
                    } else {
                        let pk = product_key_vec();
                        if bytes_eq(&key, &pk) {
                            product = Some(value);
                        }
                    }
                }
                None => {},
            }
        }
        k = k + 1;
    }
    g
}

} // verus!
