//! Tests of the graph topology, the builder, and export.

use mixlayer::{
    format_node_type, vec_source, DebugSink, MxlGraph, MxlNodeType, UppercaseXform,
};

#[test]
fn insert_assigns_dense_ids() {
    let mut g = MxlGraph::new();
    let (src, _node) = g.source(vec_source(vec!["a".to_owned()]));
    assert_eq!(src.id(), 0);
    let (mapped, _op) = src.map(&mut g, |s: String| s.to_uppercase());
    assert_eq!(mapped.id(), 1);
    let (sunk, _sink) = mapped.sink(&mut g, DebugSink::<String>::new());
    assert_eq!(sunk.id(), 2);
    assert_eq!(g.node_ids(), vec![0, 1, 2]);

    let edges = g.edges();
    assert_eq!(edges.len(), 2);
    assert_eq!(edges[0].source_node_id, 0);
    assert_eq!(edges[0].dest_node_id, 1);
    assert_eq!(edges[1].source_node_id, 1);
    assert_eq!(edges[1].dest_node_id, 2);
}

#[test]
fn insert_edge_is_idempotent() {
    let mut g = MxlGraph::new();
    let (src, _n) = g.source(vec_source(vec![1u32]));
    let (t, _op) = g.transform(mixlayer::transform::map::map(|x: u32| x));
    src.connect(&mut g, &t);
    src.connect(&mut g, &t);
    assert_eq!(g.edges().len(), 1);
}

#[test]
fn sort_from_sources_reaches_chain() {
    let mut g = MxlGraph::new();
    let (src, _n) = g.source(vec_source(vec![1u32, 2]));
    let (m1, _o1) = src.map(&mut g, |x: u32| x);
    let (_m2, _o2) = m1.map(&mut g, |x: u32| x);
    let order = g.sort_from_sources();
    assert_eq!(order.len(), 3);
    assert_eq!(order[0], src.id());
    let mut sorted = order.clone();
    sorted.sort();
    assert_eq!(sorted, vec![0, 1, 2]);
}

#[test]
fn metadata_and_labels() {
    let mut g = MxlGraph::new();
    let (src, _n) = g.source(vec_source(vec!["x".to_owned()]));
    let (up, _op) = src.transform(&mut g, UppercaseXform);
    let up = up.label(&mut g, "shout");
    let md = g.node_metadata(up.id()).unwrap();
    assert!(matches!(md.node_type, MxlNodeType::Transform));
    assert_eq!(md.operation, "UppercaseXform");
    assert_eq!(md.label.as_deref(), Some("shout"));
    assert_eq!(md.input_type, "String");
    assert_eq!(md.output_type, "String");
    assert_eq!(g.node_operation(up.id()).unwrap(), "UppercaseXform");
    assert!(g.node_metadata(99).is_none());
}

#[test]
fn format_node_type_strips_path_and_generics() {
    assert_eq!(format_node_type("alloc::string::String"), "String");
    assert_eq!(format_node_type("alloc::vec::Vec<u32>"), "Vec");
    assert_eq!(format_node_type("u32"), "u32");
    assert_eq!(format_node_type("a::b::C<d::E>"), "C");
    assert_eq!(format_node_type("()"), "()");
}

#[test]
fn edges_group_by_port() {
    let mut g = MxlGraph::new();
    let (left, _l) = g.source(vec_source(vec![mixlayer::KV("k".to_owned(), 1u32)]));
    let (right, _r) = g.source(vec_source(vec![mixlayer::KV("k".to_owned(), 2u32)]));
    let (join, _j) = g.left_join(&left, &right);
    let upstream = g.upstream_edges(&join.id());
    let grouped = mixlayer::export::group_by_dest_port(&upstream);
    assert_eq!(grouped.len(), 2);
    for (port, edges) in &grouped {
        assert_eq!(edges.len(), 1);
        assert_eq!(edges[0].dest_port, *port);
        assert_eq!(edges[0].dest_node_id, join.id());
    }
    let down_left = g.downstream_edges(&left.id());
    let grouped_out = mixlayer::export::group_by_source_port(&down_left);
    assert_eq!(grouped_out.len(), 1);
    assert_eq!(grouped_out[0].0, 0);
}

#[test]
fn export_mirrors_topology() {
    let mut g = MxlGraph::new();
    let (src, _n) = g.source(vec_source(vec![5u32]));
    let (snk, _s) = src.sink(&mut g, DebugSink::<u32>::new());
    let export = mixlayer::export::export_graph(&g);
    assert_eq!(export.nodes.len(), 2);
    assert_eq!(export.edges.len(), 1);
    assert_eq!(export.nodes[0].node_id, 0);
    assert!(matches!(export.nodes[0].node_type, MxlNodeType::Source));
    assert!(matches!(export.nodes[1].node_type, MxlNodeType::Sink));
    assert_eq!(export.edges[0].source_node_id, src.id());
    assert_eq!(export.edges[0].dest_node_id, snk.id());
}
