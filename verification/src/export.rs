//! Export of the graph's static shape for host-side visualization.

use vstd::prelude::*;

use crate::topo::{MxlEdge, MxlGraph, MxlNodeId, MxlNodeType};

use crate::ctx::find_port;

verus! {

/// The exported description of one node.
#[derive(Debug)]
pub struct NodeExport {
    pub node_id: MxlNodeId,
    pub node_type: MxlNodeType,
    pub node_operation: String,
    pub node_label: Option<String>,
    pub input_type: String,
    pub output_type: String,
}

/// The exported description of a graph: its edge set and one entry per node.
#[derive(Debug)]
pub struct GraphExport {
    pub edges: Vec<MxlEdge>,
    pub nodes: Vec<NodeExport>,
}

/// Copies an optional string, preserving its text.
fn clone_opt_string(s: &Option<String>) -> (r: Option<String>)
    ensures
        match (r, s) {
            (Some(a), Some(b)) => a@ == b@,
            (None, None) => true,
            _ => false,
        },
{
    match s {
        Some(v) => Some(v.clone()),
        None => None,
    }
}

/// Serializes the graph's static shape: every edge, and per node its id,
/// kind, operation, optional label, and input and output type names.
#[verifier::loop_isolation(false)]
pub fn export_graph(g: &MxlGraph) -> (r: GraphExport)
    requires
        g.wf(),
    ensures
        r.edges@ == g.spec_edges(),
        r.nodes@.len() == g.node_count(),
        forall|i: int|
            0 <= i < r.nodes@.len() ==> {
                let ne = #[trigger] r.nodes@[i];
                let md = g.topo.metadata@[i];
                &&& ne.node_id == i
                &&& ne.node_type == md.node_type
                &&& ne.node_operation@ == md.operation@
                &&& match (ne.node_label, md.label) {
                    (Some(a), Some(b)) => a@ == b@,
                    (None, None) => true,
                    _ => false,
                }
                &&& ne.input_type@ == md.input_type@
                &&& ne.output_type@ == md.output_type@
            },
{
    let mut edges: Vec<MxlEdge> = Vec::new();
    let ne = g.topo.edges.len();
    let mut i: usize = 0;
    while i < ne
        invariant
            i <= ne,
            edges@ == g.spec_edges().take(i as int),
        decreases ne - i,
    {
        edges.push(g.topo.edges[i]);
        proof {
            assert(edges@ =~= g.spec_edges().take(i + 1));
        }
        i = i + 1;
    }
    proof {
        assert(g.spec_edges().take(ne as int) =~= g.spec_edges());
    }
    let mut nodes: Vec<NodeExport> = Vec::new();
    let nn = g.topo.metadata.len();
    let mut j: usize = 0;
    while j < nn
        invariant
            j <= nn,
            nodes@.len() == j,
            forall|k: int|
                0 <= k < j ==> {
                    let ne2 = #[trigger] nodes@[k];
                    let md = g.topo.metadata@[k];
                    &&& ne2.node_id == k
                    &&& ne2.node_type == md.node_type
                    &&& ne2.node_operation@ == md.operation@
                    &&& match (ne2.node_label, md.label) {
                        (Some(a), Some(b)) => a@ == b@,
                        (None, None) => true,
                        _ => false,
                    }
                    &&& ne2.input_type@ == md.input_type@
                    &&& ne2.output_type@ == md.output_type@
                },
        decreases nn - j,
    {
        let md = &g.topo.metadata[j];
        let node_type = match md.node_type {
            MxlNodeType::Source => MxlNodeType::Source,
            MxlNodeType::Transform => MxlNodeType::Transform,
            MxlNodeType::Sink => MxlNodeType::Sink,
            MxlNodeType::Join => MxlNodeType::Join,
        };
        nodes.push(
            NodeExport {
                node_id: j as u32,
                node_type,
                node_operation: md.operation.clone(),
                node_label: clone_opt_string(&md.label),
                input_type: md.input_type.clone(),
                output_type: md.output_type.clone(),
            },
        );
        j = j + 1;
    }
    GraphExport { edges, nodes }
}


/// Whether the grouped table has an entry for the given port.
pub open spec fn has_port_entry(r: Seq<(u32, Vec<MxlEdge>)>, p: u32) -> bool {
    exists|a: int| 0 <= a < r.len() && (#[trigger] r[a]).0 == p
}

/// The edges of `es` with the given destination port, in table order.
pub open spec fn edges_with_dest_port(es: Seq<MxlEdge>, p: u32) -> Seq<MxlEdge>
    decreases es.len(),
{
    if es.len() == 0 {
        Seq::empty()
    } else if es[0].dest_port == p {
        seq![es[0]] + edges_with_dest_port(es.skip(1), p)
    } else {
        edges_with_dest_port(es.skip(1), p)
    }
}

proof fn lemma_ewdp_push(es: Seq<MxlEdge>, p: u32, e: MxlEdge)
    ensures
        edges_with_dest_port(es.push(e), p) == if e.dest_port == p {
            edges_with_dest_port(es, p).push(e)
        } else {
            edges_with_dest_port(es, p)
        },
    decreases es.len(),
{
    let whole = es.push(e);
    if es.len() == 0 {
        assert(whole[0] == e);
        let s1 = whole.skip(1);
        assert(s1 =~= Seq::<MxlEdge>::empty());
        assert(edges_with_dest_port(s1, p) =~= Seq::<MxlEdge>::empty());
        if e.dest_port == p {
            assert(edges_with_dest_port(whole, p) == seq![e] + edges_with_dest_port(s1, p));
            assert(seq![e] + edges_with_dest_port(s1, p) =~= edges_with_dest_port(es, p).push(e));
        } else {
            assert(edges_with_dest_port(whole, p) == edges_with_dest_port(s1, p));
            assert(edges_with_dest_port(s1, p) =~= edges_with_dest_port(es, p));
        }
    } else {
        assert(whole[0] == es[0]);
        assert(whole.skip(1) =~= es.skip(1).push(e));
        lemma_ewdp_push(es.skip(1), p, e);
        if es[0].dest_port == p {
            if e.dest_port == p {
                assert(edges_with_dest_port(whole, p) =~= edges_with_dest_port(es, p).push(e));
            } else {
                assert(edges_with_dest_port(whole, p) =~= edges_with_dest_port(es, p));
            }
        } else {
            if e.dest_port == p {
                assert(edges_with_dest_port(whole, p) =~= edges_with_dest_port(es, p).push(e));
            } else {
                assert(edges_with_dest_port(whole, p) =~= edges_with_dest_port(es, p));
            }
        }
    }
}

/// The index of the entry with the given port, if one exists.
fn find_entry(r: &Vec<(u32, Vec<MxlEdge>)>, p: u32) -> (res: Option<usize>)
    ensures
        match res {
            Some(a) => (a as int) < r@.len() && r@[a as int].0 == p,
            None => forall|b: int| 0 <= b < r@.len() ==> (#[trigger] r@[b]).0 != p,
        },
{
    let m = r.len();
    let mut a: usize = 0;
    while a < m
        invariant
            a <= m,
            m == r@.len(),
            forall|b: int| 0 <= b < a ==> (#[trigger] r@[b]).0 != p,
        decreases m - a,
    {
        if r[a].0 == p {
            return Some(a);
        }
        a = a + 1;
    }
    None
}

/// Groups the edges entering one node by destination port: one entry per
/// port that occurs, carrying that port's edges in table order. This is the
/// shape a driver needs to build a node's input ports for one tick.
#[verifier::loop_isolation(false)]
pub fn group_by_dest_port(edges: &Vec<MxlEdge>) -> (r: Vec<(u32, Vec<MxlEdge>)>)
    ensures
        forall|a: int, b: int| 0 <= a < b < r@.len() ==> (#[trigger] r@[a]).0 != (#[trigger] r@[b]).0,
        forall|a: int|
            0 <= a < r@.len() ==> (#[trigger] r@[a]).1@ == edges_with_dest_port(edges@, r@[a].0),
        forall|i: int|
            0 <= i < edges@.len() ==> has_port_entry(r@, (#[trigger] edges@[i]).dest_port),
{
    let mut r: Vec<(u32, Vec<MxlEdge>)> = Vec::new();
    let n = edges.len();
    let mut i: usize = 0;
    proof {
        assert(edges@.take(0) =~= Seq::<MxlEdge>::empty());
    }
    while i < n
        invariant
            i <= n,
            forall|a: int, b: int|
                0 <= a < b < r@.len() ==> (#[trigger] r@[a]).0 != (#[trigger] r@[b]).0,
            forall|a: int|
                0 <= a < r@.len() ==> (#[trigger] r@[a]).1@ == edges_with_dest_port(
                    edges@.take(i as int),
                    r@[a].0,
                ),
            forall|j: int|
                0 <= j < i ==> has_port_entry(r@, (#[trigger] edges@[j]).dest_port),
        decreases n - i,
    {
        let e = edges[i];
        let ghost r_entry = r@;
        let ghost pre = edges@.take(i as int);
        proof {
            assert(edges@.take(i + 1) =~= pre.push(e));
            assert forall|p: u32| true implies edges_with_dest_port(edges@.take(i + 1), p)
                == if e.dest_port == p {
                edges_with_dest_port(pre, p).push(e)
            } else {
                edges_with_dest_port(pre, p)
            } by {
                lemma_ewdp_push(pre, p, e);
            }
        }
        let hit = find_entry(&r, e.dest_port);
        if let Some(a) = hit {
            let ghost old_r = r@;
            let slot = &mut r[a];
            slot.1.push(e);
            proof {
                assert(r@[a as int].1@ =~= old_r[a as int].1@.push(e));
                assert forall|c: int| 0 <= c < r@.len() implies (#[trigger] r@[c]).1@
                    == edges_with_dest_port(edges@.take(i + 1), r@[c].0) by {
                    if c == a as int {
                    } else {
                        assert(r@[c] == old_r[c]);
                        assert(old_r[c].0 != e.dest_port || c == a as int) by {
                            if old_r[c].0 == e.dest_port && c != a as int {
                                assert(r@[a as int].0 == e.dest_port);
                                assert(false);
                            }
                        }
                    }
                }
                assert(r@[a as int].0 == e.dest_port);
            }
        } else {
            let ghost old_r = r@;
            let mut chs: Vec<MxlEdge> = Vec::new();
            chs.push(e);
            proof {
                assert(edges_with_dest_port(pre, e.dest_port) =~= Seq::<MxlEdge>::empty()) by {
                    if edges_with_dest_port(pre, e.dest_port).len() > 0 {
                        lemma_ewdp_sub(pre, e.dest_port, 0);
                        let j = choose|j: int|
                            0 <= j < pre.len() && pre[j] == edges_with_dest_port(
                                pre,
                                e.dest_port,
                            )[0] && (#[trigger] pre[j]).dest_port == e.dest_port;
                        assert(edges@[j] == pre[j]);
                        assert(has_port_entry(old_r, edges@[j].dest_port));
                        let b0 = choose|b0: int|
                            0 <= b0 < old_r.len() && (#[trigger] old_r[b0]).0 == edges@[
                                j
                            ].dest_port;
                        assert(false);
                    }
                }
                assert(chs@ =~= edges_with_dest_port(pre, e.dest_port).push(e));
            }
            r.push((e.dest_port, chs));
            proof {
                assert forall|c: int| 0 <= c < r@.len() implies (#[trigger] r@[c]).1@
                    == edges_with_dest_port(edges@.take(i + 1), r@[c].0) by {
                    if c < r@.len() - 1 {
                        assert(r@[c] == old_r[c]);
                        assert(r@[c].0 != e.dest_port);
                    } else {
                        assert(r@[c] == (e.dest_port, chs));
                    }
                }
                assert forall|x: int, y: int| 0 <= x < y < r@.len() implies (
                #[trigger] r@[x]).0 != (#[trigger] r@[y]).0 by {
                    if y == r@.len() - 1 {
                        assert(r@[x] == old_r[x]);
                        assert(r@[x].0 != e.dest_port);
                    } else {
                        assert(r@[x] == old_r[x] && r@[y] == old_r[y]);
                    }
                }
            }
        }
        proof {
            assert(has_port_entry(r@, e.dest_port)) by {
                match hit {
                    Some(a) => {
                        assert(r@[a as int].0 == e.dest_port);
                    }
                    None => {
                        assert(r@[r@.len() - 1].0 == e.dest_port);
                    }
                }
            }
            assert forall|b: int| 0 <= b < r_entry.len() implies (#[trigger] r@[b]).0
                == r_entry[b].0 by {}
            assert forall|j: int| 0 <= j <= i implies has_port_entry(
                r@,
                (#[trigger] edges@[j]).dest_port,
            ) by {
                if j < i {
                    let b0 = choose|b0: int|
                        0 <= b0 < r_entry.len() && (#[trigger] r_entry[b0]).0 == edges@[
                            j
                        ].dest_port;
                    assert(r@[b0].0 == edges@[j].dest_port);
                } else {
                    assert(edges@[j] == e);
                }
            }
        }
        i = i + 1;
    }
    proof {
        assert(edges@.take(n as int) =~= edges@);
    }
    r
}

/// Whether the grouped table has an entry for the given source port.
pub open spec fn has_src_port_entry(r: Seq<(u32, Vec<MxlEdge>)>, p: u32) -> bool {
    exists|a: int| 0 <= a < r.len() && (#[trigger] r[a]).0 == p
}

/// The edges of `es` with the given source port, in table order.
pub open spec fn edges_with_source_port(es: Seq<MxlEdge>, p: u32) -> Seq<MxlEdge>
    decreases es.len(),
{
    if es.len() == 0 {
        Seq::empty()
    } else if es[0].source_port == p {
        seq![es[0]] + edges_with_source_port(es.skip(1), p)
    } else {
        edges_with_source_port(es.skip(1), p)
    }
}

proof fn lemma_ewsp_push(es: Seq<MxlEdge>, p: u32, e: MxlEdge)
    ensures
        edges_with_source_port(es.push(e), p) == if e.source_port == p {
            edges_with_source_port(es, p).push(e)
        } else {
            edges_with_source_port(es, p)
        },
    decreases es.len(),
{
    let whole = es.push(e);
    if es.len() == 0 {
        assert(whole[0] == e);
        let s1 = whole.skip(1);
        assert(s1 =~= Seq::<MxlEdge>::empty());
        assert(edges_with_source_port(s1, p) =~= Seq::<MxlEdge>::empty());
        if e.source_port == p {
            assert(edges_with_source_port(whole, p) == seq![e] + edges_with_source_port(s1, p));
            assert(seq![e] + edges_with_source_port(s1, p) =~= edges_with_source_port(es, p).push(e));
        } else {
            assert(edges_with_source_port(whole, p) == edges_with_source_port(s1, p));
            assert(edges_with_source_port(s1, p) =~= edges_with_source_port(es, p));
        }
    } else {
        assert(whole[0] == es[0]);
        assert(whole.skip(1) =~= es.skip(1).push(e));
        lemma_ewsp_push(es.skip(1), p, e);
        if es[0].source_port == p {
            if e.source_port == p {
                assert(edges_with_source_port(whole, p) =~= edges_with_source_port(es, p).push(e));
            } else {
                assert(edges_with_source_port(whole, p) =~= edges_with_source_port(es, p));
            }
        } else {
            if e.source_port == p {
                assert(edges_with_source_port(whole, p) =~= edges_with_source_port(es, p).push(e));
            } else {
                assert(edges_with_source_port(whole, p) =~= edges_with_source_port(es, p));
            }
        }
    }
}

/// The index of the entry with the given port, if one exists.
fn find_src_entry(r: &Vec<(u32, Vec<MxlEdge>)>, p: u32) -> (res: Option<usize>)
    ensures
        match res {
            Some(a) => (a as int) < r@.len() && r@[a as int].0 == p,
            None => forall|b: int| 0 <= b < r@.len() ==> (#[trigger] r@[b]).0 != p,
        },
{
    let m = r.len();
    let mut a: usize = 0;
    while a < m
        invariant
            a <= m,
            m == r@.len(),
            forall|b: int| 0 <= b < a ==> (#[trigger] r@[b]).0 != p,
        decreases m - a,
    {
        if r[a].0 == p {
            return Some(a);
        }
        a = a + 1;
    }
    None
}

/// Groups the edges leaving one node by source port: one entry per port
/// that occurs, carrying that port's edges in table order. This is the shape
/// a driver needs to build a node's output ports for one tick.
#[verifier::loop_isolation(false)]
pub fn group_by_source_port(edges: &Vec<MxlEdge>) -> (r: Vec<(u32, Vec<MxlEdge>)>)
    ensures
        forall|a: int, b: int| 0 <= a < b < r@.len() ==> (#[trigger] r@[a]).0 != (#[trigger] r@[b]).0,
        forall|a: int|
            0 <= a < r@.len() ==> (#[trigger] r@[a]).1@ == edges_with_source_port(edges@, r@[a].0),
        forall|i: int|
            0 <= i < edges@.len() ==> has_src_port_entry(r@, (#[trigger] edges@[i]).source_port),
{
    let mut r: Vec<(u32, Vec<MxlEdge>)> = Vec::new();
    let n = edges.len();
    let mut i: usize = 0;
    proof {
        assert(edges@.take(0) =~= Seq::<MxlEdge>::empty());
    }
    while i < n
        invariant
            i <= n,
            forall|a: int, b: int|
                0 <= a < b < r@.len() ==> (#[trigger] r@[a]).0 != (#[trigger] r@[b]).0,
            forall|a: int|
                0 <= a < r@.len() ==> (#[trigger] r@[a]).1@ == edges_with_source_port(
                    edges@.take(i as int),
                    r@[a].0,
                ),
            forall|j: int|
                0 <= j < i ==> has_src_port_entry(r@, (#[trigger] edges@[j]).source_port),
        decreases n - i,
    {
        let e = edges[i];
        let ghost r_entry = r@;
        let ghost pre = edges@.take(i as int);
        proof {
            assert(edges@.take(i + 1) =~= pre.push(e));
            assert forall|p: u32| true implies edges_with_source_port(edges@.take(i + 1), p)
                == if e.source_port == p {
                edges_with_source_port(pre, p).push(e)
            } else {
                edges_with_source_port(pre, p)
            } by {
                lemma_ewsp_push(pre, p, e);
            }
        }
        let hit = find_src_entry(&r, e.source_port);
        if let Some(a) = hit {
            let ghost old_r = r@;
            let slot = &mut r[a];
            slot.1.push(e);
            proof {
                assert(r@[a as int].1@ =~= old_r[a as int].1@.push(e));
                assert forall|c: int| 0 <= c < r@.len() implies (#[trigger] r@[c]).1@
                    == edges_with_source_port(edges@.take(i + 1), r@[c].0) by {
                    if c == a as int {
                    } else {
                        assert(r@[c] == old_r[c]);
                        assert(old_r[c].0 != e.source_port || c == a as int) by {
                            if old_r[c].0 == e.source_port && c != a as int {
                                assert(r@[a as int].0 == e.source_port);
                                assert(false);
                            }
                        }
                    }
                }
                assert(r@[a as int].0 == e.source_port);
            }
        } else {
            let ghost old_r = r@;
            let mut chs: Vec<MxlEdge> = Vec::new();
            chs.push(e);
            proof {
                assert(edges_with_source_port(pre, e.source_port) =~= Seq::<MxlEdge>::empty()) by {
                    if edges_with_source_port(pre, e.source_port).len() > 0 {
                        lemma_ewsp_sub(pre, e.source_port, 0);
                        let j = choose|j: int|
                            0 <= j < pre.len() && pre[j] == edges_with_source_port(
                                pre,
                                e.source_port,
                            )[0] && (#[trigger] pre[j]).source_port == e.source_port;
                        assert(edges@[j] == pre[j]);
                        assert(has_src_port_entry(old_r, edges@[j].source_port));
                        let b0 = choose|b0: int|
                            0 <= b0 < old_r.len() && (#[trigger] old_r[b0]).0 == edges@[
                                j
                            ].source_port;
                        assert(false);
                    }
                }
                assert(chs@ =~= edges_with_source_port(pre, e.source_port).push(e));
            }
            r.push((e.source_port, chs));
            proof {
                assert forall|c: int| 0 <= c < r@.len() implies (#[trigger] r@[c]).1@
                    == edges_with_source_port(edges@.take(i + 1), r@[c].0) by {
                    if c < r@.len() - 1 {
                        assert(r@[c] == old_r[c]);
                        assert(r@[c].0 != e.source_port);
                    } else {
                        assert(r@[c] == (e.source_port, chs));
                    }
                }
                assert forall|x: int, y: int| 0 <= x < y < r@.len() implies (
                #[trigger] r@[x]).0 != (#[trigger] r@[y]).0 by {
                    if y == r@.len() - 1 {
                        assert(r@[x] == old_r[x]);
                        assert(r@[x].0 != e.source_port);
                    } else {
                        assert(r@[x] == old_r[x] && r@[y] == old_r[y]);
                    }
                }
            }
        }
        proof {
            assert(has_src_port_entry(r@, e.source_port)) by {
                match hit {
                    Some(a) => {
                        assert(r@[a as int].0 == e.source_port);
                    }
                    None => {
                        assert(r@[r@.len() - 1].0 == e.source_port);
                    }
                }
            }
            assert forall|b: int| 0 <= b < r_entry.len() implies (#[trigger] r@[b]).0
                == r_entry[b].0 by {}
            assert forall|j: int| 0 <= j <= i implies has_src_port_entry(
                r@,
                (#[trigger] edges@[j]).source_port,
            ) by {
                if j < i {
                    let b0 = choose|b0: int|
                        0 <= b0 < r_entry.len() && (#[trigger] r_entry[b0]).0 == edges@[
                            j
                        ].source_port;
                    assert(r@[b0].0 == edges@[j].source_port);
                } else {
                    assert(edges@[j] == e);
                }
            }
        }
        i = i + 1;
    }
    proof {
        assert(edges@.take(n as int) =~= edges@);
    }
    r
}

/// Every edge that `edges_with_dest_port` lists is an edge of the table.
proof fn lemma_ewdp_sub(es: Seq<MxlEdge>, p: u32, t: int)
    requires
        0 <= t < edges_with_dest_port(es, p).len(),
    ensures
        exists|j: int|
            0 <= j < es.len() && es[j] == edges_with_dest_port(es, p)[t] && (
            #[trigger] es[j]).dest_port == p,
    decreases es.len(),
{
    let rest = edges_with_dest_port(es.skip(1), p);
    if es.len() > 0 {
        if es[0].dest_port == p && t == 0 {
            assert(edges_with_dest_port(es, p)[0] == es[0]);
        } else {
            let t2 = if es[0].dest_port == p { t - 1 } else { t };
            lemma_ewdp_sub(es.skip(1), p, t2);
            let j = choose|j: int|
                0 <= j < es.skip(1).len() && es.skip(1)[j] == rest[t2] && (
                #[trigger] es.skip(1)[j]).dest_port == p;
            assert(es[j + 1] == rest[t2]);
            if es[0].dest_port == p {
                assert(edges_with_dest_port(es, p)[t] == rest[t - 1]);
            } else {
                assert(edges_with_dest_port(es, p)[t] == rest[t]);
            }
        }
    }
}


/// Every edge that `edges_with_source_port` lists is an edge of the table.
proof fn lemma_ewsp_sub(es: Seq<MxlEdge>, p: u32, t: int)
    requires
        0 <= t < edges_with_source_port(es, p).len(),
    ensures
        exists|j: int|
            0 <= j < es.len() && es[j] == edges_with_source_port(es, p)[t] && (
            #[trigger] es[j]).source_port == p,
    decreases es.len(),
{
    let rest = edges_with_source_port(es.skip(1), p);
    if es.len() > 0 {
        if es[0].source_port == p && t == 0 {
            assert(edges_with_source_port(es, p)[0] == es[0]);
        } else {
            let t2 = if es[0].source_port == p { t - 1 } else { t };
            lemma_ewsp_sub(es.skip(1), p, t2);
            let j = choose|j: int|
                0 <= j < es.skip(1).len() && es.skip(1)[j] == rest[t2] && (
                #[trigger] es.skip(1)[j]).source_port == p;
            assert(es[j + 1] == rest[t2]);
            if es[0].source_port == p {
                assert(edges_with_source_port(es, p)[t] == rest[t - 1]);
            } else {
                assert(edges_with_source_port(es, p)[t] == rest[t]);
            }
        }
    }
}

} // verus!
