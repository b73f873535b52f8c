//! Graph topology: nodes, typed edges, metadata, and the ordering of nodes
//! from sources.
//!
//! Node identifiers are dense and assigned in insertion order from zero, so
//! nodes are stored positionally; the edge table is a set keyed by the whole
//! edge quadruple (inserting a duplicate is idempotent). The node objects
//! themselves are dynamically dispatched values that the driver owns; the
//! graph records their shape.

use vstd::prelude::*;

use crate::node::MxlNode;

verus! {

pub type MxlNodeId = u32;

/// A directed edge: source node and port to destination node and port.
#[derive(Debug, Clone, Copy, Hash, PartialEq, Eq, Structural)]
pub struct MxlEdge {
    pub source_node_id: MxlNodeId,
    pub source_port: u32,
    pub dest_node_id: MxlNodeId,
    pub dest_port: u32,
}

/// The kind of a node.
#[derive(Debug, Clone, Copy, PartialEq, Eq, Structural)]
pub enum MxlNodeType {
    Source,
    Transform,
    Sink,
    Join,
}

/// Static description of one node.
#[derive(Debug)]
pub struct VNodeMetadata {
    pub operation: String,
    pub label: Option<String>,
    pub node_type: MxlNodeType,
    pub input_type: String,
    pub output_type: String,
}

/// Whether some edge goes from node `a` to node `b`.
pub open spec fn has_edge(es: Seq<MxlEdge>, a: MxlNodeId, b: MxlNodeId) -> bool {
    exists|i: int|
        0 <= i < es.len() && (#[trigger] es[i]).source_node_id == a && es[i].dest_node_id == b
}

/// Whether `b` can be reached from `a` along at most `fuel` edges.
pub open spec fn reaches(es: Seq<MxlEdge>, a: MxlNodeId, b: MxlNodeId, fuel: nat) -> bool
    decreases fuel,
{
    a == b || (fuel > 0 && exists|c: MxlNodeId|
        #[trigger] has_edge(es, a, c) && reaches(es, c, b, (fuel - 1) as nat))
}

/// No edge closes a cycle: nothing reaches back to the source of any edge
/// from its destination.
pub open spec fn acyclic(es: Seq<MxlEdge>) -> bool {
    forall|i: int, fuel: nat|
        0 <= i < es.len() ==> !#[trigger] reaches(
            es,
            es[i].dest_node_id,
            (#[trigger] es[i]).source_node_id,
            fuel,
        )
}

/// The topology: per-node metadata (position is the node id), the edge set,
/// and the ids of the source nodes.
pub struct VGraphTopology {
    pub metadata: Vec<VNodeMetadata>,
    pub edges: Vec<MxlEdge>,
    pub source_ids: Vec<MxlNodeId>,
}

/// The graph: its topology. The erased node objects are owned by the driver,
/// which keys them by the dense node ids this graph assigns.
pub struct MxlGraph {
    pub topo: VGraphTopology,
}

impl MxlGraph {
    /// The number of nodes; node ids are exactly the positions below it.
    pub open spec fn node_count(&self) -> nat {
        self.topo.metadata@.len()
    }

    pub open spec fn spec_edges(&self) -> Seq<MxlEdge> {
        self.topo.edges@
    }

    pub open spec fn spec_sources(&self) -> Seq<MxlNodeId> {
        self.topo.source_ids@
    }

    /// The graph invariants: every edge's endpoints name existing nodes; no
    /// edge enters a source-kind node; the edge table holds no duplicates;
    /// the graph is acyclic; the recorded source ids name existing
    /// source-kind nodes, without duplicates. Node ids are dense and stable
    /// by construction: a node's id is its position in the metadata table.
    pub open spec fn wf(&self) -> bool {
        &&& self.node_count() <= u32::MAX
        &&& forall|i: int|
            0 <= i < self.spec_edges().len() ==> (#[trigger] self.spec_edges()[i]).source_node_id
                < self.node_count() && self.spec_edges()[i].dest_node_id < self.node_count()
        &&& forall|i: int|
            0 <= i < self.spec_edges().len() ==> self.topo.metadata@[(
            #[trigger] self.spec_edges()[i]).dest_node_id as int].node_type != MxlNodeType::Source
        &&& forall|i: int, j: int|
            0 <= i < j < self.spec_edges().len() ==> #[trigger] self.spec_edges()[i]
                != #[trigger] self.spec_edges()[j]
        &&& acyclic(self.spec_edges())
        &&& forall|i: int|
            0 <= i < self.spec_sources().len() ==> (#[trigger] self.spec_sources()[i])
                < self.node_count() && self.topo.metadata@[self.spec_sources()[i] as int].node_type
                == MxlNodeType::Source
        &&& forall|i: int, j: int|
            0 <= i < j < self.spec_sources().len() ==> #[trigger] self.spec_sources()[i]
                != #[trigger] self.spec_sources()[j]
    }

    pub fn new() -> (r: Self)
        ensures
            r.wf(),
            r.node_count() == 0,
            r.spec_edges() == Seq::<MxlEdge>::empty(),
            r.spec_sources() == Seq::<MxlNodeId>::empty(),
    {
        MxlGraph {
            topo: VGraphTopology { metadata: Vec::new(), edges: Vec::new(), source_ids: Vec::new() },
        }
    }

    /// All edges of the graph, in insertion order.
    pub fn edges(&self) -> (r: &Vec<MxlEdge>)
        ensures
            r@ == self.spec_edges(),
    {
        &self.topo.edges
    }

    /// All node ids, in insertion order.
    #[verifier::loop_isolation(false)]
    pub fn node_ids(&self) -> (r: Vec<MxlNodeId>)
        requires
            self.wf(),
        ensures
            r@.len() == self.node_count(),
            forall|i: int| 0 <= i < r@.len() ==> r@[i] == i,
    {
        let n = self.topo.metadata.len();
        let mut out: Vec<MxlNodeId> = Vec::new();
        let mut i: usize = 0;
        while i < n
            invariant
                i <= n,
                n == self.node_count(),
                out@.len() == i,
                forall|j: int| 0 <= j < i ==> out@[j] == j,
            decreases n - i,
        {
            out.push(i as u32);
            i = i + 1;
        }
        out
    }

    /// Whether a node id names an existing node.
    pub fn has_node(&self, node_id: MxlNodeId) -> (r: bool)
        ensures
            r == ((node_id as nat) < self.node_count()),
    {
        (node_id as usize) < self.topo.metadata.len()
    }

    pub fn node_metadata(&self, node_id: MxlNodeId) -> (r: Option<&VNodeMetadata>)
        ensures
            match r {
                Some(md) => (node_id as nat) < self.node_count() && md == &self.topo.metadata@[node_id as int],
                None => (node_id as nat) >= self.node_count(),
            },
    {
        if (node_id as usize) < self.topo.metadata.len() {
            Some(&self.topo.metadata[node_id as usize])
        } else {
            None
        }
    }

    /// The operation name recorded for a node.
    pub fn node_operation(&self, node_id: MxlNodeId) -> (r: Option<&str>)
        ensures
            match r {
                Some(op) => (node_id as nat) < self.node_count() && op@ == self.topo.metadata@[node_id as int].operation@,
                None => (node_id as nat) >= self.node_count(),
            },
    {
        if (node_id as usize) < self.topo.metadata.len() {
            Some(self.topo.metadata[node_id as usize].operation.as_str())
        } else {
            None
        }
    }

    /// Attaches a user label to a node; unknown ids are ignored.
    pub fn label(&mut self, node_id: MxlNodeId, label: String)
        ensures
            final(self).node_count() == old(self).node_count(),
            final(self).spec_edges() == old(self).spec_edges(),
            final(self).spec_sources() == old(self).spec_sources(),
            old(self).wf() ==> final(self).wf(),
            (node_id as nat) < old(self).node_count() ==> {
                &&& final(self).topo.metadata@[node_id as int].label == Some(label)
                &&& forall|j: int|
                    0 <= j < old(self).node_count() && j != node_id as int
                        ==> final(self).topo.metadata@[j] == old(self).topo.metadata@[j]
                &&& final(self).topo.metadata@[node_id as int].operation == old(
                    self,
                ).topo.metadata@[node_id as int].operation
                &&& final(self).topo.metadata@[node_id as int].node_type == old(
                    self,
                ).topo.metadata@[node_id as int].node_type
            },
            (node_id as nat) >= old(self).node_count() ==> final(self).topo.metadata@ == old(
                self,
            ).topo.metadata@,
    {
        if (node_id as usize) < self.topo.metadata.len() {
            let md = &mut self.topo.metadata[node_id as usize];
            md.label = Some(label);
        }
    }
}


/// A node with no outgoing edges reaches only itself.
proof fn lemma_no_exit(es: Seq<MxlEdge>, n: MxlNodeId, x: MxlNodeId, fuel: nat)
    requires
        forall|i: int| 0 <= i < es.len() ==> (#[trigger] es[i]).source_node_id != n,
        reaches(es, n, x, fuel),
    ensures
        x == n,
    decreases fuel,
{
    if n != x {
        let c = choose|c: MxlNodeId| #[trigger] has_edge(es, n, c) && reaches(es, c, x, (fuel - 1) as nat);
        assert(has_edge(es, n, c));
        let i = choose|i: int| 0 <= i < es.len() && (#[trigger] es[i]).source_node_id == n && es[i].dest_node_id == c;
        assert(false);
    }
}

/// A path between old nodes that avoids the new node uses only old edges,
/// when every appended edge ends at the new node and nothing leaves it.
proof fn lemma_reaches_shrink(
    es: Seq<MxlEdge>,
    es2: Seq<MxlEdge>,
    n: MxlNodeId,
    a: MxlNodeId,
    b: MxlNodeId,
    fuel: nat,
)
    requires
        es.is_prefix_of(es2),
        forall|i: int|
            es.len() <= i < es2.len() ==> (#[trigger] es2[i]).dest_node_id == n,
        forall|i: int| 0 <= i < es2.len() ==> (#[trigger] es2[i]).source_node_id != n,
        b != n,
        reaches(es2, a, b, fuel),
    ensures
        reaches(es, a, b, fuel),
    decreases fuel,
{
    if a != b {
        let c = choose|c: MxlNodeId| #[trigger] has_edge(es2, a, c) && reaches(es2, c, b, (fuel - 1) as nat);
        if c == n {
            lemma_no_exit(es2, n, b, (fuel - 1) as nat);
            assert(false);
        } else {
            let i = choose|i: int|
                0 <= i < es2.len() && (#[trigger] es2[i]).source_node_id == a && es2[i].dest_node_id == c;
            assert(0 <= i < es.len());
            assert(es[i] == es2[i]);
            assert(has_edge(es, a, c));
            lemma_reaches_shrink(es, es2, n, c, b, (fuel - 1) as nat);
        }
    }
}

/// Appending edges that all end at a fresh node (one nothing leaves)
/// preserves acyclicity.
proof fn lemma_acyclic_extend(es: Seq<MxlEdge>, es2: Seq<MxlEdge>, n: MxlNodeId)
    requires
        acyclic(es),
        es.is_prefix_of(es2),
        forall|i: int|
            es.len() <= i < es2.len() ==> (#[trigger] es2[i]).dest_node_id == n,
        forall|i: int| 0 <= i < es2.len() ==> (#[trigger] es2[i]).source_node_id != n,
    ensures
        acyclic(es2),
{
    assert forall|i: int, fuel: nat| 0 <= i < es2.len() implies !#[trigger] reaches(
        es2,
        es2[i].dest_node_id,
        (#[trigger] es2[i]).source_node_id,
        fuel,
    ) by {
        if reaches(es2, es2[i].dest_node_id, es2[i].source_node_id, fuel) {
            if es2[i].dest_node_id == n {
                lemma_no_exit(es2, n, es2[i].source_node_id, fuel);
                assert(false);
            } else {
                assert(i < es.len());
                assert(es2[i] == es[i]);
                lemma_reaches_shrink(
                    es,
                    es2,
                    n,
                    es2[i].dest_node_id,
                    es2[i].source_node_id,
                    fuel,
                );
                assert(false);
            }
        }
    }
}

/// Reachability composes across path concatenation.
proof fn lemma_reaches_trans(
    es: Seq<MxlEdge>,
    a: MxlNodeId,
    b: MxlNodeId,
    c: MxlNodeId,
    f1: nat,
    f2: nat,
)
    requires
        reaches(es, a, b, f1),
        reaches(es, b, c, f2),
    ensures
        reaches(es, a, c, (f1 + f2) as nat),
    decreases f1,
{
    if a != b {
        let m = choose|m: MxlNodeId| #[trigger] has_edge(es, a, m) && reaches(es, m, b, (f1 - 1) as nat);
        lemma_reaches_trans(es, m, b, c, (f1 - 1) as nat, f2);
    } else {
        lemma_reaches_mono(es, b, c, f2, (f1 + f2) as nat);
    }
}

/// Reachability is monotone in the fuel.
proof fn lemma_reaches_mono(es: Seq<MxlEdge>, a: MxlNodeId, b: MxlNodeId, f1: nat, f2: nat)
    requires
        reaches(es, a, b, f1),
        f1 <= f2,
    ensures
        reaches(es, a, b, f2),
    decreases f1,
{
    if a != b {
        let m = choose|m: MxlNodeId| #[trigger] has_edge(es, a, m) && reaches(es, m, b, (f1 - 1) as nat);
        lemma_reaches_mono(es, m, b, (f1 - 1) as nat, (f2 - 1) as nat);
    }
}

/// Any path after pushing one non-cycle-closing edge either existed before,
/// or passes through the new edge.
proof fn lemma_reaches_decompose(
    es: Seq<MxlEdge>,
    e: MxlEdge,
    a: MxlNodeId,
    b: MxlNodeId,
    fuel: nat,
)
    requires
        forall|f: nat| !reaches(es, e.dest_node_id, e.source_node_id, f),
        reaches(es.push(e), a, b, fuel),
    ensures
        reaches(es, a, b, fuel) || (reaches(es, a, e.source_node_id, fuel) && exists|f2: nat|
            reaches(es, e.dest_node_id, b, f2)),
    decreases fuel,
{
    let es2 = es.push(e);
    if a != b {
        let c = choose|c: MxlNodeId| #[trigger] has_edge(es2, a, c) && reaches(es2, c, b, (fuel - 1) as nat);
        lemma_reaches_decompose(es, e, c, b, (fuel - 1) as nat);
        let i = choose|i: int|
            0 <= i < es2.len() && (#[trigger] es2[i]).source_node_id == a && es2[i].dest_node_id == c;
        if i < es.len() {
            assert(has_edge(es, a, c));
            if reaches(es, c, b, (fuel - 1) as nat) {
                assert(reaches(es, a, b, fuel));
            } else {
                assert(reaches(es, a, e.source_node_id, fuel));
            }
        } else {
            assert(a == e.source_node_id && c == e.dest_node_id);
            if reaches(es, c, b, (fuel - 1) as nat) {
                assert(reaches(es, a, e.source_node_id, fuel));
                assert(reaches(es, e.dest_node_id, b, (fuel - 1) as nat));
            } else {
                assert(reaches(es, c, e.source_node_id, (fuel - 1) as nat));
                assert(false);
            }
        }
    }
}

/// Pushing an edge whose destination cannot reach back to its source keeps
/// the graph acyclic.
proof fn lemma_acyclic_push(es: Seq<MxlEdge>, e: MxlEdge)
    requires
        acyclic(es),
        forall|f: nat| !reaches(es, e.dest_node_id, e.source_node_id, f),
    ensures
        acyclic(es.push(e)),
{
    let es2 = es.push(e);
    assert forall|i: int, fuel: nat| 0 <= i < es2.len() implies !#[trigger] reaches(
        es2,
        es2[i].dest_node_id,
        (#[trigger] es2[i]).source_node_id,
        fuel,
    ) by {
        if reaches(es2, es2[i].dest_node_id, es2[i].source_node_id, fuel) {
            let e2 = es2[i];
            lemma_reaches_decompose(es, e, e2.dest_node_id, e2.source_node_id, fuel);
            if reaches(es, e2.dest_node_id, e2.source_node_id, fuel) {
                if i < es.len() {
                    assert(false);
                } else {
                    assert(e2 == e);
                    assert(false);
                }
            } else {
                assert(reaches(es, e2.dest_node_id, e.source_node_id, fuel));
                let f2 = choose|f2: nat| reaches(es, e.dest_node_id, e2.source_node_id, f2);
                if i < es.len() {
                    assert(has_edge(es, e2.source_node_id, e2.dest_node_id)) by {
                        assert(es[i] == e2);
                    }
                    assert(reaches(es, e2.dest_node_id, e2.dest_node_id, 0nat));
                    assert(reaches(es, e2.source_node_id, e2.dest_node_id, 1nat));
                    lemma_reaches_trans(
                        es,
                        e.dest_node_id,
                        e2.source_node_id,
                        e2.dest_node_id,
                        f2,
                        1nat,
                    );
                    lemma_reaches_trans(
                        es,
                        e.dest_node_id,
                        e2.dest_node_id,
                        e.source_node_id,
                        (f2 + 1) as nat,
                        fuel,
                    );
                    assert(false);
                } else {
                    assert(e2 == e);
                    assert(false);
                }
            }
        }
    }
}

impl MxlGraph {
    /// Whether the edge is already recorded.
    fn contains_edge(&self, edge: &MxlEdge) -> (r: bool)
        ensures
            r == self.spec_edges().contains(*edge),
    {
        let n = self.topo.edges.len();
        let mut i: usize = 0;
        while i < n
            invariant
                i <= n,
                n == self.spec_edges().len(),
                forall|j: int| 0 <= j < i ==> self.spec_edges()[j] != *edge,
            decreases n - i,
        {
            let e = &self.topo.edges[i];
            if e.source_node_id == edge.source_node_id && e.source_port == edge.source_port
                && e.dest_node_id == edge.dest_node_id && e.dest_port == edge.dest_port {
                assert(self.spec_edges()[i as int] == *edge);
                return true;
            }
            i = i + 1;
        }
        proof {
            if self.spec_edges().contains(*edge) {
                let j = choose|j: int|
                    0 <= j < self.spec_edges().len() && self.spec_edges()[j] == *edge;
                assert(false);
            }
        }
        false
    }

    /// Records an edge; a duplicate is idempotent. The caller must hand an
    /// edge between existing, non-source-kind-destination nodes that closes
    /// no cycle — the builder's typed handles only construct such edges, and
    /// cycles are a stated non-goal of the engine.
    pub fn insert_edge(&mut self, edge: MxlEdge)
        requires
            old(self).wf(),
            (edge.source_node_id as nat) < old(self).node_count(),
            (edge.dest_node_id as nat) < old(self).node_count(),
            old(self).topo.metadata@[edge.dest_node_id as int].node_type != MxlNodeType::Source,
            forall|f: nat|
                !reaches(old(self).spec_edges(), edge.dest_node_id, edge.source_node_id, f),
        ensures
            final(self).wf(),
            final(self).spec_edges() == if old(self).spec_edges().contains(edge) {
                old(self).spec_edges()
            } else {
                old(self).spec_edges().push(edge)
            },
            final(self).topo.metadata@ == old(self).topo.metadata@,
            final(self).spec_sources() == old(self).spec_sources(),
    {
        if !self.contains_edge(&edge) {
            proof {
                lemma_acyclic_push(self.spec_edges(), edge);
            }
            self.topo.edges.push(edge);
        }
    }
}


/// The edge that an upstream tuple `(upstream id, upstream port, dest port)`
/// records toward a destination node.
pub open spec fn tuple_edge(t: (MxlNodeId, u32, u32), dest: MxlNodeId) -> MxlEdge {
    MxlEdge {
        source_node_id: t.0,
        source_port: t.1,
        dest_node_id: dest,
        dest_port: t.2,
    }
}

/// Whether every upstream tuple's edge toward the destination is recorded.
pub open spec fn tuples_recorded(
    es: Seq<MxlEdge>,
    ups: Seq<(MxlNodeId, u32, u32)>,
    dest: MxlNodeId,
) -> bool {
    forall|k: int| 0 <= k < ups.len() ==> es.contains(tuple_edge(#[trigger] ups[k], dest))
}

/// Whether an edge is the record of one of the given upstream tuples toward
/// the given destination node.
pub open spec fn edge_from_tuples(
    e: MxlEdge,
    ups: Seq<(MxlNodeId, u32, u32)>,
    dest: MxlNodeId,
) -> bool {
    exists|k: int| 0 <= k < ups.len() && e == tuple_edge(#[trigger] ups[k], dest)
}

/// The edges of `es` whose destination is `id`, in table order.
pub open spec fn incoming(es: Seq<MxlEdge>, id: MxlNodeId) -> Seq<MxlEdge>
    decreases es.len(),
{
    if es.len() == 0 {
        Seq::empty()
    } else if es[0].dest_node_id == id {
        seq![es[0]] + incoming(es.skip(1), id)
    } else {
        incoming(es.skip(1), id)
    }
}

/// The edges of `es` whose source is `id`, in table order.
pub open spec fn outgoing(es: Seq<MxlEdge>, id: MxlNodeId) -> Seq<MxlEdge>
    decreases es.len(),
{
    if es.len() == 0 {
        Seq::empty()
    } else if es[0].source_node_id == id {
        seq![es[0]] + outgoing(es.skip(1), id)
    } else {
        outgoing(es.skip(1), id)
    }
}

impl MxlGraph {
    /// Registers a node: assigns it the next dense id, records its metadata,
    /// and records one edge per upstream tuple (duplicates are idempotent).
    /// The graph invariants are preserved — in particular the new edges all
    /// end at the fresh node, which nothing leaves, so no cycle can appear.
    #[verifier::loop_isolation(false)]
    pub fn insert<I: crate::codec::MxlData, O: crate::codec::MxlData, N: MxlNode>(
        &mut self,
        node: &N,
        upstream_ids: Option<&[(MxlNodeId, u32, u32)]>,
        label: Option<String>,
        node_type: MxlNodeType,
    ) -> (next_id: MxlNodeId)
        requires
            old(self).wf(),
            old(self).node_count() < u32::MAX,
            match upstream_ids {
                Some(ups) => node_type != MxlNodeType::Source && forall|k: int|
                    0 <= k < ups@.len() ==> ((#[trigger] ups@[k]).0 as nat) < old(
                        self,
                    ).node_count(),
                None => true,
            },
        ensures
            final(self).wf(),
            next_id as nat == old(self).node_count(),
            final(self).node_count() == old(self).node_count() + 1,
            forall|j: int|
                0 <= j < old(self).node_count() ==> final(self).topo.metadata@[j] == old(
                    self,
                ).topo.metadata@[j],
            final(self).topo.metadata@[next_id as int].node_type == node_type,
            final(self).spec_sources() == old(self).spec_sources(),
            old(self).spec_edges().is_prefix_of(final(self).spec_edges()),
            upstream_ids matches Some(ups) ==> tuples_recorded(
                final(self).spec_edges(),
                ups@,
                next_id,
            ),
            upstream_ids matches Some(ups) ==> forall|i: int|
                old(self).spec_edges().len() <= i < final(self).spec_edges().len()
                    ==> edge_from_tuples(#[trigger] final(self).spec_edges()[i], ups@, next_id),
            upstream_ids is None ==> final(self).spec_edges() == old(self).spec_edges(),
    {
        let next_id = self.topo.metadata.len() as u32;
        let label = match label {
            Some(l) => Some(l),
            None => node.default_label(),
        };
        let operation = node.operation();
        let metadata = VNodeMetadata {
            label,
            operation,
            node_type,
            input_type: I::type_label(),
            output_type: O::type_label(),
        };
        self.topo.metadata.push(metadata);
        proof {
            assert forall|i: int| 0 <= i < self.spec_edges().len() implies (
            #[trigger] self.spec_edges()[i]).source_node_id != next_id by {
                assert(self.spec_edges()[i].source_node_id < next_id);
            }
            assert(self.wf());
        }
        if let Some(upstream_ids) = upstream_ids {
            let n = upstream_ids.len();
            let mut k: usize = 0;
            while k < n
                invariant
                    k <= n,
                    self.wf(),
                    self.node_count() == old(self).node_count() + 1,
                    forall|j: int|
                        0 <= j < old(self).node_count() ==> self.topo.metadata@[j] == old(
                            self,
                        ).topo.metadata@[j],
                    self.topo.metadata@[next_id as int].node_type == node_type,
                    self.spec_sources() == old(self).spec_sources(),
                    old(self).spec_edges().is_prefix_of(self.spec_edges()),
                    forall|i: int|
                        0 <= i < self.spec_edges().len() ==> (
                        #[trigger] self.spec_edges()[i]).source_node_id != next_id,
                    forall|j: int|
                        0 <= j < k ==> self.spec_edges().contains(
                            tuple_edge(#[trigger] upstream_ids@[j], next_id),
                        ),
                    forall|i: int|
                        old(self).spec_edges().len() <= i < self.spec_edges().len()
                            ==> edge_from_tuples(
                            #[trigger] self.spec_edges()[i],
                            upstream_ids@,
                            next_id,
                        ),
                decreases n - k,
            {
                let (upstream_id, upstream_port, dest_port) = upstream_ids[k];
                let edge = MxlEdge {
                    dest_node_id: next_id,
                    dest_port,
                    source_node_id: upstream_id,
                    source_port: upstream_port,
                };
                proof {
                    assert(edge == tuple_edge(upstream_ids@[k as int], next_id));
                    assert forall|f: nat| !reaches(
                        self.spec_edges(),
                        edge.dest_node_id,
                        edge.source_node_id,
                        f,
                    ) by {
                        if reaches(self.spec_edges(), edge.dest_node_id, edge.source_node_id, f) {
                            lemma_no_exit(
                                self.spec_edges(),
                                next_id,
                                edge.source_node_id,
                                f,
                            );
                        }
                    }
                }
                let ghost pre = self.spec_edges();
                self.insert_edge(edge);
                proof {
                    if !pre.contains(edge) {
                        assert forall|j: int| 0 <= j <= k implies self.spec_edges().contains(
                            tuple_edge(#[trigger] upstream_ids@[j], next_id),
                        ) by {
                            if j < k {
                                let e2 = tuple_edge(upstream_ids@[j], next_id);
                                let i2 = choose|i2: int|
                                    0 <= i2 < pre.len() && pre[i2] == e2;
                                assert(self.spec_edges()[i2] == e2);
                            } else {
                                assert(self.spec_edges()[pre.len() as int] == edge);
                            }
                        }
                    } else {
                        assert(self.spec_edges().contains(
                            tuple_edge(upstream_ids@[k as int], next_id),
                        ));
                    }
                }
                k = k + 1;
            }
            proof {
                assert(tuples_recorded(self.spec_edges(), upstream_ids@, next_id));
            }
        }
        next_id
    }

    /// Records a node id as a source of the graph; marking twice is
    /// idempotent. The node must have been registered with source kind.
    #[verifier::loop_isolation(false)]
    pub fn mark_source(&mut self, node_id: MxlNodeId)
        requires
            old(self).wf(),
            (node_id as nat) < old(self).node_count(),
            old(self).topo.metadata@[node_id as int].node_type == MxlNodeType::Source,
        ensures
            final(self).wf(),
            final(self).spec_sources() == if old(self).spec_sources().contains(node_id) {
                old(self).spec_sources()
            } else {
                old(self).spec_sources().push(node_id)
            },
            final(self).spec_edges() == old(self).spec_edges(),
            final(self).topo.metadata@ == old(self).topo.metadata@,
    {
        let n = self.topo.source_ids.len();
        let mut i: usize = 0;
        while i < n
            invariant
                i <= n,
                n == self.spec_sources().len(),
                forall|j: int| 0 <= j < i ==> self.spec_sources()[j] != node_id,
            decreases n - i,
        {
            if self.topo.source_ids[i] == node_id {
                assert(self.spec_sources()[i as int] == node_id);
                return;
            }
            i = i + 1;
        }
        proof {
            if self.spec_sources().contains(node_id) {
                let j = choose|j: int|
                    0 <= j < self.spec_sources().len() && self.spec_sources()[j] == node_id;
                assert(false);
            }
        }
        self.topo.source_ids.push(node_id);
    }

    /// All edges that enter the given node.
    #[verifier::loop_isolation(false)]
    pub fn upstream_edges(&self, node_id: &MxlNodeId) -> (r: Vec<MxlEdge>)
        ensures
            r@ == incoming(self.spec_edges(), *node_id),
    {
        let ghost es = self.spec_edges();
        let n = self.topo.edges.len();
        let mut out: Vec<MxlEdge> = Vec::new();
        proof {
            assert(es.skip(0) =~= es);
        }
        let mut i: usize = 0;
        while i < n
            invariant
                i <= n,
                incoming(es, *node_id) == out@ + incoming(es.skip(i as int), *node_id),
            decreases n - i,
        {
            proof {
                assert(es.skip(i as int)[0] == es[i as int]);
                assert(es.skip(i as int).skip(1) =~= es.skip(i + 1));
            }
            let e = self.topo.edges[i];
            if e.dest_node_id == *node_id {
                out.push(e);
            }
            i = i + 1;
        }
        proof {
            assert(incoming(es.skip(n as int), *node_id) =~= Seq::<MxlEdge>::empty());
            assert(out@ =~= incoming(es, *node_id));
        }
        out
    }

    /// All edges that leave the given node.
    #[verifier::loop_isolation(false)]
    pub fn downstream_edges(&self, node_id: &MxlNodeId) -> (r: Vec<MxlEdge>)
        ensures
            r@ == outgoing(self.spec_edges(), *node_id),
    {
        let ghost es = self.spec_edges();
        let n = self.topo.edges.len();
        let mut out: Vec<MxlEdge> = Vec::new();
        proof {
            assert(es.skip(0) =~= es);
        }
        let mut i: usize = 0;
        while i < n
            invariant
                i <= n,
                outgoing(es, *node_id) == out@ + outgoing(es.skip(i as int), *node_id),
            decreases n - i,
        {
            proof {
                assert(es.skip(i as int)[0] == es[i as int]);
                assert(es.skip(i as int).skip(1) =~= es.skip(i + 1));
            }
            let e = self.topo.edges[i];
            if e.source_node_id == *node_id {
                out.push(e);
            }
            i = i + 1;
        }
        proof {
            assert(outgoing(es.skip(n as int), *node_id) =~= Seq::<MxlEdge>::empty());
            assert(out@ =~= outgoing(es, *node_id));
        }
        out
    }
}


/// Whether some recorded source reaches node `x`.
pub open spec fn src_reaches(es: Seq<MxlEdge>, srcs: Seq<MxlNodeId>, x: MxlNodeId) -> bool {
    exists|k: int, f: nat| 0 <= k < srcs.len() && #[trigger] reaches(es, srcs[k], x, f)
}

/// A sequence of distinct integers drawn from `[0, n)` has at most `n`
/// elements.
proof fn lemma_distinct_bounded(s: Seq<int>, n: nat)
    requires
        s.no_duplicates(),
        forall|i: int| 0 <= i < s.len() ==> 0 <= #[trigger] s[i] < n,
    ensures
        s.len() <= n,
{
    broadcast use vstd::seq_lib::group_seq_properties;

    s.unique_seq_to_set();
    vstd::set_lib::lemma_int_range(0, n as int);
    assert(s.to_set().subset_of(vstd::set_lib::set_int_range(0, n as int)));
    vstd::set_lib::lemma_len_subset(s.to_set(), vstd::set_lib::set_int_range(0, n as int));
}

impl MxlGraph {
    /// An ordering of node ids reachable from the sources, beginning at every
    /// source, each node listed once. The order is a convenience for drivers
    /// (a depth-first walk with de-duplication), not a strict topological
    /// sort; a driver is expected to keep ticking all nodes regardless.
    #[verifier::loop_isolation(false)]
    #[verifier::rlimit(100)]
    pub fn sort_from_sources(&self) -> (out: Vec<MxlNodeId>)
        requires
            self.wf(),
        ensures
            forall|i: int| 0 <= i < out@.len() ==> ((#[trigger] out@[i]) as nat) < self.node_count(),
            out@.no_duplicates(),
            forall|k: int|
                0 <= k < self.spec_sources().len() ==> out@.contains(
                    #[trigger] self.spec_sources()[k],
                ),
            forall|i: int|
                0 <= i < out@.len() ==> src_reaches(
                    self.spec_edges(),
                    self.spec_sources(),
                    #[trigger] out@[i],
                ),
            forall|j: int, i: int|
                0 <= j < out@.len() && 0 <= i < self.spec_edges().len() && (
                #[trigger] self.spec_edges()[i]).source_node_id == #[trigger] out@[j]
                    ==> out@.contains(self.spec_edges()[i].dest_node_id),
    {
        let ghost es = self.spec_edges();
        let ghost srcs = self.spec_sources();
        let ghost n = self.node_count();
        let mut out: Vec<MxlNodeId> = Vec::new();
        let mut stack: Vec<MxlNodeId> = Vec::new();
        let nsrc = self.topo.source_ids.len();
        let mut s: usize = 0;
        while s < nsrc
            invariant
                s <= nsrc,
                stack@.len() == s,
                forall|j: int| 0 <= j < s ==> stack@[j] == srcs[j],
            decreases nsrc - s,
        {
            stack.push(self.topo.source_ids[s]);
            s = s + 1;
        }
        proof {
            assert forall|j: int| 0 <= j < stack@.len() implies ((#[trigger] stack@[j]) as nat) < n
                && src_reaches(es, srcs, stack@[j]) by {
                assert(stack@[j] == srcs[j]);
                assert(reaches(es, srcs[j], stack@[j], 0nat));
            }
        }
        while stack.len() > 0
            invariant
                forall|j: int| 0 <= j < out@.len() ==> ((#[trigger] out@[j]) as nat) < n,
                out@.no_duplicates(),
                forall|j: int|
                    0 <= j < stack@.len() ==> ((#[trigger] stack@[j]) as nat) < n && src_reaches(
                        es,
                        srcs,
                        stack@[j],
                    ),
                forall|j: int|
                    0 <= j < out@.len() ==> src_reaches(es, srcs, #[trigger] out@[j]),
                forall|k: int|
                    0 <= k < srcs.len() ==> out@.contains(#[trigger] srcs[k]) || stack@.contains(
                        srcs[k],
                    ),
                forall|j: int, i: int|
                    0 <= j < out@.len() && 0 <= i < es.len() && (
                    #[trigger] es[i]).source_node_id == #[trigger] out@[j] ==> out@.contains(
                        es[i].dest_node_id,
                    ) || stack@.contains(es[i].dest_node_id),
            decreases n - out@.len(), stack@.len(),
        {
            proof {
                let om = out@.map_values(|x: MxlNodeId| x as int);
                assert(om.no_duplicates()) by {
                    assert forall|i: int, j: int|
                        0 <= i < om.len() && 0 <= j < om.len() && i != j implies om[i] != om[j] by {
                        assert(out@[i] != out@[j]);
                    }
                }
                assert forall|i: int| 0 <= i < om.len() implies 0 <= #[trigger] om[i] < n by {
                    assert(om[i] == out@[i] as int);
                }
                lemma_distinct_bounded(om, n);
                assert(out@.len() <= n);
            }
            let ghost old_stack = stack@;
            let ghost old_out = out@;
            let id = stack.pop().unwrap();
            let ghost stack_base = stack@;
            proof {
                assert(id == old_stack.last());
                assert(stack@ =~= old_stack.drop_last());
            }
            if !contains_id(&out, id) {
                out.push(id);
                proof {
                    assert(out@.drop_last() =~= old_out);
                    assert(out@.no_duplicates());
                    assert(src_reaches(es, srcs, id)) by {
                        assert(old_stack[old_stack.len() - 1] == id);
                    }
                    assert forall|j: int| 0 <= j < out@.len() implies src_reaches(
                        es,
                        srcs,
                        #[trigger] out@[j],
                    ) by {
                        if j < out@.len() - 1 {
                            assert(out@[j] == old_out[j]);
                        } else {
                            assert(out@[j] == id);
                        }
                    }
                    let om2 = out@.map_values(|x: MxlNodeId| x as int);
                    assert(om2.no_duplicates()) by {
                        assert forall|i: int, j: int|
                            0 <= i < om2.len() && 0 <= j < om2.len() && i != j implies om2[i]
                            != om2[j] by {
                            assert(out@[i] != out@[j]);
                        }
                    }
                    assert forall|i: int| 0 <= i < om2.len() implies 0 <= #[trigger] om2[i]
                        < n by {
                        assert(om2[i] == out@[i] as int);
                    }
                    lemma_distinct_bounded(om2, n);
                    assert(out@.len() <= n);
                    assert forall|k: int|
                        0 <= k < srcs.len() implies out@.contains(#[trigger] srcs[k])
                        || stack@.contains(srcs[k]) by {
                        if old_out.contains(srcs[k]) {
                            let j = choose|j: int|
                                0 <= j < old_out.len() && old_out[j] == srcs[k];
                            assert(out@[j] == srcs[k]);
                        } else if old_stack.contains(srcs[k]) {
                            let j = choose|j: int|
                                0 <= j < old_stack.len() && old_stack[j] == srcs[k];
                            if j < old_stack.len() - 1 {
                                assert(stack@[j] == srcs[k]);
                            } else {
                                assert(srcs[k] == id);
                                assert(out@[out@.len() - 1] == srcs[k]);
                            }
                        }
                    }
                }
                let next_edges = self.downstream_edges(&id);
                let ghost g_next = next_edges@;
                proof {
                    lemma_outgoing_sub(es, id);
                }
                let m = next_edges.len();
                let mut t: usize = 0;
                while t < m
                    invariant
                        t <= m,
                        m == g_next.len(),
                        forall|j: int|
                            0 <= j < stack@.len() ==> ((#[trigger] stack@[j]) as nat) < n
                                && src_reaches(es, srcs, stack@[j]),
                        forall|k: int|
                            0 <= k < srcs.len() ==> out@.contains(#[trigger] srcs[k])
                                || stack@.contains(srcs[k]),
                        forall|t2: int|
                            0 <= t2 < t ==> stack@.contains(
                                (#[trigger] g_next[t2]).dest_node_id,
                            ),
                        forall|x: MxlNodeId|
                            #[trigger] stack_base.contains(x) ==> stack@.contains(x),
                    decreases m - t,
                {
                    let e = next_edges[t];
                    proof {
                        assert(g_next[t as int] == e);
                        assert(es.contains(e) && e.source_node_id == id);
                        assert(has_edge(es, id, e.dest_node_id)) by {
                            let i = choose|i: int| 0 <= i < es.len() && es[i] == e;
                            assert(es[i].source_node_id == id);
                        }
                        assert(src_reaches(es, srcs, id));
                        let (k, f) = choose|k: int, f: nat|
                            0 <= k < srcs.len() && #[trigger] reaches(es, srcs[k], id, f);
                        assert(reaches(es, id, e.dest_node_id, 1nat)) by {
                            assert(reaches(es, e.dest_node_id, e.dest_node_id, 0nat));
                        }
                        lemma_reaches_trans(es, srcs[k], id, e.dest_node_id, f, 1nat);
                        let ghost old_stack2 = stack@;
                        assert forall|x: MxlNodeId| old_stack2.contains(x) implies old_stack2.push(
                            e.dest_node_id,
                        ).contains(x) by {
                            let j = choose|j: int|
                                0 <= j < old_stack2.len() && old_stack2[j] == x;
                            assert(old_stack2.push(e.dest_node_id)[j] == x);
                        }
                        assert(old_stack2.push(e.dest_node_id).contains(e.dest_node_id)) by {
                            assert(old_stack2.push(e.dest_node_id)[old_stack2.len() as int]
                                == e.dest_node_id);
                        }
                    }
                    stack.push(e.dest_node_id);
                    t = t + 1;
                }
                proof {
                    assert forall|j: int, i: int|
                        0 <= j < out@.len() && 0 <= i < es.len() && (
                        #[trigger] es[i]).source_node_id == #[trigger] out@[j] implies out@.contains(
                        es[i].dest_node_id,
                    ) || stack@.contains(es[i].dest_node_id) by {
                        let d = es[i].dest_node_id;
                        if j < out@.len() - 1 {
                            assert(out@[j] == old_out[j]);
                            if old_out.contains(d) {
                                let jj = choose|jj: int|
                                    0 <= jj < old_out.len() && old_out[jj] == d;
                                assert(out@[jj] == d);
                            } else {
                                assert(old_stack.contains(d));
                                let jj = choose|jj: int|
                                    0 <= jj < old_stack.len() && old_stack[jj] == d;
                                if jj < old_stack.len() - 1 {
                                    assert(stack_base[jj] == d);
                                    assert(stack_base.contains(d));
                                } else {
                                    assert(d == id);
                                    assert(out@[out@.len() - 1] == d);
                                }
                            }
                        } else {
                            assert(out@[j] == id);
                            lemma_outgoing_complete(es, id, i);
                            let t2 = choose|t2: int|
                                0 <= t2 < g_next.len() && g_next[t2] == es[i];
                            assert(stack@.contains(g_next[t2].dest_node_id));
                        }
                    }
                }
            } else {
                proof {
                    assert forall|k: int|
                        0 <= k < srcs.len() implies out@.contains(#[trigger] srcs[k])
                        || stack@.contains(srcs[k]) by {
                        if old_stack.contains(srcs[k]) && !out@.contains(srcs[k]) {
                            let j = choose|j: int|
                                0 <= j < old_stack.len() && old_stack[j] == srcs[k];
                            if j < old_stack.len() - 1 {
                                assert(stack@[j] == srcs[k]);
                            } else {
                                assert(srcs[k] == id);
                                assert(out@.contains(id));
                                assert(false);
                            }
                        }
                    }
                    assert forall|j: int, i: int|
                        0 <= j < out@.len() && 0 <= i < es.len() && (
                        #[trigger] es[i]).source_node_id == #[trigger] out@[j] implies out@.contains(
                        es[i].dest_node_id,
                    ) || stack@.contains(es[i].dest_node_id) by {
                        let d = es[i].dest_node_id;
                        if !out@.contains(d) {
                            assert(old_stack.contains(d));
                            let jj = choose|jj: int|
                                0 <= jj < old_stack.len() && old_stack[jj] == d;
                            if jj < old_stack.len() - 1 {
                                assert(stack@[jj] == d);
                            } else {
                                assert(d == id);
                                assert(out@.contains(id));
                                assert(false);
                            }
                        }
                    }
                }
            }
        }
        out
    }
}

/// Completeness of an edge-closed covering: a set of node ids that contains
/// a node and is closed under outgoing edges contains everything that node
/// reaches. Together with the ordering's other clauses this pins the result
/// of `sort_from_sources` down to exactly the nodes reachable from the
/// sources.
pub proof fn lemma_closed_covers_reachable(
    es: Seq<MxlEdge>,
    out: Seq<MxlNodeId>,
    a: MxlNodeId,
    b: MxlNodeId,
    f: nat,
)
    requires
        out.contains(a),
        forall|j: int, i: int|
            0 <= j < out.len() && 0 <= i < es.len() && (#[trigger] es[i]).source_node_id == (
            #[trigger] out[j]) ==> out.contains(es[i].dest_node_id),
        reaches(es, a, b, f),
    ensures
        out.contains(b),
    decreases f,
{
    if a != b {
        let c = choose|c: MxlNodeId|
            #[trigger] has_edge(es, a, c) && reaches(es, c, b, (f - 1) as nat);
        let i = choose|i: int|
            0 <= i < es.len() && (#[trigger] es[i]).source_node_id == a && es[i].dest_node_id
                == c;
        let j = choose|j: int| 0 <= j < out.len() && out[j] == a;
        assert(out.contains(c));
        lemma_closed_covers_reachable(es, out, c, b, (f - 1) as nat);
    }
}

/// Every edge that `outgoing` lists is an edge of the table with the given
/// source.
proof fn lemma_outgoing_sub(es: Seq<MxlEdge>, id: MxlNodeId)
    ensures
        forall|t: int|
            0 <= t < outgoing(es, id).len() ==> es.contains(#[trigger] outgoing(es, id)[t])
                && outgoing(es, id)[t].source_node_id == id,
    decreases es.len(),
{
    if es.len() > 0 {
        lemma_outgoing_sub(es.skip(1), id);
        assert forall|t: int| 0 <= t < outgoing(es, id).len() implies es.contains(
            #[trigger] outgoing(es, id)[t],
        ) && outgoing(es, id)[t].source_node_id == id by {
            let rest = outgoing(es.skip(1), id);
            if es[0].source_node_id == id {
                if t == 0 {
                    assert(outgoing(es, id)[0] == es[0]);
                    assert(es.contains(es[0]));
                } else {
                    assert(outgoing(es, id)[t] == rest[t - 1]);
                    assert(es.skip(1).contains(rest[t - 1]));
                    let j = choose|j: int|
                        0 <= j < es.skip(1).len() && es.skip(1)[j] == rest[t - 1];
                    assert(es[j + 1] == rest[t - 1]);
                }
            } else {
                assert(outgoing(es, id)[t] == rest[t]);
                assert(es.skip(1).contains(rest[t]));
                let j = choose|j: int| 0 <= j < es.skip(1).len() && es.skip(1)[j] == rest[t];
                assert(es[j + 1] == rest[t]);
            }
        }
    }
}

/// Every edge of the table with the given source is listed by `outgoing`.
proof fn lemma_outgoing_complete(es: Seq<MxlEdge>, id: MxlNodeId, i: int)
    requires
        0 <= i < es.len(),
        es[i].source_node_id == id,
    ensures
        outgoing(es, id).contains(es[i]),
    decreases es.len(),
{
    if i == 0 {
        assert(outgoing(es, id)[0] == es[0]);
    } else {
        lemma_outgoing_complete(es.skip(1), id, i - 1);
        let rest = outgoing(es.skip(1), id);
        let j = choose|j: int| 0 <= j < rest.len() && rest[j] == es.skip(1)[i - 1];
        if es[0].source_node_id == id {
            assert(outgoing(es, id)[j + 1] == rest[j]);
        } else {
            assert(outgoing(es, id)[j] == rest[j]);
        }
    }
}

/// Whether a vector of node ids contains the given id.
fn contains_id(v: &Vec<MxlNodeId>, x: MxlNodeId) -> (r: bool)
    ensures
        r == v@.contains(x),
{
    let n = v.len();
    let mut i: usize = 0;
    while i < n
        invariant
            i <= n,
            n == v@.len(),
            forall|j: int| 0 <= j < i ==> v@[j] != x,
        decreases n - i,
    {
        if v[i] == x {
            assert(v@[i as int] == x);
            return true;
        }
        i = i + 1;
    }
    proof {
        if v@.contains(x) {
            let j = choose|j: int| 0 <= j < v@.len() && v@[j] == x;
            assert(false);
        }
    }
    false
}


/// The bytes before the first `<`, if any: generic parameters are truncated
/// from a type name.
pub open spec fn before_generics(b: Seq<u8>) -> Seq<u8>
    decreases b.len(),
{
    if b.len() == 0 {
        b
    } else if b[0] == 60 {
        Seq::empty()
    } else {
        seq![b[0]] + before_generics(b.skip(1))
    }
}

/// Whether the bytes hold a `::` separator that may be split at (the byte
/// after it, if any, must begin a character, which the scan checks by
/// requiring it to be ASCII).
pub open spec fn has_sep(b: Seq<u8>) -> bool
    decreases b.len(),
{
    b.len() >= 2 && ((b[0] == 58 && b[1] == 58 && (b.len() == 2 || b[2] < 128)) || has_sep(
        b.skip(1),
    ))
}

/// The bytes after the last module-path separator.
pub open spec fn after_seps(b: Seq<u8>) -> Seq<u8>
    decreases b.len(),
{
    if !has_sep(b) {
        b
    } else if b[0] == 58 && b[1] == 58 && (b.len() == 2 || b[2] < 128) {
        after_seps(b.skip(2))
    } else {
        after_seps(b.skip(1))
    }
}

/// The formatted node type name, over UTF-8 bytes: generic parameters are
/// truncated and the module path is stripped.
pub open spec fn format_node_type_spec(b: Seq<u8>) -> Seq<u8> {
    after_seps(before_generics(b))
}


proof fn lemma_before_generics_at(b: Seq<u8>, cut: int)
    requires
        0 <= cut <= b.len(),
        forall|j: int| 0 <= j < cut ==> b[j] != 60,
        cut == b.len() || b[cut] == 60,
    ensures
        before_generics(b) == b.subrange(0, cut),
    decreases cut,
{
    if cut == 0 {
        if b.len() == 0 {
            assert(b.subrange(0, 0) =~= b);
        } else {
            assert(b[0] == 60);
            assert(b.subrange(0, 0) =~= Seq::<u8>::empty());
        }
    } else {
        assert(b[0] != 60);
        lemma_before_generics_at(b.skip(1), cut - 1);
        assert(b.skip(1).subrange(0, cut - 1) =~= b.subrange(1, cut));
        assert(seq![b[0]] + b.subrange(1, cut) =~= b.subrange(0, cut));
    }
}

/// Strips generic parameters and the module path from a type name: the text
/// before the first `<`, after its last `::`.
#[verifier::loop_isolation(false)]
pub fn format_node_type(ty: &str) -> (r: String)
    ensures
        vstd::utf8::encode_utf8(r@) == format_node_type_spec(vstd::utf8::encode_utf8(ty@)),
{
    broadcast use vstd::utf8::encode_utf8_valid_utf8, vstd::utf8::is_char_boundary_start_end_of_seq, vstd::utf8::is_char_boundary_iff_not_is_continuation_byte, vstd::utf8::valid_utf8_split, vstd::utf8::decode_utf8_encode_utf8;

    let bs = ty.as_bytes();
    let ghost whole: Seq<u8> = bs@;
    proof {
        assert(whole == vstd::utf8::encode_utf8(ty@));
        assert(vstd::utf8::valid_utf8(whole));
    }
    let n = bs.len();
    let mut cut: usize = n;
    let mut i: usize = 0;
    while i < n
        invariant
            i <= n,
            cut == n,
            forall|j: int| 0 <= j < i ==> whole[j] != 60,
        decreases n - i,
    {
        if bs[i] == 60 {
            cut = i;
            break;
        }
        i = i + 1;
    }
    proof {
        if cut < n {
            assert(whole[cut as int] == 60);
        }
        lemma_before_generics_at(whole, cut as int);
    }
    let ghost pre: Seq<u8> = whole.subrange(0, cut as int);
    let mut start: usize = 0;
    let mut i2: usize = 0;
    proof {
        assert(pre.skip(0) =~= pre);
    }
    while cut - i2 >= 2
        invariant
            start <= i2,
            i2 <= cut,
            cut <= n,
            n == whole.len(),
            pre == whole.subrange(0, cut as int),
            after_seps(pre) == if has_sep(pre.skip(i2 as int)) {
                after_seps(pre.skip(i2 as int))
            } else {
                pre.skip(start as int)
            },
            start == 0 || start as int == cut || pre[start as int] < 128,
        decreases cut - i2,
    {
        let ghost rem = pre.skip(i2 as int);
        proof {
            assert(rem.len() == cut - i2 >= 2);
            assert(rem[0] == pre[i2 as int] == whole[i2 as int]);
            assert(rem[1] == pre[i2 + 1] == whole[i2 + 1]);
            if rem.len() > 2 {
                assert(rem[2] == pre[i2 + 2] == whole[i2 + 2]);
            }
            assert(rem.skip(1) =~= pre.skip(i2 + 1));
            assert(rem.skip(2) =~= pre.skip(i2 + 2));
        }
        if bs[i2] == 58 && bs[i2 + 1] == 58 && (i2 + 2 == cut || bs[i2 + 2] < 128) {
            proof {
                assert(has_sep(rem));
                assert(after_seps(rem) == after_seps(pre.skip(i2 + 2)));
                if !has_sep(pre.skip(i2 + 2)) {
                    assert(after_seps(pre.skip(i2 + 2)) == pre.skip(i2 + 2));
                }
            }
            start = i2 + 2;
            i2 = i2 + 2;
        } else {
            proof {
                assert(!(rem[0] == 58 && rem[1] == 58 && (rem.len() == 2 || rem[2] < 128)));
                assert(has_sep(rem) == has_sep(rem.skip(1)));
                if has_sep(rem) {
                    assert(after_seps(rem) == after_seps(pre.skip(i2 + 1)));
                }
            }
            i2 = i2 + 1;
        }
    }
    proof {
        assert(pre.skip(i2 as int).len() <= 1);
        assert(!has_sep(pre.skip(i2 as int)));
        assert(after_seps(pre) == pre.skip(start as int));
    }
    let piece = crate::codec::bytes_range(bs, start, cut);
    proof {
        assert(piece@ =~= pre.skip(start as int));
        assert(vstd::utf8::is_char_boundary(whole, cut as int)) by {
            if cut < n {
                assert(whole[cut as int] == 60);
                assert(!vstd::utf8::is_continuation_byte(whole[cut as int]));
            }
        }
        assert(vstd::utf8::valid_utf8(pre));
        assert(vstd::utf8::is_char_boundary(pre, start as int)) by {
            if 0 < start && (start as int) < pre.len() {
                assert(pre[start as int] < 128);
                assert(!vstd::utf8::is_continuation_byte(pre[start as int]));
            } else if start as int == pre.len() {
            }
        }
        assert(vstd::utf8::valid_utf8(pre.subrange(start as int, pre.len() as int)));
        assert(pre.subrange(start as int, pre.len() as int) =~= pre.skip(start as int));
    }
    match crate::codec::string_from_utf8(piece) {
        Some(s) => s,
        None => {
            proof {
                assert(false);
            }
            ty.to_owned()
        }
    }
}

} // verus!
