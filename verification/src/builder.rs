//! The typed builder: fluent assembly of nodes and edges through typed node
//! handles.
//!
//! A handle carries the input and output types of the node it refers to as
//! phantom parameters and stores only the node id; each chaining operation
//! compiles only if the new operator's input type equals the predecessor's
//! output type. The graph stores the topology; the constructed operator is
//! handed back to the caller, whose driver owns the erased node objects.

use vstd::prelude::*;

use crate::codec::{MxlData, KV};
use crate::join::{MxlLeftJoin, LEFT_INPUT, RIGHT_INPUT};
use crate::node::{MxlNode, MxlSink, MxlSource, MxlTransform, TickError};
use crate::sink::DebugSink;
use crate::source::VecSource;
use crate::topo::{
    reaches, tuple_edge, MxlEdge, MxlGraph, MxlNodeId, MxlNodeType,
};
use crate::transform::batch::BatchXform;
use crate::transform::collect::CollectXform;
use crate::transform::filter::FilterXform;
use crate::transform::flatten::FlattenXform;
use crate::transform::map::{MapXform, TryMapXform};

verus! {

use core::marker::PhantomData;

/// A typed, copyable reference to a node id used during graph assembly.
pub struct MxlNodeRef<In, Out> {
    node_id: MxlNodeId,
    _in: PhantomData<In>,
    _out: PhantomData<Out>,
}

impl<In, Out> Clone for MxlNodeRef<In, Out> {
    fn clone(&self) -> (r: Self)
        ensures
            r.spec_id() == self.spec_id(),
    {
        MxlNodeRef { node_id: self.node_id, _in: PhantomData, _out: PhantomData }
    }
}

impl<In, Out> MxlNodeRef<In, Out> {
    /// The referenced node id.
    pub closed spec fn spec_id(&self) -> MxlNodeId {
        self.node_id
    }

    pub fn id(&self) -> (r: MxlNodeId)
        ensures
            r == self.spec_id(),
    {
        self.node_id
    }
}

/// What registering one node with one upstream edge does to a graph: one
/// node is appended with the given kind, and exactly the one edge from the
/// upstream node's port zero to the new node's port zero is recorded.
pub open spec fn chained_node_added(
    g: MxlGraph,
    g2: MxlGraph,
    src: MxlNodeId,
    new_id: MxlNodeId,
    node_type: MxlNodeType,
) -> bool {
    &&& g2.wf()
    &&& new_id as nat == g.node_count()
    &&& g2.node_count() == g.node_count() + 1
    &&& forall|j: int| 0 <= j < g.node_count() ==> g2.topo.metadata@[j] == g.topo.metadata@[j]
    &&& g2.topo.metadata@[new_id as int].node_type == node_type
    &&& g2.spec_sources() == g.spec_sources()
    &&& g2.spec_edges() == g.spec_edges().push(tuple_edge((src, 0u32, 0u32), new_id))
}

/// Registers a node with a single upstream edge from `src` port zero to the
/// new node's port zero.
fn insert_chained<I: MxlData, O: MxlData, N: MxlNode>(
    g: &mut MxlGraph,
    node: &N,
    src: MxlNodeId,
    node_type: MxlNodeType,
) -> (new_id: MxlNodeId)
    requires
        old(g).wf(),
        old(g).node_count() < u32::MAX,
        (src as nat) < old(g).node_count(),
        node_type != MxlNodeType::Source,
    ensures
        chained_node_added(*old(g), *final(g), src, new_id, node_type),
{
    let mut upstream: Vec<(MxlNodeId, u32, u32)> = Vec::new();
    upstream.push((src, 0u32, 0u32));
    let ups_slice = upstream.as_slice();
    let ghost pre = g.spec_edges();
    let new_id = g.insert::<I, O, N>(node, Some(ups_slice), None, node_type);
    proof {
        assert(ups_slice@ =~= seq![(src, 0u32, 0u32)]);
        assert(ups_slice@[0] == (src, 0u32, 0u32));
    }
    proof {
        let e = tuple_edge((src, 0u32, 0u32), new_id);
        assert(pre.is_prefix_of(g.spec_edges()));
        assert(crate::topo::tuples_recorded(g.spec_edges(), ups_slice@, new_id));
        assert(g.spec_edges().contains(tuple_edge(ups_slice@[0], new_id)));
        assert(g.spec_edges().contains(e));
        let i = choose|i: int| 0 <= i < g.spec_edges().len() && g.spec_edges()[i] == e;
        assert(i >= pre.len()) by {
            if i < pre.len() {
                assert(pre[i] == e);
                assert(pre[i].dest_node_id < old(g).node_count());
            }
        }
        assert forall|j: int| pre.len() <= j < g.spec_edges().len() implies g.spec_edges()[j]
            == e by {
            assert(crate::topo::edge_from_tuples(g.spec_edges()[j], ups_slice@, new_id));
            let k = choose|k: int|
                0 <= k < ups_slice@.len() && g.spec_edges()[j] == tuple_edge(
                    ups_slice@[k],
                    new_id,
                );
            assert(ups_slice@[k] == (src, 0u32, 0u32));
        }
        assert(g.spec_edges().len() > pre.len());
        assert(g.spec_edges().len() == pre.len() + 1) by {
            if g.spec_edges().len() > pre.len() + 1 {
                assert(g.spec_edges()[pre.len() as int] == e);
                assert(g.spec_edges()[pre.len() as int + 1] == e);
                assert(false);
            }
        }
        assert(g.spec_edges() =~= pre.push(e));
    }
    new_id
}

impl MxlGraph {
    /// Registers a source node and records its id among the graph's sources.
    pub fn source<T: MxlData, S: MxlSource<Output = T>>(&mut self, source_node: S) -> (r: (
        MxlNodeRef<(), T>,
        S,
    ))
        requires
            old(self).wf(),
            old(self).node_count() < u32::MAX,
        ensures
            final(self).wf(),
            r.0.spec_id() as nat == old(self).node_count(),
            final(self).node_count() == old(self).node_count() + 1,
            final(self).spec_edges() == old(self).spec_edges(),
            final(self).spec_sources() == old(self).spec_sources().push(r.0.spec_id()),
            final(self).topo.metadata@[r.0.spec_id() as int].node_type == MxlNodeType::Source,
            forall|j: int|
                0 <= j < old(self).node_count() ==> final(self).topo.metadata@[j] == old(
                    self,
                ).topo.metadata@[j],
            r.1 == source_node,
    {
        let node_id = self.insert::<(), T, S>(&source_node, None, None, MxlNodeType::Source);
        proof {
            if self.spec_sources().contains(node_id) {
                let j = choose|j: int|
                    0 <= j < self.spec_sources().len() && self.spec_sources()[j] == node_id;
                assert((self.spec_sources()[j] as nat) < old(self).node_count());
                assert(false);
            }
        }
        self.mark_source(node_id);
        (MxlNodeRef { node_id, _in: PhantomData, _out: PhantomData }, source_node)
    }

    /// Registers a standalone transform node (no edges).
    pub fn transform<I: MxlData, O: MxlData, N: MxlTransform<Input = I, Output = O>>(
        &mut self,
        xform: N,
    ) -> (r: (MxlNodeRef<I, O>, N))
        requires
            old(self).wf(),
            old(self).node_count() < u32::MAX,
        ensures
            final(self).wf(),
            r.0.spec_id() as nat == old(self).node_count(),
            final(self).node_count() == old(self).node_count() + 1,
            final(self).spec_edges() == old(self).spec_edges(),
            final(self).spec_sources() == old(self).spec_sources(),
            final(self).topo.metadata@[r.0.spec_id() as int].node_type == MxlNodeType::Transform,
            forall|j: int|
                0 <= j < old(self).node_count() ==> final(self).topo.metadata@[j] == old(
                    self,
                ).topo.metadata@[j],
            r.1 == xform,
    {
        let node_id = self.insert::<I, (), N>(&xform, None, None, MxlNodeType::Transform);
        (MxlNodeRef { node_id, _in: PhantomData, _out: PhantomData }, xform)
    }

    /// Registers a standalone sink node (no edges).
    pub fn sink<T: MxlData, N: MxlSink<Input = T>>(&mut self, sink: N) -> (r: (
        MxlNodeRef<T, ()>,
        N,
    ))
        requires
            old(self).wf(),
            old(self).node_count() < u32::MAX,
        ensures
            final(self).wf(),
            r.0.spec_id() as nat == old(self).node_count(),
            final(self).node_count() == old(self).node_count() + 1,
            final(self).spec_edges() == old(self).spec_edges(),
            final(self).spec_sources() == old(self).spec_sources(),
            final(self).topo.metadata@[r.0.spec_id() as int].node_type == MxlNodeType::Sink,
            r.1 == sink,
    {
        let node_id = self.insert::<T, (), N>(&sink, None, None, MxlNodeType::Sink);
        (MxlNodeRef { node_id, _in: PhantomData, _out: PhantomData }, sink)
    }

    /// Registers a left join of two keyed streams: port zero consumes the
    /// left input, port one the right input.
    pub fn left_join<LI, RI, K: MxlData, LV: MxlData, RV: MxlData>(
        &mut self,
        left: &MxlNodeRef<LI, KV<K, LV>>,
        right: &MxlNodeRef<RI, KV<K, RV>>,
    ) -> (r: (MxlNodeRef<(KV<K, LV>, KV<K, RV>), KV<K, KV<LV, RV>>>, MxlLeftJoin<K, LV, RV>))
        requires
            old(self).wf(),
            old(self).node_count() < u32::MAX,
            (left.spec_id() as nat) < old(self).node_count(),
            (right.spec_id() as nat) < old(self).node_count(),
        ensures
            final(self).wf(),
            r.0.spec_id() as nat == old(self).node_count(),
            final(self).node_count() == old(self).node_count() + 1,
            final(self).topo.metadata@[r.0.spec_id() as int].node_type == MxlNodeType::Join,
            final(self).spec_sources() == old(self).spec_sources(),
            old(self).spec_edges().is_prefix_of(final(self).spec_edges()),
            final(self).spec_edges().contains(
                tuple_edge((left.spec_id(), 0u32, LEFT_INPUT), r.0.spec_id()),
            ),
            final(self).spec_edges().contains(
                tuple_edge((right.spec_id(), 0u32, RIGHT_INPUT), r.0.spec_id()),
            ),
            r.1.rights() == Seq::<KV<K::V, RV::V>>::empty(),
            r.1.is_buffering(),
    {
        let join: MxlLeftJoin<K, LV, RV> = MxlLeftJoin::new();
        let mut upstream: Vec<(MxlNodeId, u32, u32)> = Vec::new();
        upstream.push((left.id(), 0u32, LEFT_INPUT));
        upstream.push((right.id(), 0u32, RIGHT_INPUT));
        let ups_slice = upstream.as_slice();
        let node_id = self.insert::<(), (), MxlLeftJoin<K, LV, RV>>(
            &join,
            Some(ups_slice),
            None,
            MxlNodeType::Join,
        );
        proof {
            assert(crate::topo::tuples_recorded(self.spec_edges(), ups_slice@, node_id));
            assert(ups_slice@[0] == (left.spec_id(), 0u32, LEFT_INPUT));
            assert(ups_slice@[1] == (right.spec_id(), 0u32, RIGHT_INPUT));
        }
        (MxlNodeRef { node_id, _in: PhantomData, _out: PhantomData }, join)
    }
}


impl<In, Out: MxlData> MxlNodeRef<In, Out> {
    /// Chains a `map` over this node's output.
    pub fn map<MapO: MxlData, F: Fn(Out) -> MapO>(&self, g: &mut MxlGraph, f: F) -> (r: (
        MxlNodeRef<Out, MapO>,
        MapXform<Out, MapO, F>,
    ))
        requires
            old(g).wf(),
            old(g).node_count() < u32::MAX,
            (self.spec_id() as nat) < old(g).node_count(),
            forall|x: Out| f.requires((x,)),
        ensures
            chained_node_added(
                *old(g),
                *final(g),
                self.spec_id(),
                r.0.spec_id(),
                MxlNodeType::Transform,
            ),
            r.1.spec_func() == f,
    {
        self.transform(g, crate::transform::map::map(f))
    }

    /// Chains a `try_map` over this node's output.
    pub fn try_map<MapO: MxlData, F: Fn(Out) -> Result<MapO, TickError>>(
        &self,
        g: &mut MxlGraph,
        f: F,
    ) -> (r: (MxlNodeRef<Out, MapO>, TryMapXform<Out, MapO, F>))
        requires
            old(g).wf(),
            old(g).node_count() < u32::MAX,
            (self.spec_id() as nat) < old(g).node_count(),
            forall|x: Out| f.requires((x,)),
        ensures
            chained_node_added(
                *old(g),
                *final(g),
                self.spec_id(),
                r.0.spec_id(),
                MxlNodeType::Transform,
            ),
            r.1.spec_func() == f,
    {
        self.transform(g, crate::transform::map::try_map(f))
    }

    /// Chains a `filter` over this node's output.
    pub fn filter<F: Fn(&Out) -> bool>(&self, g: &mut MxlGraph, f: F) -> (r: (
        MxlNodeRef<Out, Out>,
        FilterXform<Out, F>,
    ))
        requires
            old(g).wf(),
            old(g).node_count() < u32::MAX,
            (self.spec_id() as nat) < old(g).node_count(),
            forall|x: Out| f.requires((&x,)),
        ensures
            chained_node_added(
                *old(g),
                *final(g),
                self.spec_id(),
                r.0.spec_id(),
                MxlNodeType::Transform,
            ),
            r.1.spec_func() == f,
    {
        self.transform(g, crate::transform::filter::filter(f))
    }

    /// Chains a `collect` over this node's output.
    pub fn collect(&self, g: &mut MxlGraph) -> (r: (
        MxlNodeRef<Out, Vec<Out>>,
        CollectXform<Out>,
    ))
        requires
            old(g).wf(),
            old(g).node_count() < u32::MAX,
            (self.spec_id() as nat) < old(g).node_count(),
        ensures
            chained_node_added(
                *old(g),
                *final(g),
                self.spec_id(),
                r.0.spec_id(),
                MxlNodeType::Transform,
            ),
            r.1.buffered() == Seq::<Out::V>::empty(),
            !r.1.is_done(),
    {
        self.transform(g, crate::transform::collect::collect())
    }

    /// Chains a `batch` of the given size over this node's output.
    pub fn batch(&self, g: &mut MxlGraph, batch_size: usize) -> (r: (
        MxlNodeRef<Out, Vec<Out>>,
        BatchXform<Out>,
    ))
        requires
            old(g).wf(),
            old(g).node_count() < u32::MAX,
            (self.spec_id() as nat) < old(g).node_count(),
        ensures
            chained_node_added(
                *old(g),
                *final(g),
                self.spec_id(),
                r.0.spec_id(),
                MxlNodeType::Transform,
            ),
            r.1.batch() == Seq::<Out::V>::empty(),
            r.1.size() == batch_size,
            !r.1.is_done(),
    {
        self.transform(g, crate::transform::batch::batch(batch_size))
    }

    /// Chains a generic transform over this node's output.
    pub fn transform<TO: MxlData, T: MxlTransform<Input = Out, Output = TO>>(
        &self,
        g: &mut MxlGraph,
        transform: T,
    ) -> (r: (MxlNodeRef<Out, TO>, T))
        requires
            old(g).wf(),
            old(g).node_count() < u32::MAX,
            (self.spec_id() as nat) < old(g).node_count(),
        ensures
            chained_node_added(
                *old(g),
                *final(g),
                self.spec_id(),
                r.0.spec_id(),
                MxlNodeType::Transform,
            ),
            r.1 == transform,
    {
        let transform_id = insert_chained::<Out, TO, T>(
            g,
            &transform,
            self.node_id,
            MxlNodeType::Transform,
        );
        (MxlNodeRef { node_id: transform_id, _in: PhantomData, _out: PhantomData }, transform)
    }

    /// Chains a sink consuming this node's output.
    pub fn sink<S: MxlSink<Input = Out>>(&self, g: &mut MxlGraph, sink: S) -> (r: (
        MxlNodeRef<Out, ()>,
        S,
    ))
        requires
            old(g).wf(),
            old(g).node_count() < u32::MAX,
            (self.spec_id() as nat) < old(g).node_count(),
        ensures
            chained_node_added(
                *old(g),
                *final(g),
                self.spec_id(),
                r.0.spec_id(),
                MxlNodeType::Sink,
            ),
            r.1 == sink,
    {
        let sink_id = insert_chained::<Out, (), S>(g, &sink, self.node_id, MxlNodeType::Sink);
        (MxlNodeRef { node_id: sink_id, _in: PhantomData, _out: PhantomData }, sink)
    }

    /// Attaches a user label to the referenced node.
    pub fn label(self, g: &mut MxlGraph, label: &str) -> (r: Self)
        requires
            old(g).wf(),
        ensures
            r.spec_id() == self.spec_id(),
            final(g).wf(),
            final(g).node_count() == old(g).node_count(),
            final(g).spec_edges() == old(g).spec_edges(),
            final(g).spec_sources() == old(g).spec_sources(),
    {
        g.label(self.node_id, label.to_owned());
        self
    }

    /// Records a manual edge from this node's port zero to a sink's port
    /// zero; the caller must not close a cycle (cycles are a stated
    /// non-goal).
    pub fn connect_sink(&self, g: &mut MxlGraph, sink: &MxlNodeRef<Out, ()>)
        requires
            old(g).wf(),
            (self.spec_id() as nat) < old(g).node_count(),
            (sink.spec_id() as nat) < old(g).node_count(),
            old(g).topo.metadata@[sink.spec_id() as int].node_type != MxlNodeType::Source,
            forall|f: nat|
                !reaches(old(g).spec_edges(), sink.spec_id(), self.spec_id(), f),
        ensures
            final(g).wf(),
            final(g).node_count() == old(g).node_count(),
            final(g).spec_sources() == old(g).spec_sources(),
            final(g).spec_edges() == ({
                let e = tuple_edge((self.spec_id(), 0u32, 0u32), sink.spec_id());
                if old(g).spec_edges().contains(e) {
                    old(g).spec_edges()
                } else {
                    old(g).spec_edges().push(e)
                }
            }),
    {
        g.insert_edge(
            MxlEdge {
                source_node_id: self.node_id,
                source_port: 0,
                dest_node_id: sink.node_id,
                dest_port: 0,
            },
        );
    }

    /// Records a manual edge from this node's port zero to the next node's
    /// port zero; the caller must not close a cycle (cycles are a stated
    /// non-goal).
    pub fn connect<Any>(&self, g: &mut MxlGraph, next: &MxlNodeRef<Out, Any>)
        requires
            old(g).wf(),
            (self.spec_id() as nat) < old(g).node_count(),
            (next.spec_id() as nat) < old(g).node_count(),
            old(g).topo.metadata@[next.spec_id() as int].node_type != MxlNodeType::Source,
            forall|f: nat|
                !reaches(old(g).spec_edges(), next.spec_id(), self.spec_id(), f),
        ensures
            final(g).wf(),
            final(g).node_count() == old(g).node_count(),
            final(g).spec_sources() == old(g).spec_sources(),
            final(g).spec_edges() == ({
                let e = tuple_edge((self.spec_id(), 0u32, 0u32), next.spec_id());
                if old(g).spec_edges().contains(e) {
                    old(g).spec_edges()
                } else {
                    old(g).spec_edges().push(e)
                }
            }),
    {
        g.insert_edge(
            MxlEdge {
                source_node_id: self.node_id,
                source_port: 0,
                dest_node_id: next.node_id,
                dest_port: 0,
            },
        );
    }
}

impl<In, O2: MxlData> MxlNodeRef<In, Vec<O2>> {
    /// Chains a `flatten` over this node's sequence output.
    pub fn flatten(&self, g: &mut MxlGraph) -> (r: (
        MxlNodeRef<Vec<O2>, O2>,
        FlattenXform<O2>,
    ))
        requires
            old(g).wf(),
            old(g).node_count() < u32::MAX,
            (self.spec_id() as nat) < old(g).node_count(),
        ensures
            chained_node_added(
                *old(g),
                *final(g),
                self.spec_id(),
                r.0.spec_id(),
                MxlNodeType::Transform,
            ),
    {
        self.transform(g, crate::transform::flatten::flatten())
    }
}

} // verus!
