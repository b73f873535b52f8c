//! Run-state reporting: the per-node and per-edge progress a driver tracks.

use vstd::prelude::*;

use crate::topo::MxlNodeId;

verus! {

/// Whether a node still has work to do.
#[derive(Debug, Clone, Copy, PartialEq, Eq, Structural)]
pub enum NodeState {
    Running,
    Finished,
}

/// Whether an edge channel still carries frames.
#[derive(Debug, Clone, Copy, PartialEq, Eq, Structural)]
pub enum EdgeState {
    Running,
    Finished,
}

/// Progress of a whole graph run: node states keyed by node id and edge
/// states keyed by an edge name chosen by the driver.
#[derive(Debug)]
pub struct GraphRunState {
    pub nodes: Vec<(MxlNodeId, NodeState)>,
    pub edges: Vec<(String, EdgeState)>,
}

impl Default for GraphRunState {
    fn default() -> (r: Self)
        ensures
            r.nodes@ == Seq::<(MxlNodeId, NodeState)>::empty(),
            r.edges@ == Seq::<(String, EdgeState)>::empty(),
    {
        GraphRunState { nodes: Vec::new(), edges: Vec::new() }
    }
}

} // verus!
