//! A typed dataflow-graph engine: an application assembles a directed graph
//! of sources, transforms, joins and sinks through a typed builder, values
//! are serialized into framed byte streams that flow across FIFO channels,
//! and a driver executes the graph by repeatedly ticking nodes against
//! per-tick contexts.

pub mod builder;
pub mod channel;
pub mod codec;
pub mod ctx;
pub mod doc;
pub mod export;
pub mod frame;
pub mod io;
pub mod join;
pub mod node;
pub mod runstate;
pub mod sink;
pub mod source;
pub mod topo;
pub mod transform;

pub use builder::MxlNodeRef;
pub use channel::{EdgeChannelState, InMemoryEdgeChannel};
pub use codec::{KV, MxlData};
pub use ctx::{Input, MxlNodeCtx, Output};
pub use doc::{IntoChunks, PdfPageText};
pub use export::{GraphExport, NodeExport};
pub use frame::Frame;
pub use io::{FsLineSource, FsStringSource, MxlFileMode};
pub use join::MxlLeftJoin;
pub use node::{MxlNode, MxlSink, MxlSource, MxlTransform, TickError};
pub use runstate::{EdgeState, GraphRunState, NodeState};
pub use sink::DebugSink;
pub use source::{vec_source, VecSource};
pub use topo::{format_node_type, MxlEdge, MxlGraph, MxlNodeId, MxlNodeType, VGraphTopology, VNodeMetadata};
pub use transform::{BatchXform, CollectXform, CountXform, FilterXform, FlattenXform, GroupByKey, LowercaseXform, MapXform, TryMapXform, UppercaseXform, count};
