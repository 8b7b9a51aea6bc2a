//! The graph state of a node-and-edge flow editor: nodes, edges, an index from
//! node id to position, undo and redo history, batched changes, connection
//! rules, and where edges attach to nodes.
//!
//! Rendering, viewport arithmetic and hit testing work in floating point and
//! live with the user interface; this library keeps geometry as `f32` bit
//! patterns and never computes with it.
pub mod changes;
pub mod handles;
pub mod history;
pub mod queries;
pub mod seqs;
pub mod store;
pub mod types;

pub use handles::{find_handle_position, handle_slot};
pub use store::FlowState;
pub use types::{
    Connection, EdgeChange, EdgeType, FlowEdge, FlowNode, HandleDef, HandlePosition, HandleType,
    NodeChange, Position,
};
