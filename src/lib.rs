//! An append-only arena tree.
//!
//! Nodes are added as children of nodes already present and are named by
//! stable [`NodeId`]s; no value, parent or existing child list ever changes
//! once it is stored, except that child lists grow.

pub mod node;
pub mod tree;
pub mod laws;

pub use node::{INode, NodeId, NodeView};
pub use tree::{ITree, TreeError};
