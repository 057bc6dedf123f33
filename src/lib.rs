//! Breadth-first and depth-first traversal of trees, read-only and mutating.
//!
//! A tree is any type that can list its children ([`iter::TreeNode`], and
//! [`iter_mut::TreeNodeMut`] for mutation). An engine holds a frontier of the
//! nodes that are discovered but not yet yielded, and an order
//! ([`traversal_order::BreadthFirst`] or [`traversal_order::DepthFirst`])
//! decides where the children of a visited node are put in it.

pub mod traversal_order;
pub mod iter;
pub mod iter_mut;
pub mod traversal;
pub mod tree;
pub mod prelude;
