//! The traits and orders that most callers need, for one `use`.

pub use crate::iter::TreeNode;
pub use crate::iter_mut::TreeNodeMut;
pub use crate::traversal_order::{BreadthFirst, DepthFirst, TraversalOrder};
