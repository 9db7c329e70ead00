//! An arena hierarchy of nodes related by indices, with a traversal that can
//! be recorded once and replayed without walking the tree again.

pub mod nest;
pub mod ops;
pub mod reach;
pub mod recipe;
pub mod shape;
pub mod tree;
pub mod walk;

pub use ops::NodeEnumOp;
pub use recipe::Recipe;
pub use tree::{Hierarchy, HierarchyError, Node};
pub use walk::NodeEnum;
