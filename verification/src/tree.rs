//! The ordered index: its nodes, the tree with its insertion, and the facts
//! that hold of every well-formed tree.

pub mod entries;
pub mod laws;
pub mod node;
pub mod rb_tree;
pub mod repair;
pub mod rotation;
pub mod steps;
pub mod subtree;
