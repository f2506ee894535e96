//! An in-memory ordered index for a key-value store: a red-black tree that
//! maps 64-bit keys to text values, kept in an arena of nodes that refer to
//! one another by index.

pub mod database;
pub mod tree;
