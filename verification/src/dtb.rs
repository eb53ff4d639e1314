//! Flattened device trees: which blobs can be read, and what is read from them.

pub mod tree;
pub mod walk;
