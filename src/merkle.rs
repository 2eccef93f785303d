//! The tree under the `merkle` path, whose proofs name each sibling's side
//! with `SiblingsHash`.

pub mod merkle_tree;
