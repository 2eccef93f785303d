//! A Merkle hash tree over an ordered list of transactions: construction,
//! inclusion proofs, their verification and appending, with their contracts.

pub mod digest;
pub mod merkle_tree;
pub mod theorems;
pub mod merkle;
