//! Digests of transactions and of pairs of digests, computed with std's
//! `DefaultHasher`, and the `Transaction` trait through which a tree hashes
//! its items.

use std::collections::hash_map::DefaultHasher;
use std::hash::{Hash, Hasher};
use vstd::prelude::*;

verus! {

/// The digest that `DefaultHasher` gives to a string.
pub uninterp spec fn str_digest(s: Seq<char>) -> u64;

/// The digest that `DefaultHasher` gives to an `i32`.
pub uninterp spec fn i32_digest(v: i32) -> u64;

/// The digest that `DefaultHasher` gives to two digests fed in order.
pub uninterp spec fn pair_digest(left: u64, right: u64) -> u64;

/// Relies on `<str as Hash>::hash` fed to a fresh `DefaultHasher::new()`:
/// the digest depends on the characters of `s` alone.
#[verifier::external_body]
fn hash_str(s: &str) -> (r: u64)
    ensures
        r == str_digest(s@),
{
    let mut hasher = DefaultHasher::new();
    s.hash(&mut hasher);
    hasher.finish()
}

/// Relies on `<i32 as Hash>::hash` fed to a fresh `DefaultHasher::new()`:
/// the digest depends on `v` alone.
#[verifier::external_body]
fn hash_i32(v: i32) -> (r: u64)
    ensures
        r == i32_digest(v),
{
    let mut hasher = DefaultHasher::new();
    v.hash(&mut hasher);
    hasher.finish()
}

/// Relies on `<u64 as Hash>::hash`, called on `left` and then on `right`,
/// fed to a fresh `DefaultHasher::new()`: the digest depends on the two
/// values and their order alone.
#[verifier::external_body]
pub(crate) fn hash_pair(left: u64, right: u64) -> (r: u64)
    ensures
        r == pair_digest(left, right),
{
    let mut hasher = DefaultHasher::new();
    left.hash(&mut hasher);
    right.hash(&mut hasher);
    hasher.finish()
}

/// An item that a tree can hold: it has a digest that depends on its value
/// alone.
pub trait Transaction {
    /// The digest of this item.
    spec fn spec_digest(&self) -> u64;

    /// Computes the digest of this item.
    fn digest(&self) -> (r: u64)
        ensures
            r == self.spec_digest(),
    ;
}

impl Transaction for String {
    open spec fn spec_digest(&self) -> u64 {
        str_digest(self@)
    }

    fn digest(&self) -> (r: u64) {
        hash_str(self.as_str())
    }
}

impl<'a> Transaction for &'a str {
    open spec fn spec_digest(&self) -> u64 {
        str_digest((**self)@)
    }

    fn digest(&self) -> (r: u64) {
        hash_str(*self)
    }
}

impl Transaction for i32 {
    open spec fn spec_digest(&self) -> u64 {
        i32_digest(*self)
    }

    fn digest(&self) -> (r: u64) {
        hash_i32(*self)
    }
}

} // verus!
