//! The Merkle tree with proofs written as `SiblingsHash` values; it shares
//! its construction, search and verification with `crate::merkle_tree`.

use crate::digest::Transaction;
use crate::merkle_tree::{digests_of, fold_proof, proof_for, root_of, MerkleError, SiblingHash};
use vstd::prelude::*;

verus! {

/// One element of an inclusion proof: the digest of the sibling at one
/// level, and on which side of the path it stands.
#[derive(Clone, Copy, Debug, PartialEq, Eq, Structural)]
pub enum SiblingsHash {
    LeftSibling(u64),
    RightSibling(u64),
}

/// The `SiblingHash` that says the same as `s`.
pub open spec fn as_sibling_hash(s: SiblingsHash) -> SiblingHash {
    match s {
        SiblingsHash::LeftSibling(x) => SiblingHash::Left(x),
        SiblingsHash::RightSibling(x) => SiblingHash::Right(x),
    }
}

/// The `SiblingsHash` that says the same as `s`.
pub open spec fn as_siblings_hash(s: SiblingHash) -> SiblingsHash {
    match s {
        SiblingHash::Left(x) => SiblingsHash::LeftSibling(x),
        SiblingHash::Right(x) => SiblingsHash::RightSibling(x),
    }
}

fn to_sibling_hash(proof: &Vec<SiblingsHash>) -> (r: Vec<SiblingHash>)
    ensures
        r@ == proof@.map_values(|s: SiblingsHash| as_sibling_hash(s)),
{
    let mut out: Vec<SiblingHash> = Vec::new();
    let mut i: usize = 0;
    while i < proof.len()
        invariant
            i <= proof.len(),
            out.len() == i,
            forall|k: int| 0 <= k < i ==> out@[k] == as_sibling_hash(#[trigger] proof@[k]),
        decreases proof.len() - i,
    {
        let s = match proof[i] {
            SiblingsHash::LeftSibling(x) => SiblingHash::Left(x),
            SiblingsHash::RightSibling(x) => SiblingHash::Right(x),
        };
        out.push(s);
        i = i + 1;
    }
    assert(out@ =~= proof@.map_values(|s: SiblingsHash| as_sibling_hash(s)));
    out
}

fn to_siblings_hash(proof: &Vec<SiblingHash>) -> (r: Vec<SiblingsHash>)
    ensures
        r@ == proof@.map_values(|s: SiblingHash| as_siblings_hash(s)),
{
    let mut out: Vec<SiblingsHash> = Vec::new();
    let mut i: usize = 0;
    while i < proof.len()
        invariant
            i <= proof.len(),
            out.len() == i,
            forall|k: int| 0 <= k < i ==> out@[k] == as_siblings_hash(#[trigger] proof@[k]),
        decreases proof.len() - i,
    {
        let s = match proof[i] {
            SiblingHash::Left(x) => SiblingsHash::LeftSibling(x),
            SiblingHash::Right(x) => SiblingsHash::RightSibling(x),
        };
        out.push(s);
        i = i + 1;
    }
    assert(out@ =~= proof@.map_values(|s: SiblingHash| as_siblings_hash(s)));
    out
}

/// A Merkle tree over an ordered, non-empty list of transactions.
pub struct MerkleTree<H: Transaction> {
    tree: crate::merkle_tree::MerkleTree<H>,
}

impl<H: Transaction> View for MerkleTree<H> {
    type V = Seq<H>;

    /// The transactions, in order.
    closed spec fn view(&self) -> Seq<H> {
        self.tree@
    }
}

impl<H: Transaction> MerkleTree<H> {
    /// The tree inside is well formed.
    pub closed spec fn wf(self) -> bool {
        self.tree.wf()
    }

    /// Builds the tree over `transactions`; fails on an empty list.
    pub fn new(transactions: Vec<H>) -> (r: Result<Self, MerkleError>)
        ensures
            transactions.len() == 0 ==> r == Err::<Self, MerkleError>(MerkleError::EmptyInput),
            transactions.len() > 0 ==> r is Ok && r->Ok_0.wf() && r->Ok_0@ == transactions@,
    {
        match crate::merkle_tree::MerkleTree::new(transactions) {
            Ok(tree) => Ok(MerkleTree { tree }),
            Err(e) => Err(e),
        }
    }

    /// The root digest.
    pub fn root_hash(&self) -> (r: u64)
        requires
            self.wf(),
        ensures
            r == root_of(digests_of(self@)),
    {
        self.tree.root_hash()
    }

    /// Whether `proof` leads from the digest of `transaction` to the root.
    pub fn verify(&mut self, transaction: H, proof: Vec<SiblingsHash>) -> (r: bool)
        requires
            old(self).wf(),
        ensures
            *final(self) == *old(self),
            r == (fold_proof(
                transaction.spec_digest(),
                proof@.map_values(|s: SiblingsHash| as_sibling_hash(s)),
            ) == root_of(digests_of(old(self)@))),
    {
        let converted = to_sibling_hash(&proof);
        self.tree.verify(transaction, converted)
    }

    /// The proof for `transaction`, as `crate::merkle_tree::MerkleTree::get_proof`
    /// finds it.
    pub fn get_proof(&mut self, transaction: H) -> (r: Vec<SiblingsHash>)
        requires
            old(self).wf(),
        ensures
            *final(self) == *old(self),
            r@ == proof_for(digests_of(old(self)@), transaction.spec_digest()).map_values(
                |s: SiblingHash| as_siblings_hash(s),
            ),
    {
        let proof = self.tree.get_proof(transaction);
        to_siblings_hash(&proof)
    }

    /// Appends `transaction` and rebuilds the tree over the longer list.
    pub fn add(&mut self, transaction: H)
        requires
            old(self).wf(),
        ensures
            final(self).wf(),
            final(self)@ == old(self)@.push(transaction),
    {
        let _ = self.tree.add(transaction);
    }
}

} // verus!
