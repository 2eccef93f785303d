//! The Merkle tree: nodes, construction by level reduction, inclusion proofs
//! and their verification, and appending.

use crate::digest::{hash_pair, pair_digest, Transaction};
use vstd::prelude::*;

verus! {

/// One element of an inclusion proof: the digest of the sibling at one
/// level, and on which side of the path it stands.
#[derive(Clone, Copy, Debug, PartialEq, Eq, Structural)]
pub enum SiblingHash {
    Left(u64),
    Right(u64),
}

/// Why a tree could not be built.
#[derive(Clone, Copy, Debug, PartialEq, Eq, Structural)]
pub enum MerkleError {
    /// A tree was asked for with no leaves.
    EmptyInput,
    /// Rebuilding the tree after an append failed.
    RebuildFailed,
}

/// A node of the tree: a leaf has no children; an inner node has both, and
/// its digest is the pair digest of theirs, left before right.
pub struct MerkleNode {
    pub hash_value: u64,
    pub left_son: Option<Box<MerkleNode>>,
    pub right_son: Option<Box<MerkleNode>>,
}

/// The leaf node of digest `d`.
pub open spec fn leaf(d: u64) -> MerkleNode {
    MerkleNode { hash_value: d, left_son: None, right_son: None }
}

/// The inner node over `l` and `r`.
pub open spec fn parent(l: MerkleNode, r: MerkleNode) -> MerkleNode {
    MerkleNode {
        hash_value: pair_digest(l.hash_value, r.hash_value),
        left_son: Some(Box::new(l)),
        right_son: Some(Box::new(r)),
    }
}

/// One level of the reduction: nodes are paired two at a time in order, and
/// the last node of an odd level is paired with itself.
pub open spec fn parents(ns: Seq<MerkleNode>) -> Seq<MerkleNode> {
    Seq::new(
        ((ns.len() + 1) / 2) as nat,
        |i: int|
            parent(ns[2 * i], if 2 * i + 1 < ns.len() { ns[2 * i + 1] } else { ns[2 * i] }),
    )
}

/// The node that a level reduces to once a single node is left.
pub open spec fn reduce(ns: Seq<MerkleNode>) -> MerkleNode
    decreases ns.len(),
{
    if ns.len() <= 1 {
        ns[0]
    } else {
        reduce(parents(ns))
    }
}

/// The tree built over the leaf digests `s`.
pub open spec fn tree_of(s: Seq<u64>) -> MerkleNode {
    reduce(s.map_values(|d: u64| leaf(d)))
}

/// One level of the reduction on digests alone.
pub open spec fn next_level(s: Seq<u64>) -> Seq<u64> {
    Seq::new(
        ((s.len() + 1) / 2) as nat,
        |i: int| pair_digest(s[2 * i], if 2 * i + 1 < s.len() { s[2 * i + 1] } else { s[2 * i] }),
    )
}

/// The root digest of the leaf digests `s`.
pub open spec fn root_of(s: Seq<u64>) -> u64
    decreases s.len(),
{
    if s.len() <= 1 {
        s[0]
    } else {
        root_of(next_level(s))
    }
}

/// The digest that one proof element makes of the running digest.
pub open spec fn step(running: u64, sibling: SiblingHash) -> u64 {
    match sibling {
        SiblingHash::Left(x) => pair_digest(x, running),
        SiblingHash::Right(x) => pair_digest(running, x),
    }
}

/// The digest that a proof makes of a leaf digest, consumed from its first
/// element to its last.
pub open spec fn fold_proof(d: u64, p: Seq<SiblingHash>) -> u64
    decreases p.len(),
{
    if p.len() == 0 {
        d
    } else {
        step(fold_proof(d, p.drop_last()), p.last())
    }
}

/// The digests of a sequence of transactions.
pub open spec fn digests_of<H: Transaction>(items: Seq<H>) -> Seq<u64> {
    items.map_values(|x: H| x.spec_digest())
}

/// The proof handed out for digest `d` by the tree over leaf digests `s`:
/// the one the search finds, or the empty proof where it finds nothing.
pub open spec fn proof_for(s: Seq<u64>, d: u64) -> Seq<SiblingHash> {
    match tree_of(s).search(d) {
        Some(p) => p,
        None => Seq::empty(),
    }
}

impl MerkleNode {
    /// Leaves have no children, inner nodes have two and carry the pair
    /// digest of theirs.
    pub open spec fn wf(self) -> bool
        decreases self,
    {
        match self.left_son {
            Some(l) => match self.right_son {
                Some(r) => l.wf() && r.wf() && self.hash_value == pair_digest(
                    l.hash_value,
                    r.hash_value,
                ),
                None => false,
            },
            None => self.right_son is None,
        }
    }

    /// Some node of this subtree, this one included, has digest `d`.
    pub open spec fn holds(self, d: u64) -> bool
        decreases self,
    {
        self.hash_value == d || (match self.left_son {
            Some(l) => l.holds(d),
            None => false,
        }) || (match self.right_son {
            Some(r) => r.holds(d),
            None => false,
        })
    }

    /// Depth-first search, left before right, for a child whose digest is
    /// `d`; on success, the siblings met from there up to this node.
    pub open spec fn search(self, d: u64) -> Option<Seq<SiblingHash>>
        decreases self,
    {
        match self.left_son {
            Some(l) => match self.right_son {
                Some(r) => if l.hash_value == d {
                    Some(seq![SiblingHash::Right(r.hash_value)])
                } else {
                    match l.search(d) {
                        Some(p) => Some(p.push(SiblingHash::Right(r.hash_value))),
                        None => if r.hash_value == d {
                            Some(seq![SiblingHash::Left(l.hash_value)])
                        } else {
                            match r.search(d) {
                                Some(p) => Some(p.push(SiblingHash::Left(l.hash_value))),
                                None => None,
                            }
                        },
                    }
                },
                None => None,
            },
            None => None,
        }
    }
}

/// Consuming one more proof element applies one more step.
proof fn lemma_fold_push(d: u64, p: Seq<SiblingHash>, x: SiblingHash)
    ensures
        fold_proof(d, p.push(x)) == step(fold_proof(d, p), x),
{
    assert(p.push(x).drop_last() =~= p);
}

/// A proof that the search finds leads from `d` to the node's digest.
proof fn lemma_search_sound(n: MerkleNode, d: u64)
    requires
        n.wf(),
        n.search(d) is Some,
    ensures
        fold_proof(d, n.search(d)->0) == n.hash_value,
    decreases n,
{
    let l = *n.left_son->0;
    let r = *n.right_son->0;
    if l.hash_value == d {
        assert(seq![SiblingHash::Right(r.hash_value)] =~= Seq::<SiblingHash>::empty().push(
            SiblingHash::Right(r.hash_value),
        ));
        lemma_fold_push(d, Seq::empty(), SiblingHash::Right(r.hash_value));
    } else if l.search(d) is Some {
        lemma_search_sound(l, d);
        lemma_fold_push(d, l.search(d)->0, SiblingHash::Right(r.hash_value));
    } else if r.hash_value == d {
        assert(seq![SiblingHash::Left(l.hash_value)] =~= Seq::<SiblingHash>::empty().push(
            SiblingHash::Left(l.hash_value),
        ));
        lemma_fold_push(d, Seq::empty(), SiblingHash::Left(l.hash_value));
    } else {
        lemma_search_sound(r, d);
        lemma_fold_push(d, r.search(d)->0, SiblingHash::Left(l.hash_value));
    }
}

/// The search finds `d` wherever a node below this one has digest `d`.
proof fn lemma_search_complete(n: MerkleNode, d: u64)
    requires
        n.wf(),
        n.holds(d),
        n.hash_value != d,
    ensures
        n.search(d) is Some,
    decreases n,
{
    let l = *n.left_son->0;
    let r = *n.right_son->0;
    if l.hash_value != d && l.holds(d) {
        lemma_search_complete(l, d);
    } else if l.hash_value != d && l.search(d) is None && r.hash_value != d {
        lemma_search_complete(r, d);
    }
}

/// The search only finds digests that the subtree holds.
proof fn lemma_search_held(n: MerkleNode, d: u64)
    requires
        n.search(d) is Some,
    ensures
        n.holds(d),
    decreases n,
{
    let l = *n.left_son->0;
    let r = *n.right_son->0;
    if l.hash_value != d && l.search(d) is Some {
        lemma_search_held(l, d);
    } else if l.hash_value != d && r.hash_value != d {
        lemma_search_held(r, d);
    } else {
        assert(l.holds(d) || r.holds(d));
    }
}

/// Reducing well-formed nodes gives a well-formed node.
proof fn lemma_reduce_wf(ns: Seq<MerkleNode>)
    requires
        ns.len() >= 1,
        forall|k: int| 0 <= k < ns.len() ==> #[trigger] ns[k].wf(),
    ensures
        reduce(ns).wf(),
    decreases ns.len(),
{
    if ns.len() > 1 {
        let ps = parents(ns);
        assert forall|i: int| 0 <= i < ps.len() implies #[trigger] ps[i].wf() by {
            let b = if 2 * i + 1 < ns.len() { ns[2 * i + 1] } else { ns[2 * i] };
            assert(ns[2 * i].wf() && b.wf());
        }
        lemma_reduce_wf(ps);
    }
}

/// A digest held by one node of a level is held by the reduced node.
proof fn lemma_reduce_holds(ns: Seq<MerkleNode>, k: int, d: u64)
    requires
        0 <= k < ns.len(),
        ns[k].holds(d),
    ensures
        reduce(ns).holds(d),
    decreases ns.len(),
{
    if ns.len() > 1 {
        let ps = parents(ns);
        let i = k / 2;
        assert(ps[i].holds(d));
        lemma_reduce_holds(ps, i, d);
    }
}

/// The digest of the reduced node is the root of the level's digests.
proof fn lemma_reduce_digest(ns: Seq<MerkleNode>)
    requires
        ns.len() >= 1,
    ensures
        reduce(ns).hash_value == root_of(ns.map_values(|n: MerkleNode| n.hash_value)),
    decreases ns.len(),
{
    let hs = ns.map_values(|n: MerkleNode| n.hash_value);
    if ns.len() > 1 {
        let ps = parents(ns);
        assert(ps.map_values(|n: MerkleNode| n.hash_value) =~= next_level(hs));
        lemma_reduce_digest(ps);
    }
}

/// The tree over non-empty leaf digests is well formed, carries their root
/// digest and holds each of them.
pub proof fn lemma_tree_of(s: Seq<u64>)
    requires
        s.len() > 0,
    ensures
        tree_of(s).wf(),
        tree_of(s).hash_value == root_of(s),
        forall|i: int| 0 <= i < s.len() ==> #[trigger] tree_of(s).holds(s[i]),
{
    let ns = s.map_values(|d: u64| leaf(d));
    assert forall|k: int| 0 <= k < ns.len() implies #[trigger] ns[k].wf() by {}
    lemma_reduce_wf(ns);
    assert(ns.map_values(|n: MerkleNode| n.hash_value) =~= s);
    lemma_reduce_digest(ns);
    assert forall|i: int| 0 <= i < s.len() implies #[trigger] tree_of(s).holds(s[i]) by {
        assert(ns[i].holds(s[i]));
        lemma_reduce_holds(ns, i, s[i]);
    }
}

/// Every digest that the tree holds, its leaves' among them, is accepted
/// with the proof that the tree hands out for it.
pub proof fn lemma_proof_for_held(s: Seq<u64>, d: u64)
    requires
        s.len() > 0,
        tree_of(s).holds(d),
    ensures
        fold_proof(d, proof_for(s, d)) == root_of(s),
{
    let t = tree_of(s);
    lemma_tree_of(s);
    if t.search(d) is Some {
        lemma_search_sound(t, d);
    } else if t.hash_value != d {
        lemma_search_complete(t, d);
    }
}

/// A digest that the tree does not hold gets the empty proof, which is
/// refused.
pub proof fn lemma_proof_for_foreign(s: Seq<u64>, d: u64)
    requires
        s.len() > 0,
        !tree_of(s).holds(d),
    ensures
        proof_for(s, d).len() == 0,
        fold_proof(d, proof_for(s, d)) != root_of(s),
{
    let t = tree_of(s);
    lemma_tree_of(s);
    if t.search(d) is Some {
        lemma_search_held(t, d);
    }
}

impl MerkleNode {
    /// A node with the given digest and children.
    pub fn new(
        hash_value: u64,
        left_son: Option<Box<MerkleNode>>,
        right_son: Option<Box<MerkleNode>>,
    ) -> (r: Self)
        ensures
            r == (MerkleNode { hash_value, left_son, right_son }),
    {
        Self { hash_value, left_son, right_son }
    }

    /// A deep copy of this node.
    fn duplicate(&self) -> (r: Self)
        ensures
            r == *self,
        decreases self,
    {
        let left_son = match &self.left_son {
            Some(l) => Some(Box::new(l.duplicate())),
            None => None,
        };
        let right_son = match &self.right_son {
            Some(r) => Some(Box::new(r.duplicate())),
            None => None,
        };
        MerkleNode { hash_value: self.hash_value, left_son, right_son }
    }

    /// The parent of `left_son` and `right_son`; with no right son, the
    /// left one is paired with a copy of itself.
    fn create_parent_from_siblings(left_son: MerkleNode, right_son: Option<MerkleNode>) -> (r:
        MerkleNode)
        ensures
            r == parent(
                left_son,
                match right_son {
                    Some(x) => x,
                    None => left_son,
                },
            ),
    {
        let right = match right_son {
            Some(x) => x,
            None => left_son.duplicate(),
        };
        let hash_value = hash_pair(left_son.hash_value, right.hash_value);
        MerkleNode::new(hash_value, Some(Box::new(left_son)), Some(Box::new(right)))
    }

    /// The next level up: the nodes paired two at a time in order.
    fn level_up(nodes: Vec<MerkleNode>) -> (r: Vec<MerkleNode>)
        ensures
            r@ == parents(nodes@),
    {
        let ghost orig = nodes@;
        let n = nodes.len();
        let mut nodes = nodes;
        // `pending` holds the nodes still to be paired, the next one last.
        let mut pending: Vec<MerkleNode> = Vec::new();
        while nodes.len() > 0
            invariant
                n == orig.len(),
                nodes.len() + pending.len() == n,
                nodes@ == orig.take(nodes.len() as int),
                forall|j: int| 0 <= j < pending.len() ==> pending@[j] == orig[n - 1 - j],
            decreases nodes.len(),
        {
            let x = nodes.pop().unwrap();
            pending.push(x);
        }
        let mut out: Vec<MerkleNode> = Vec::new();
        while pending.len() > 0
            invariant
                n == orig.len(),
                pending.len() <= n,
                2 * out.len() == n - pending.len() || (pending.len() == 0 && 2 * out.len() == n
                    + 1),
                forall|j: int| 0 <= j < pending.len() ==> pending@[j] == orig[n - 1 - j],
                forall|k: int| 0 <= k < out.len() ==> out@[k] == parents(orig)[k],
            decreases pending.len(),
        {
            let left = pending.pop().unwrap();
            let right = pending.pop();
            let p = Self::create_parent_from_siblings(left, right);
            out.push(p);
        }
        assert(out@ =~= parents(orig));
        out
    }

    /// The root of the tree over the leaf digests `digests`.
    fn build_root(digests: &Vec<u64>) -> (r: MerkleNode)
        requires
            digests.len() > 0,
        ensures
            r == tree_of(digests@),
    {
        let ghost leaves = digests@.map_values(|d: u64| leaf(d));
        let mut nodes: Vec<MerkleNode> = Vec::new();
        let mut i: usize = 0;
        while i < digests.len()
            invariant
                i <= digests.len(),
                leaves == digests@.map_values(|d: u64| leaf(d)),
                nodes@ =~= leaves.take(i as int),
            decreases digests.len() - i,
        {
            nodes.push(MerkleNode::new(digests[i], None, None));
            assert(leaves.take(i + 1) =~= leaves.take(i as int).push(leaves[i as int]));
            i = i + 1;
        }
        assert(nodes@ =~= leaves);
        while nodes.len() > 1
            invariant
                nodes.len() >= 1,
                leaves == digests@.map_values(|d: u64| leaf(d)),
                reduce(nodes@) == reduce(leaves),
            decreases nodes.len(),
        {
            nodes = Self::level_up(nodes);
        }
        nodes.pop().unwrap()
    }
}

/// A Merkle tree over an ordered, non-empty list of transactions, with the
/// list kept so that the tree can be rebuilt when one is appended.
pub struct MerkleTree<H: Transaction> {
    merkle_root: MerkleNode,
    leafs: Vec<H>,
}

impl<H: Transaction> View for MerkleTree<H> {
    type V = Seq<H>;

    /// The transactions, in order.
    closed spec fn view(&self) -> Seq<H> {
        self.leafs@
    }
}

impl<H: Transaction> MerkleTree<H> {
    /// The list is not empty and the root is the tree built over its digests.
    pub closed spec fn wf(self) -> bool {
        &&& self.leafs.len() > 0
        &&& self.merkle_root == tree_of(digests_of(self.leafs@))
    }

    /// The digest stored at the root.
    pub closed spec fn root_digest(self) -> u64 {
        self.merkle_root.hash_value
    }

    /// A well-formed tree holds at least one transaction, and its root
    /// digest is the root of their digests.
    pub proof fn lemma_wf(self)
        requires
            self.wf(),
        ensures
            self@.len() > 0,
            self.root_digest() == root_of(digests_of(self@)),
    {
        lemma_tree_of(digests_of(self.leafs@));
    }

    /// Builds the tree over `transactions`; fails on an empty list.
    pub fn new(transactions: Vec<H>) -> (r: Result<Self, MerkleError>)
        ensures
            transactions.len() == 0 ==> r == Err::<Self, MerkleError>(MerkleError::EmptyInput),
            transactions.len() > 0 ==> r is Ok && r->Ok_0.wf() && r->Ok_0@ == transactions@,
    {
        Self::create_tree(transactions)
    }

    fn create_tree(transactions: Vec<H>) -> (r: Result<Self, MerkleError>)
        ensures
            transactions.len() == 0 ==> r == Err::<Self, MerkleError>(MerkleError::EmptyInput),
            transactions.len() > 0 ==> r is Ok && r->Ok_0.wf() && r->Ok_0@ == transactions@,
    {
        match Self::root_for(&transactions) {
            Ok(root) => Ok(Self { merkle_root: root, leafs: transactions }),
            Err(e) => Err(e),
        }
    }

    /// The root node over `transactions`, or `EmptyInput` for an empty list.
    fn root_for(transactions: &Vec<H>) -> (r: Result<MerkleNode, MerkleError>)
        ensures
            transactions.len() == 0 ==> r == Err::<MerkleNode, MerkleError>(
                MerkleError::EmptyInput,
            ),
            transactions.len() > 0 ==> r == Ok::<MerkleNode, MerkleError>(
                tree_of(digests_of(transactions@)),
            ),
    {
        if transactions.len() == 0 {
            return Err(MerkleError::EmptyInput);
        }
        let digests = Self::get_hashes_of_transactions(transactions);
        Ok(MerkleNode::build_root(&digests))
    }

    fn get_hashes_of_transactions(transactions: &Vec<H>) -> (r: Vec<u64>)
        ensures
            r@ == digests_of(transactions@),
    {
        let mut digests: Vec<u64> = Vec::new();
        let mut i: usize = 0;
        while i < transactions.len()
            invariant
                i <= transactions.len(),
                digests.len() == i,
                forall|k: int| 0 <= k < i ==> digests@[k] == (#[trigger] transactions@[k]).spec_digest(),
            decreases transactions.len() - i,
        {
            digests.push(transactions[i].digest());
            i = i + 1;
        }
        assert(digests@ =~= digests_of(transactions@));
        digests
    }

    /// The root digest.
    pub fn root_hash(&self) -> (r: u64)
        requires
            self.wf(),
        ensures
            r == self.root_digest(),
            r == root_of(digests_of(self@)),
    {
        proof {
            self.lemma_wf();
        }
        self.merkle_root.hash_value
    }

    /// Whether `proof` leads from the digest of `transaction` to the root.
    pub fn verify(&mut self, transaction: H, proof: Vec<SiblingHash>) -> (r: bool)
        requires
            old(self).wf(),
        ensures
            *final(self) == *old(self),
            r == (fold_proof(transaction.spec_digest(), proof@) == root_of(digests_of(old(self)@))),
    {
        let ghost d = transaction.spec_digest();
        let mut running = transaction.digest();
        let mut i: usize = 0;
        while i < proof.len()
            invariant
                i <= proof.len(),
                running == fold_proof(d, proof@.take(i as int)),
            decreases proof.len() - i,
        {
            proof {
                assert(proof@.take(i + 1).drop_last() =~= proof@.take(i as int));
            }
            running =
            match proof[i] {
                SiblingHash::Left(x) => hash_pair(x, running),
                SiblingHash::Right(x) => hash_pair(running, x),
            };
            i = i + 1;
        }
        proof {
            assert(proof@.take(i as int) =~= proof@);
            self.lemma_wf();
        }
        running == self.merkle_root.hash_value
    }

    fn recursive_get_proof(
        current_node: &MerkleNode,
        proof: &mut Vec<SiblingHash>,
        transaction_hash: u64,
    ) -> (r: bool)
        requires
            current_node.wf(),
        ensures
            r == current_node.search(transaction_hash) is Some,
            r ==> final(proof)@ == old(proof)@ + current_node.search(transaction_hash)->0,
            !r ==> final(proof)@ == old(proof)@,
        decreases current_node,
    {
        let ghost start = proof@;
        match &current_node.left_son {
            Some(left) => match &current_node.right_son {
                Some(right) => {
                    if left.hash_value == transaction_hash {
                        proof.push(SiblingHash::Right(right.hash_value));
                        assert(proof@ =~= start + seq![SiblingHash::Right(right.hash_value)]);
                        return true;
                    }
                    if Self::recursive_get_proof(&**left, proof, transaction_hash) {
                        let ghost found = left.search(transaction_hash)->0;
                        proof.push(SiblingHash::Right(right.hash_value));
                        assert(proof@ =~= start + found.push(SiblingHash::Right(right.hash_value)));
                        return true;
                    }
                    if right.hash_value == transaction_hash {
                        proof.push(SiblingHash::Left(left.hash_value));
                        assert(proof@ =~= start + seq![SiblingHash::Left(left.hash_value)]);
                        return true;
                    }
                    if Self::recursive_get_proof(&**right, proof, transaction_hash) {
                        let ghost found = right.search(transaction_hash)->0;
                        proof.push(SiblingHash::Left(left.hash_value));
                        assert(proof@ =~= start + found.push(SiblingHash::Left(left.hash_value)));
                        return true;
                    }
                    false
                },
                None => false,
            },
            None => false,
        }
    }

    /// The proof for `transaction`: the siblings from the first node found,
    /// depth first and left before right, whose digest is the transaction's,
    /// up to the root; empty where no node below the root has that digest.
    pub fn get_proof(&mut self, transaction: H) -> (r: Vec<SiblingHash>)
        requires
            old(self).wf(),
        ensures
            *final(self) == *old(self),
            r@ == proof_for(digests_of(old(self)@), transaction.spec_digest()),
    {
        let mut proof: Vec<SiblingHash> = Vec::new();
        let transaction_hash = transaction.digest();
        proof {
            lemma_tree_of(digests_of(self.leafs@));
        }
        let found = Self::recursive_get_proof(&self.merkle_root, &mut proof, transaction_hash);
        proof {
            if found {
                assert(proof@ =~= self.merkle_root.search(transaction_hash)->0);
            }
        }
        proof
    }

    /// Appends `transaction` and rebuilds the tree over the longer list.
    pub fn add(&mut self, transaction: H) -> (r: Result<(), MerkleError>)
        requires
            old(self).wf(),
        ensures
            r is Ok,
            final(self).wf(),
            final(self)@ == old(self)@.push(transaction),
    {
        self.leafs.push(transaction);
        match Self::root_for(&self.leafs) {
            Ok(root) => {
                self.merkle_root = root;
                Ok(())
            },
            Err(_) => Err(MerkleError::RebuildFailed),
        }
    }
}

} // verus!
