//! What holds of every tree: proofs of membership are accepted, proofs for
//! outsiders are refused, the root depends on the list alone, and the shapes
//! that odd levels and appends give.

use crate::digest::{pair_digest, Transaction};
use crate::merkle_tree::{
    digests_of, fold_proof, lemma_proof_for_foreign, lemma_proof_for_held, lemma_tree_of, leaf,
    parent, parents, proof_for, reduce, root_of, tree_of, MerkleTree, SiblingHash,
};
use vstd::prelude::*;

verus! {

/// For every transaction `x` of a tree, the proof that `get_proof` hands out
/// for `x` is accepted by `verify`.
pub proof fn lemma_round_trip<H: Transaction>(tree: MerkleTree<H>, x: H)
    requires
        tree@.contains(x),
    ensures
        fold_proof(x.spec_digest(), proof_for(digests_of(tree@), x.spec_digest())) == root_of(
            digests_of(tree@),
        ),
{
    let s = digests_of(tree@);
    let i = choose|i: int| 0 <= i < tree@.len() && tree@[i] == x;
    lemma_tree_of(s);
    assert(s[i] == x.spec_digest());
    lemma_proof_for_held(s, x.spec_digest());
}

/// For a `y` that is not a transaction of the tree, the proof that
/// `get_proof` hands out for `y` is refused by `verify`, provided that no
/// node of the tree has the digest of `y` (a collision of digests).
pub proof fn lemma_outsider_refused<H: Transaction>(tree: MerkleTree<H>, y: H)
    requires
        tree.wf(),
        !tree@.contains(y),
        !tree_of(digests_of(tree@)).holds(y.spec_digest()),
    ensures
        proof_for(digests_of(tree@), y.spec_digest()).len() == 0,
        fold_proof(y.spec_digest(), proof_for(digests_of(tree@), y.spec_digest())) != root_of(
            digests_of(tree@),
        ),
{
    tree.lemma_wf();
    lemma_proof_for_foreign(digests_of(tree@), y.spec_digest());
}

/// Two trees over the same ordered list have the same root digest.
pub proof fn lemma_deterministic<H: Transaction>(a: MerkleTree<H>, b: MerkleTree<H>)
    requires
        a.wf(),
        b.wf(),
        a@ == b@,
    ensures
        a.root_digest() == b.root_digest(),
{
    a.lemma_wf();
    b.lemma_wf();
}

/// Over three transactions the third is paired with a copy of itself: the
/// root is `H(H(a, b), H(c, c))`, the proof `[Right(c), Left(H(a, b))]`
/// leads from `c` to it, and it is the proof handed out for `c` when the
/// digest of `c` is none of the other node digests met before it.
pub proof fn lemma_odd_duplication<H: Transaction>(a: H, b: H, c: H)
    ensures
        ({
            let (da, db, dc) = (a.spec_digest(), b.spec_digest(), c.spec_digest());
            let s = digests_of(seq![a, b, c]);
            let p = seq![SiblingHash::Right(dc), SiblingHash::Left(pair_digest(da, db))];
            &&& root_of(s) == pair_digest(pair_digest(da, db), pair_digest(dc, dc))
            &&& fold_proof(dc, p) == root_of(s)
            &&& (dc != da && dc != db && dc != pair_digest(da, db) && dc != pair_digest(dc, dc))
                ==> proof_for(s, dc) == p
        }),
{
    let (da, db, dc) = (a.spec_digest(), b.spec_digest(), c.spec_digest());
    let s = digests_of(seq![a, b, c]);
    assert(s =~= seq![da, db, dc]);
    let ls = s.map_values(|d: u64| leaf(d));
    let low = parent(leaf(da), leaf(db));
    let high = parent(leaf(dc), leaf(dc));
    assert(parents(ls) =~= seq![low, high]);
    assert(parents(seq![low, high]) =~= seq![parent(low, high)]);
    assert(reduce(ls) == reduce(seq![low, high]));
    assert(reduce(seq![low, high]) == reduce(seq![parent(low, high)]));
    assert(tree_of(s) == parent(low, high));
    lemma_tree_of(s);
    let p = seq![SiblingHash::Right(dc), SiblingHash::Left(pair_digest(da, db))];
    assert(p.drop_last() =~= seq![SiblingHash::Right(dc)]);
    assert(p.drop_last().drop_last() =~= Seq::<SiblingHash>::empty());
    assert(fold_proof(dc, p.drop_last().drop_last()) == dc);
    assert(p.drop_last().last() == SiblingHash::Right(dc));
    assert(fold_proof(dc, p.drop_last()) == pair_digest(dc, dc));
    assert(fold_proof(dc, p) == root_of(s));
    if dc != da && dc != db && dc != pair_digest(da, db) && dc != pair_digest(dc, dc) {
        assert(leaf(da).search(dc) is None);
        assert(leaf(db).search(dc) is None);
        assert(low.search(dc) is None);
        assert(high.search(dc) == Some(seq![SiblingHash::Right(dc)]));
        assert(seq![SiblingHash::Right(dc)].push(SiblingHash::Left(pair_digest(da, db))) =~= p);
        assert(tree_of(s).search(dc) == Some(p));
    }
}

/// Appending `b` to the tree over `[a]` gives a tree in which the proof for
/// `a` has one element and is accepted.
pub proof fn lemma_append_growth<H: Transaction>(before: Seq<H>, a: H, b: H)
    requires
        before == seq![a],
    ensures
        proof_for(digests_of(before.push(b)), a.spec_digest()).len() == 1,
        fold_proof(a.spec_digest(), proof_for(digests_of(before.push(b)), a.spec_digest()))
            == root_of(digests_of(before.push(b))),
{
    let s = digests_of(before.push(b));
    assert(s =~= seq![a.spec_digest(), b.spec_digest()]);
    let ls = s.map_values(|d: u64| leaf(d));
    let top = parent(leaf(a.spec_digest()), leaf(b.spec_digest()));
    assert(parents(ls) =~= seq![top]);
    assert(reduce(ls) == reduce(seq![top]));
    assert(tree_of(s) == top);
    assert(top.search(a.spec_digest()) == Some(seq![SiblingHash::Right(b.spec_digest())]));
    lemma_tree_of(s);
    assert(tree_of(s).holds(s[0]));
    lemma_proof_for_held(s, a.spec_digest());
}

} // verus!
