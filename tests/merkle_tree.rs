use merkle_tree::digest::Transaction;
use merkle_tree::merkle_tree::{MerkleError, MerkleTree, SiblingHash};
use std::collections::hash_map::DefaultHasher;
use std::hash::{Hash, Hasher};

fn std_digest<T: Hash + ?Sized>(value: &T) -> u64 {
    let mut hasher = DefaultHasher::new();
    value.hash(&mut hasher);
    hasher.finish()
}

fn std_pair(left: u64, right: u64) -> u64 {
    let mut hasher = DefaultHasher::new();
    left.hash(&mut hasher);
    right.hash(&mut hasher);
    hasher.finish()
}

fn strings(items: &[&str]) -> Vec<String> {
    items.iter().map(|s| String::from(*s)).collect()
}

#[test]
fn cant_create_a_merkle_tree_without_transactions() {
    let transactions: Vec<String> = Vec::new();
    let merkle_tree = MerkleTree::new(transactions);

    assert!(merkle_tree.is_err());
}

#[test]
fn a_merkle_tree_can_contain_one_transaction() {
    let transactions = vec![String::from("A")];
    let mut merkle_tree = MerkleTree::new(transactions.clone()).unwrap();
    let transaction = transactions[0].clone();
    let proof = merkle_tree.get_proof(transaction.clone());

    assert!(merkle_tree.verify(transaction, proof))
}

#[test]
fn a_merkle_tree_can_contain_one_level_of_transactions() {
    let transactions = vec![String::from("A"), String::from("B")];
    let mut merkle_tree = MerkleTree::new(transactions.clone()).unwrap();
    let transaction = transactions[0].clone();
    let proof = merkle_tree.get_proof(transaction.clone());

    assert!(merkle_tree.verify(transaction, proof));
}

#[test]
fn a_merkle_tree_can_contain_two_level_of_transactions() {
    let transactions = vec![
        String::from("A"),
        String::from("B"),
        String::from("C"),
        String::from("D"),
    ];
    let mut merkle_tree = MerkleTree::new(transactions.clone()).unwrap();
    let transaction = transactions[0].clone();
    let proof = merkle_tree.get_proof(transaction.clone());

    assert!(merkle_tree.verify(transaction, proof));
}

#[test]
fn a_merkle_tree_can_contain_an_odd_number_of_transactions() {
    let transactions = vec![String::from("A"), String::from("B"), String::from("C")];
    let mut merkle_tree = MerkleTree::new(transactions.clone()).unwrap();
    let transaction = transactions[0].clone();
    let proof = merkle_tree.get_proof(transaction.clone());

    assert!(merkle_tree.verify(transaction, proof));
}

#[test]
fn a_merkle_tree_can_contain_multiple_levels_of_transactions() {
    let transactions = vec![
        String::from("A"),
        String::from("B"),
        String::from("C"),
        String::from("D"),
        String::from("E"),
        String::from("F"),
    ];
    let mut merkle_tree = MerkleTree::new(transactions.clone()).unwrap();
    let transaction = transactions[0].clone();
    let proof = merkle_tree.get_proof(transaction.clone());

    assert!(merkle_tree.verify(transaction, proof));
}

#[test]
fn a_merkle_tree_can_add_new_elements() {
    let transactions = vec![String::from("A")];
    let mut merkle_tree = MerkleTree::new(transactions.clone()).unwrap();
    let transaction = transactions[0].clone();
    let proof = merkle_tree.get_proof(transaction.clone());

    assert_eq!(proof.len(), 0);
    assert!(merkle_tree.verify(transaction, proof));

    merkle_tree.add(String::from("B")).unwrap();
    let transaction = transactions[0].clone();
    let proof = merkle_tree.get_proof(transaction.clone());
    assert_eq!(proof.len(), 1);
    assert!(merkle_tree.verify(transaction, proof));
}

#[test]
fn a_merkle_tree_cant_verify_a_transaction_if_not_present() {
    let transactions = vec![String::from("A"), String::from("B")];
    let mut merkle_tree = MerkleTree::new(transactions.clone()).unwrap();
    let transaction = String::from("C");
    let proof = merkle_tree.get_proof(transaction.clone());

    assert!(!merkle_tree.verify(transaction, proof));
}

#[test]
fn a_merkle_tree_can_have_generic_transactions() {
    let transactions = vec![1000, 1500, 2000, 3000, 4000, 5500, 7000, 8700];
    let mut merkle_tree = MerkleTree::new(transactions.clone()).unwrap();
    let transaction = transactions[0].clone();
    let proof = merkle_tree.get_proof(transaction.clone());

    assert!(merkle_tree.verify(transaction, proof));

    let transactions = vec![
        "De aquel amor",
        "De musica ligera",
        "Nada nos libra,",
        "Nada mas queda",
    ];
    let mut merkle_tree = MerkleTree::new(transactions.clone()).unwrap();
    let transaction = transactions[0];
    let proof = merkle_tree.get_proof(transaction);

    assert!(merkle_tree.verify(transaction, proof));
}

#[test]
fn empty_input_is_the_error() {
    let result = MerkleTree::<String>::new(Vec::new());
    assert!(matches!(result, Err(MerkleError::EmptyInput)));
}

#[test]
fn every_leaf_round_trips() {
    let transactions = strings(&["A", "B", "C", "D", "E", "F", "G"]);
    let mut tree = MerkleTree::new(transactions.clone()).unwrap();
    for t in transactions {
        let proof = tree.get_proof(t.clone());
        assert!(tree.verify(t, proof));
    }
}

#[test]
fn absent_item_gets_empty_proof_and_is_refused() {
    let mut tree = MerkleTree::new(strings(&["A", "B", "C", "D"])).unwrap();
    let proof = tree.get_proof(String::from("Z"));
    assert!(proof.is_empty());
    assert!(!tree.verify(String::from("Z"), proof));
}

#[test]
fn single_leaf_tree_refuses_other_item() {
    let mut tree = MerkleTree::new(strings(&["A"])).unwrap();
    let own = tree.get_proof(String::from("A"));
    assert!(own.is_empty());
    assert!(tree.verify(String::from("A"), own));
    let other = tree.get_proof(String::from("B"));
    assert!(other.is_empty());
    assert!(!tree.verify(String::from("B"), other));
    assert_eq!(tree.root_hash(), std_digest("A"));
}

#[test]
fn same_list_gives_same_root() {
    let a = MerkleTree::new(strings(&["A", "B", "C"])).unwrap();
    let b = MerkleTree::new(strings(&["A", "B", "C"])).unwrap();
    assert_eq!(a.root_hash(), b.root_hash());
}

#[test]
fn order_changes_the_root() {
    let ab = MerkleTree::new(strings(&["A", "B"])).unwrap();
    let ba = MerkleTree::new(strings(&["B", "A"])).unwrap();
    assert_ne!(ab.root_hash(), ba.root_hash());
}

#[test]
fn odd_level_pairs_last_leaf_with_itself() {
    let mut tree = MerkleTree::new(strings(&["A", "B", "C"])).unwrap();
    let (a, b, c) = (std_digest("A"), std_digest("B"), std_digest("C"));
    assert_eq!(tree.root_hash(), std_pair(std_pair(a, b), std_pair(c, c)));
    let proof = tree.get_proof(String::from("C"));
    assert_eq!(proof, vec![SiblingHash::Right(c), SiblingHash::Left(std_pair(a, b))]);
    assert!(tree.verify(String::from("C"), proof));
}

#[test]
fn append_grows_the_proof_and_changes_the_root() {
    let mut tree = MerkleTree::new(strings(&["A"])).unwrap();
    let before = tree.root_hash();
    assert_eq!(tree.add(String::from("B")), Ok(()));
    let proof = tree.get_proof(String::from("A"));
    assert_eq!(proof, vec![SiblingHash::Right(std_digest("B"))]);
    assert!(tree.verify(String::from("A"), proof));
    assert_ne!(tree.root_hash(), before);
    assert_eq!(tree.root_hash(), std_pair(std_digest("A"), std_digest("B")));
}

#[test]
fn four_leaves_root_and_proof() {
    let mut tree = MerkleTree::new(strings(&["A", "B", "C", "D"])).unwrap();
    let (a, b, c, d) = (std_digest("A"), std_digest("B"), std_digest("C"), std_digest("D"));
    assert_eq!(tree.root_hash(), std_pair(std_pair(a, b), std_pair(c, d)));
    let proof = tree.get_proof(String::from("A"));
    assert_eq!(proof, vec![SiblingHash::Right(b), SiblingHash::Right(std_pair(c, d))]);
    assert!(tree.verify(String::from("A"), proof));
}

#[test]
fn proof_for_right_leaf_is_tagged_left() {
    let mut tree = MerkleTree::new(strings(&["A", "B", "C", "D"])).unwrap();
    let (a, b, d) = (std_digest("A"), std_digest("B"), std_digest("D"));
    let proof = tree.get_proof(String::from("D"));
    assert_eq!(proof, vec![SiblingHash::Left(std_digest("C")), SiblingHash::Left(std_pair(a, b))]);
    assert_eq!(std_pair(std_pair(a, b), std_pair(std_digest("C"), d)), tree.root_hash());
    assert!(tree.verify(String::from("D"), proof));
}

#[test]
fn tampered_proof_is_refused() {
    let mut tree = MerkleTree::new(strings(&["A", "B", "C", "D"])).unwrap();
    let proof = tree.get_proof(String::from("A"));
    let swapped: Vec<SiblingHash> = proof
        .iter()
        .map(|s| match s {
            SiblingHash::Left(x) => SiblingHash::Right(*x),
            SiblingHash::Right(x) => SiblingHash::Left(*x),
        })
        .collect();
    assert!(!tree.verify(String::from("A"), swapped));
    assert!(!tree.verify(String::from("B"), proof));
}

#[test]
fn item_digests_match_std_hashing() {
    assert_eq!(String::from("A").digest(), std_digest("A"));
    assert_eq!("De aquel amor".digest(), std_digest("De aquel amor"));
    assert_eq!(1000i32.digest(), std_digest(&1000i32));
    assert_ne!(1000i32.digest(), 1000u64);
}

#[test]
fn integer_tree_root_matches_std_hashing() {
    let tree = MerkleTree::new(vec![1000, 1500]).unwrap();
    assert_eq!(tree.root_hash(), std_pair(std_digest(&1000i32), std_digest(&1500i32)));
}
