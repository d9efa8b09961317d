use apec_cert::hash::{hash_leaf, hash_pair_sorted};
use apec_cert::merkle::merkle_verify;

fn b32(x: u8) -> [u8; 32] {
    [x; 32]
}

fn keccak(parts: &[&[u8]]) -> [u8; 32] {
    solana_keccak_hasher::hashv(parts).to_bytes()
}

#[test]
fn single_leaf_empty_proof_verifies() {
    let leaf = b32(7);
    assert!(merkle_verify(vec![], leaf, leaf));
}

#[test]
fn empty_proof_nonmatching_root_fails() {
    let leaf = b32(7);
    let root = b32(8);
    assert!(!merkle_verify(vec![], root, leaf));
}

#[test]
fn leaf_hash_matches_keccak_of_identity() {
    let id = b32(3);
    let leaf = hash_leaf(&id);
    assert_eq!(leaf, keccak(&[&id]));
    assert_ne!(leaf, id);
}

#[test]
fn pair_hash_orders_the_pair_before_hashing() {
    let lo = b32(1);
    let hi = b32(2);
    let expected = keccak(&[&lo, &hi]);
    assert_eq!(hash_pair_sorted(&lo, &hi), expected);
    assert_eq!(hash_pair_sorted(&hi, &lo), expected);
}

#[test]
fn pair_hash_commutes() {
    let a = hash_leaf(&b32(10));
    let b = hash_leaf(&b32(11));
    assert_eq!(hash_pair_sorted(&a, &b), hash_pair_sorted(&b, &a));
}

#[test]
fn pair_hash_of_equal_children_is_well_defined() {
    let a = hash_leaf(&b32(10));
    assert_eq!(hash_pair_sorted(&a, &a), keccak(&[&a, &a]));
}

#[test]
fn four_leaf_tree_all_proofs_verify() {
    let leaves: Vec<[u8; 32]> = (0u8..4).map(|i| hash_leaf(&b32(i))).collect();
    let p0 = hash_pair_sorted(&leaves[0], &leaves[1]);
    let p1 = hash_pair_sorted(&leaves[2], &leaves[3]);
    let root = hash_pair_sorted(&p0, &p1);

    assert!(merkle_verify(vec![leaves[1], p1], root, leaves[0]));
    assert!(merkle_verify(vec![leaves[0], p1], root, leaves[1]));
    assert!(merkle_verify(vec![leaves[3], p0], root, leaves[2]));
    assert!(merkle_verify(vec![leaves[2], p0], root, leaves[3]));
}

#[test]
fn flipping_one_bit_anywhere_breaks_verification() {
    let leaves: Vec<[u8; 32]> = (0u8..4).map(|i| hash_leaf(&b32(i))).collect();
    let p0 = hash_pair_sorted(&leaves[0], &leaves[1]);
    let p1 = hash_pair_sorted(&leaves[2], &leaves[3]);
    let root = hash_pair_sorted(&p0, &p1);
    assert!(merkle_verify(vec![leaves[1], p1], root, leaves[0]));

    // a flipped bit in either proof element
    for elem in 0..2 {
        let mut siblings = vec![leaves[1], p1];
        siblings[elem][5] ^= 0x10;
        assert!(!merkle_verify(siblings, root, leaves[0]));
    }
    // a flipped bit in the leaf
    let mut bad_leaf = leaves[0];
    bad_leaf[31] ^= 0x01;
    assert!(!merkle_verify(vec![leaves[1], p1], root, bad_leaf));
    // a flipped bit in the root
    let mut bad_root = root;
    bad_root[0] ^= 0x80;
    assert!(!merkle_verify(vec![leaves[1], p1], bad_root, leaves[0]));
}
