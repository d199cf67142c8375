use interpreter::digest::{get_path, Digest};
use interpreter::hashes::leaf_hash;
use interpreter::table::DefaultHashTable;
use interpreter::tree::{compute_root, SparseMerkleTree};

fn addr(e0: u64, e1: u64, e2: u64, e3: u64) -> Digest {
    Digest::new(e0, e1, e2, e3)
}

#[test]
fn empty_tree_root_is_default() {
    let tree = SparseMerkleTree::new();
    let table = DefaultHashTable::new();
    assert_eq!(tree.root(), table.get(0));
}

#[test]
fn default_table_levels_differ() {
    // The combine hash really mixes its input: consecutive levels of the
    // default table must not collide, and the deepest level is the
    // canonical empty leaf, the leaf hash of the zero value.
    let table = DefaultHashTable::new();
    assert_eq!(table.get(256), leaf_hash(0));
    assert_ne!(table.get(256), Digest::new(0, 0, 0, 0));
    assert_ne!(table.get(255), table.get(256));
    assert_ne!(table.get(0), table.get(1));
    assert_ne!(table.get(0), table.get(256));
}

#[test]
fn insert_round_trip() {
    let mut tree = SparseMerkleTree::new();
    let a = addr(0x1234567890ABCDEF, 0xFEDCBA0987654321, 0x0A1B2C3D4E5F6A7B, 0x8C9DAEBFC0D1E2F3);
    tree.insert(a, 42);
    let path = get_path(&a);
    let pf = tree.get_merkle_proof(&path);
    let recomputed = compute_root(leaf_hash(42), &path, &pf);
    assert_eq!(recomputed, tree.root());
    assert!(tree.verify(a, 42));
}

#[test]
fn insert_idempotent() {
    let mut once = SparseMerkleTree::new();
    let mut twice = SparseMerkleTree::new();
    let a = addr(1, 2, 3, 4);
    once.insert(a, 7);
    twice.insert(a, 7);
    twice.insert(a, 7);
    assert_eq!(once.root(), twice.root());
}

#[test]
fn insert_order_independent() {
    let a1 = addr(1, 0, 0, 0);
    let a2 = addr(0, 0, 0, 1);
    let mut forward = SparseMerkleTree::new();
    forward.insert(a1, 10);
    forward.insert(a2, 20);
    let mut backward = SparseMerkleTree::new();
    backward.insert(a2, 20);
    backward.insert(a1, 10);
    assert_eq!(forward.root(), backward.root());
}

#[test]
fn insert_order_independent_adjacent_leaves() {
    // Addresses that differ only in the lowest bit of the lowest word
    // share all but the last path bit: the deepest possible divergence.
    let a1 = addr(0x10, 0, 0, 0);
    let a2 = addr(0x11, 0, 0, 0);
    let mut forward = SparseMerkleTree::new();
    forward.insert(a1, 10);
    forward.insert(a2, 20);
    let mut backward = SparseMerkleTree::new();
    backward.insert(a2, 20);
    backward.insert(a1, 10);
    assert_eq!(forward.root(), backward.root());
}

#[test]
fn unwritten_prefixes_hold_defaults() {
    let tree = SparseMerkleTree::new();
    let table = DefaultHashTable::new();
    assert_eq!(tree.get_digest(&Vec::new()), table.get(0));
    assert_eq!(tree.get_digest(&vec![true, false, true]), table.get(3));
    assert_eq!(tree.get_digest(&vec![false; 256]), table.get(256));
}

#[test]
fn proof_length_fixed() {
    let mut tree = SparseMerkleTree::new();
    let a = addr(5, 6, 7, 8);
    let path = get_path(&a);
    assert_eq!(tree.get_merkle_proof(&path).len(), 256);
    tree.insert(a, 1);
    tree.insert(addr(9, 9, 9, 9), 2);
    tree.insert(addr(3, 1, 4, 1), 3);
    assert_eq!(tree.get_merkle_proof(&path).len(), 256);
}

#[test]
fn overwrite_changes_commitment() {
    let mut tree = SparseMerkleTree::new();
    let a = addr(11, 22, 33, 44);
    tree.insert(a, 1);
    let root_one = tree.root();
    tree.insert(a, 2);
    assert!(tree.verify(a, 2));
    assert!(!tree.verify(a, 1));
    assert_ne!(root_one, tree.root());
}

#[test]
fn verify_rejects_unwritten_address() {
    let mut tree = SparseMerkleTree::new();
    tree.insert(addr(1, 1, 1, 1), 5);
    // The leaf of an address that was never written is absent, so the
    // commitment check must fail even for the default value.
    assert!(!tree.verify(addr(2, 2, 2, 2), 0));
}
