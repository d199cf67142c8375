use interpreter::digest::get_path;
use interpreter::hashes::{address_of, leaf_hash};
use interpreter::machine::{Interpreter, VerificationError};
use interpreter::tree::compute_root;
use interpreter::txn::Transaction;

#[test]
fn transit_rejected_leaves_state_unchanged() {
    let mut interp = Interpreter::new();
    let vk = vec![1u8, 2, 3, 4];
    let a = address_of(&vk);
    interp.insert(a, 7);
    let root_before = interp.root();
    let tx = Transaction {
        vk: vk.clone(),
        proof_data: vec![0xde, 0xad],
        common: vec![0xbe, 0xef],
        new_value: 9,
    };
    let r = interp.transit(tx, false);
    assert_eq!(r, Err(VerificationError));
    assert_eq!(interp.root(), root_before);
    let (value, _) = interp.prove(a);
    assert_eq!(value, 7);
}

#[test]
fn transit_scenario() {
    // A fresh machine: reading any address yields zero with a proof that
    // recombines to the all-default root; a transition that the (stubbed,
    // all-accepting) verifier lets through commits the new value, moves
    // the root, and the next read proves the new value against it.
    let mut interp = Interpreter::new();
    let vk = vec![10u8, 20, 30];
    let a = address_of(&vk);
    let root_empty = interp.root();
    let (v0, pf0) = interp.prove(a);
    assert_eq!(v0, 0);
    assert_eq!(pf0.len(), 256);
    let path = get_path(&a);
    assert_eq!(compute_root(leaf_hash(0), &path, &pf0), root_empty);
    let tx = Transaction { vk, proof_data: pf0_bytes(&pf0), common: Vec::new(), new_value: 5 };
    let r = interp.transit(tx, true);
    assert_eq!(r, Ok(()));
    let root_after = interp.root();
    assert_ne!(root_after, root_empty);
    let (v1, pf1) = interp.prove(a);
    assert_eq!(v1, 5);
    assert_eq!(compute_root(leaf_hash(5), &path, &pf1), root_after);
}

fn pf0_bytes(pf: &[interpreter::digest::Digest]) -> Vec<u8> {
    let mut out = Vec::new();
    for d in pf {
        out.extend_from_slice(&interpreter::hashes::digest_to_bytes(d));
    }
    out
}

#[test]
fn prove_is_stable_across_calls() {
    let mut interp = Interpreter::new();
    let a = address_of(&[42u8]);
    let (v0, _) = interp.prove(a);
    assert_eq!(v0, 0);
    interp.insert(address_of(&[43u8]), 100);
    let (v1, _) = interp.prove(a);
    assert_eq!(v1, 0);
}

#[test]
fn insert_then_prove_reads_back() {
    let mut interp = Interpreter::new();
    let a = address_of(&[7u8, 7, 7]);
    interp.insert(a, 1234);
    let (v, _) = interp.prove(a);
    assert_eq!(v, 1234);
}

#[test]
fn get_path_matches_free_function() {
    let mut interp = Interpreter::new();
    let a = address_of(&[9u8]);
    assert_eq!(interp.get_path(a), get_path(&a));
}
