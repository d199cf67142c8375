use vstd::prelude::*;
use crate::digest::{digest_from_le_bytes, path_spec, Digest};
use crate::hashes::{address_of, blake3_of};
use crate::store::ValueStore;
use crate::tree::{proof_seq, root_of, smt_insert, SparseMerkleTree};
use crate::txn::Transaction;

verus! {

/// The externally supplied correctness proof failed to validate against the
/// current root.  Recoverable: the tree and the value store are unchanged,
/// and the caller may retry with a fresh proof against the current root.
#[derive(Clone, Copy, PartialEq, Eq, Structural, Debug)]
pub struct VerificationError;

/// The address a verifying key commits to: the key's hash, packed into a
/// digest word by word.
pub open spec fn address_spec(vk: Seq<u8>) -> Digest {
    digest_from_le_bytes(blake3_of(vk))
}

/// The proof-gated state machine: a value store paired with the sparse
/// Merkle tree that authenticates it.  Values enter either directly through
/// [`Interpreter::insert`] or through [`Interpreter::transit`], which
/// commits only when the external verifier accepted the transition proof.
pub struct Interpreter {
    s: ValueStore,
    smt: SparseMerkleTree,
}

impl Interpreter {
    /// The mapping from addresses to stored values; an absent address holds
    /// the canonical zero value.
    pub closed spec fn values(self) -> Map<Digest, u64> {
        self.s@
    }

    /// The node store of the authenticating tree.
    pub closed spec fn nodes(self) -> Map<Seq<bool>, Digest> {
        self.smt@
    }

    pub closed spec fn wf(self) -> bool {
        &&& self.s.wf()
        &&& self.smt.wf()
    }

    /// Creates an empty machine: every address holds zero and the tree
    /// commits to the all-default root.
    pub fn new() -> (r: Interpreter)
        ensures
            r.wf(),
            r.values() == Map::<Digest, u64>::empty(),
            r.nodes() == Map::<Seq<bool>, Digest>::empty(),
    {
        Interpreter { s: ValueStore::new(), smt: SparseMerkleTree::new() }
    }

    /// The current root commitment.
    pub fn root(&self) -> (r: Digest)
        requires
            self.wf(),
        ensures
            r == root_of(self.nodes()),
    {
        self.smt.root()
    }

    /// Stores `value` at `addr` in the value store and rewrites the
    /// affected tree path, as one step.
    pub fn insert(&mut self, addr: Digest, value: u64)
        requires
            old(self).wf(),
        ensures
            final(self).wf(),
            final(self).values() == old(self).values().insert(addr, value),
            final(self).nodes() == smt_insert(old(self).nodes(), addr, value),
    {
        self.s.set(addr, value);
        self.smt.insert(addr, value);
    }

    /// The value currently held at `addr` together with the address's
    /// authentication proof.  Reading an address that was never written
    /// returns zero and, deliberately, records that zero in the value
    /// store, so that a later insertion at the same address sees the same
    /// prior value that this call reported.  The tree is not touched.
    pub fn prove(&mut self, addr: Digest) -> (r: (u64, Vec<Digest>))
        requires
            old(self).wf(),
        ensures
            final(self).wf(),
            r.0 == if old(self).values().contains_key(addr) {
                old(self).values()[addr]
            } else {
                0u64
            },
            final(self).values() == old(self).values().insert(addr, r.0),
            final(self).nodes() == old(self).nodes(),
            r.1@ == proof_seq(old(self).nodes(), path_spec(addr)),
            r.1@.len() == 256,
    {
        let value = match self.s.get(&addr) {
            Some(v) => v,
            None => 0,
        };
        self.s.set(addr, value);
        let path = crate::digest::get_path(&addr);
        let pf = self.smt.get_merkle_proof(&path);
        (value, pf)
    }

    /// The traversal path of an address.
    pub fn get_path(&mut self, addr: Digest) -> (r: Vec<bool>)
        ensures
            r@ == path_spec(addr),
            *final(self) == *old(self),
    {
        crate::digest::get_path(&addr)
    }

    /// Applies a transition under the external verifier's verdict on the
    /// transaction's proof.  The verdict must have been obtained against
    /// the root this machine held when the transition was requested; a
    /// proof built against a stale root simply fails verification.  With a
    /// rejecting verdict nothing changes and the error surfaces; with an
    /// accepting one the new value is committed at the address derived
    /// from the verifying key.  There is no third outcome: both stores
    /// update together or neither does.
    pub fn transit(&mut self, tx: Transaction, verdict: bool) -> (r: Result<
        (),
        VerificationError,
    >)
        requires
            old(self).wf(),
        ensures
            final(self).wf(),
            verdict ==> {
                &&& r is Ok
                &&& final(self).values() == old(self).values().insert(
                    address_spec(tx.vk@),
                    tx.new_value,
                )
                &&& final(self).nodes() == smt_insert(
                    old(self).nodes(),
                    address_spec(tx.vk@),
                    tx.new_value,
                )
            },
            !verdict ==> {
                &&& r == Result::<(), VerificationError>::Err(VerificationError)
                &&& *final(self) == *old(self)
            },
    {
        if !verdict {
            return Err(VerificationError);
        }
        let addr = address_of(tx.vk.as_slice());
        self.insert(addr, tx.new_value);
        Ok(())
    }
}

} // verus!
