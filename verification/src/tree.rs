use vstd::prelude::*;
use vstd::slice::{slice_subrange, slice_to_vec};
use crate::digest::{get_path, path_spec, Digest};
use crate::hashes::{combine_of, hash_children, leaf_hash, leaf_of};
use crate::store::NodeStore;
use crate::table::{default_at, DefaultHashTable};

verus! {

/// The digest a node store assigns to a path prefix: the recorded digest if
/// one was written, else the default empty-subtree digest at its depth.
pub open spec fn digest_at(m: Map<Seq<bool>, Digest>, prefix: Seq<bool>) -> Digest {
    if m.contains_key(prefix) {
        m[prefix]
    } else {
        default_at(prefix.len() as int)
    }
}

/// The root commitment of a node store: its digest at the empty prefix.
pub open spec fn root_of(m: Map<Seq<bool>, Digest>) -> Digest {
    digest_at(m, Seq::empty())
}

/// The prefix of the sibling of the node at depth `l + 1` on `path`: the
/// first `l` path bits followed by the negation of bit `l`.
pub open spec fn sibling_at(path: Seq<bool>, l: int) -> Seq<bool> {
    path.take(l).push(!path[l])
}

/// The node store after the writes of an insertion at depths `level..=256`:
/// the leaf digest at the full path, then, bottom up, each prefix rewritten
/// with the combine hash of its two children as they stand at that moment.
pub open spec fn inserted_above(
    m: Map<Seq<bool>, Digest>,
    path: Seq<bool>,
    leaf: Digest,
    level: int,
) -> Map<Seq<bool>, Digest>
    decreases 256 - level,
{
    if level >= 256 {
        m.insert(path.take(256), leaf)
    } else {
        let prev = inserted_above(m, path, leaf, level + 1);
        let p = path.take(level);
        prev.insert(
            p,
            combine_of(digest_at(prev, p.push(false)), digest_at(prev, p.push(true))),
        )
    }
}

/// The node store after inserting `value` at address `a`: the 257 prefixes
/// of the address's path rewritten, nothing else touched.
pub open spec fn smt_insert(m: Map<Seq<bool>, Digest>, a: Digest, value: u64) -> Map<
    Seq<bool>,
    Digest,
> {
    inserted_above(m, path_spec(a), leaf_of(value), 0)
}

/// The authentication proof for a path: entry `i` is the digest of the
/// sibling of the node at depth `255 - i`, so entry 0 sits next to the leaf
/// and entry 255 next to the root.
pub open spec fn proof_seq(m: Map<Seq<bool>, Digest>, path: Seq<bool>) -> Seq<Digest> {
    Seq::new(256, |i: int| digest_at(m, sibling_at(path, 255 - i)))
}

/// The first `i` steps of recomputing a root from a leaf digest and a proof,
/// walking leaf to root: step `i` combines the running digest with sibling
/// `i - 1`, on the side that path bit `256 - i` dictates.
pub open spec fn rolled_root(leaf: Digest, path: Seq<bool>, pf: Seq<Digest>, i: int) -> Digest
    decreases i,
{
    if i <= 0 {
        leaf
    } else {
        let prev = rolled_root(leaf, path, pf, i - 1);
        if path[256 - i] {
            combine_of(pf[i - 1], prev)
        } else {
            combine_of(prev, pf[i - 1])
        }
    }
}

/// The root recomputed from a leaf digest and a 256-entry proof.
pub open spec fn recomputed_root(leaf: Digest, path: Seq<bool>, pf: Seq<Digest>) -> Digest {
    rolled_root(leaf, path, pf, 256)
}

/// Whether a node store commits to `value` at address `key`: the leaf on the
/// key's path was written, holds the value's leaf digest, and recombining it
/// with the key's authentication proof yields the root.
pub open spec fn spec_verify(m: Map<Seq<bool>, Digest>, key: Digest, value: u64) -> bool {
    let p = path_spec(key);
    &&& m.contains_key(p)
    &&& m[p] == leaf_of(value)
    &&& recomputed_root(leaf_of(value), p, proof_seq(m, p)) == root_of(m)
}

/// The sparse Merkle tree of fixed depth 256: a node store of written
/// prefixes over a shared table of default digests.  Its view is the node
/// store's mapping; every absent prefix stands for an empty subtree.
pub struct SparseMerkleTree {
    nodes: NodeStore,
    defaults: DefaultHashTable,
}

impl SparseMerkleTree {
    /// The mapping from written path prefixes to digests.
    pub closed spec fn view(self) -> Map<Seq<bool>, Digest> {
        self.nodes@
    }

    pub closed spec fn wf(self) -> bool {
        &&& self.nodes.wf()
        &&& self.defaults.wf()
    }

    /// Creates an empty tree; every prefix holds its default digest.
    pub fn new() -> (r: SparseMerkleTree)
        ensures
            r.wf(),
            r@ == Map::<Seq<bool>, Digest>::empty(),
    {
        SparseMerkleTree { nodes: NodeStore::new(), defaults: DefaultHashTable::new() }
    }

    /// The current root commitment.
    pub fn root(&self) -> (r: Digest)
        requires
            self.wf(),
        ensures
            r == root_of(self@),
    {
        let empty: Vec<bool> = Vec::new();
        self.get_digest(&empty)
    }

    /// The digest at a prefix of depth up to 256: what was written there, or
    /// the default digest of its depth.
    pub fn get_digest(&self, index: &Vec<bool>) -> (r: Digest)
        requires
            self.wf(),
            index@.len() <= 256,
        ensures
            r == digest_at(self@, index@),
    {
        match self.nodes.get(index) {
            Some(d) => d,
            None => self.defaults.get(index.len()),
        }
    }

    /// Writes `value` at address `key`: stores the value's leaf digest at
    /// the full path, then rewrites the 256 ancestor prefixes bottom up with
    /// the combine hash of their children.  A fixed-cost operation: 512
    /// child lookups and 256 combine hashes, however full the tree.
    pub fn insert(&mut self, key: Digest, value: u64)
        requires
            old(self).wf(),
        ensures
            final(self).wf(),
            final(self)@ == smt_insert(old(self)@, key, value),
    {
        let ghost m0 = self@;
        let ghost kp = path_spec(key);
        let ghost lf = leaf_of(value);
        let mut path: Vec<bool> = get_path(&key);
        let leaf = leaf_hash(value);
        self.nodes.set(slice_to_vec(path.as_slice()), leaf);
        proof {
            assert(kp.take(256) =~= kp);
        }
        let mut l: usize = 256;
        while l > 0
            invariant
                self.wf(),
                l <= 256,
                kp == path_spec(key),
                lf == leaf_of(value),
                kp.len() == 256,
                path@ == kp.take(l as int),
                self.nodes@ == inserted_above(m0, kp, lf, l as int),
            decreases l,
        {
            let lm1 = l - 1;
            path.pop();
            proof {
                assert(kp.take(l as int).drop_last() =~= kp.take(lm1 as int));
            }
            let mut lp = slice_to_vec(path.as_slice());
            lp.push(false);
            let mut rp = slice_to_vec(path.as_slice());
            rp.push(true);
            let left = self.get_digest(&lp);
            let right = self.get_digest(&rp);
            let parent = hash_children(&left, &right);
            self.nodes.set(slice_to_vec(path.as_slice()), parent);
            proof {
                let prev = inserted_above(m0, kp, lf, l as int);
                assert(lp@ == kp.take(lm1 as int).push(false));
                assert(rp@ == kp.take(lm1 as int).push(true));
                assert(self.nodes@ == inserted_above(m0, kp, lf, lm1 as int));
            }
            l = lm1;
        }
    }

    /// The 256-entry authentication proof for a full path: entry `i` is the
    /// digest of the sibling of the node at depth `255 - i`, leaf end first.
    pub fn get_merkle_proof(&self, key: &Vec<bool>) -> (r: Vec<Digest>)
        requires
            self.wf(),
            key@.len() == 256,
        ensures
            r@ == proof_seq(self@, key@),
            r@.len() == 256,
    {
        let mut r: Vec<Digest> = Vec::new();
        let mut i: usize = 0;
        while i < 256
            invariant
                self.wf(),
                key@.len() == 256,
                i <= 256,
                r@.len() == i,
                forall|j: int| 0 <= j < i ==> r@[j] == proof_seq(self@, key@)[j],
            decreases 256 - i,
        {
            let cut: usize = 255 - i;
            let mut p = slice_to_vec(slice_subrange(key.as_slice(), 0, cut));
            p.push(!key[cut]);
            proof {
                assert(p@ =~= sibling_at(key@, 255 - i as int));
            }
            let d = self.get_digest(&p);
            r.push(d);
            i = i + 1;
        }
        assert(r@ =~= proof_seq(self@, key@));
        r
    }

    /// Whether the tree currently commits to `value` at address `key`:
    /// checks the stored leaf and recombines it with the authentication
    /// proof, comparing against the root.
    pub fn verify(&self, key: Digest, value: u64) -> (r: bool)
        requires
            self.wf(),
        ensures
            r == spec_verify(self@, key, value),
    {
        let path = get_path(&key);
        let leaf = leaf_hash(value);
        match self.nodes.get(&path) {
            None => false,
            Some(stored) => {
                if stored != leaf {
                    false
                } else {
                    let pf = self.get_merkle_proof(&path);
                    let recomputed = compute_root(leaf, &path, &pf);
                    let current = self.root();
                    recomputed == current
                }
            },
        }
    }
}

/// Recomputes a root from a leaf digest, the leaf's path, and a 256-entry
/// sibling proof, walking leaf to root: at step `i` the running digest is
/// the left child where path bit `255 - i` is false, the right child where
/// it is true.
pub fn compute_root(leaf: Digest, path: &Vec<bool>, siblings: &Vec<Digest>) -> (r: Digest)
    requires
        path@.len() == 256,
        siblings@.len() == 256,
    ensures
        r == recomputed_root(leaf, path@, siblings@),
{
    let mut current = leaf;
    let mut i: usize = 0;
    while i < 256
        invariant
            path@.len() == 256,
            siblings@.len() == 256,
            i <= 256,
            current == rolled_root(leaf, path@, siblings@, i as int),
        decreases 256 - i,
    {
        let bit = path[255 - i];
        let sib = siblings[i];
        current = if bit {
            hash_children(&sib, &current)
        } else {
            hash_children(&current, &sib)
        };
        i = i + 1;
    }
    current
}

} // verus!
