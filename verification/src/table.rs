use vstd::prelude::*;
use crate::digest::Digest;
use crate::hashes::{combine_of, hash_children, leaf_hash, leaf_of};

verus! {

/// The digest of the all-empty subtree at a given depth.  At depth 256 it
/// is the canonical empty leaf, the leaf hash of the zero value — so an
/// address that was never written authenticates the value it is defined to
/// hold.  Above that, each level is the combine hash of two copies of the
/// level below.
pub open spec fn default_at(depth: int) -> Digest
    decreases 256 - depth,
{
    if depth >= 256 {
        leaf_of(0)
    } else {
        combine_of(default_at(depth + 1), default_at(depth + 1))
    }
}

/// The memoized table of the 257 empty-subtree digests, one per depth
/// 0 to 256.  Computed once when constructed and immutable thereafter; any
/// number of trees may share one table.
pub struct DefaultHashTable {
    rev: Vec<Digest>,
}

impl DefaultHashTable {
    /// The table holds exactly the digests of [`default_at`], deepest first.
    pub closed spec fn wf(self) -> bool {
        &&& self.rev@.len() == 257
        &&& forall|k: int| 0 <= k < 257 ==> self.rev@[k] == default_at(256 - k)
    }

    /// Computes the whole table, from the empty leaf upward.
    pub fn new() -> (r: DefaultHashTable)
        ensures
            r.wf(),
    {
        let mut rev: Vec<Digest> = Vec::new();
        rev.push(leaf_hash(0));
        let mut i: usize = 1;
        while i <= 256
            invariant
                1 <= i <= 257,
                rev@.len() == i,
                forall|k: int| 0 <= k < i ==> rev@[k] == default_at(256 - k),
            decreases 257 - i,
        {
            let prev = rev[i - 1];
            let h = hash_children(&prev, &prev);
            rev.push(h);
            i = i + 1;
        }
        DefaultHashTable { rev }
    }

    /// The empty-subtree digest at `depth`; `depth` must lie in `0..=256`.
    pub fn get(&self, depth: usize) -> (r: Digest)
        requires
            self.wf(),
            depth <= 256,
        ensures
            r == default_at(depth as int),
    {
        self.rev[256 - depth]
    }
}

} // verus!
