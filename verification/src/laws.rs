use vstd::prelude::*;
use crate::digest::{path_spec, Digest};
use crate::hashes::{combine_of, leaf_of};
use crate::table::default_at;
use crate::tree::{
    digest_at, inserted_above, proof_seq, recomputed_root, rolled_root, root_of, sibling_at,
    smt_insert, spec_verify,
};

verus! {

/// The digest that an insertion into `m` leaves at depth `j` of its own
/// path: the leaf digest at depth 256, and above it the combine hash of the
/// updated child below and the sibling as it stood in `m`.
spec fn new_dig(m: Map<Seq<bool>, Digest>, path: Seq<bool>, leaf: Digest, j: int) -> Digest
    decreases 256 - j,
{
    if j >= 256 {
        leaf
    } else if path[j] {
        combine_of(digest_at(m, path.take(j).push(false)), new_dig(m, path, leaf, j + 1))
    } else {
        combine_of(new_dig(m, path, leaf, j + 1), digest_at(m, path.take(j).push(true)))
    }
}

/// An insertion leaves every prefix off its own path untouched.
proof fn lemma_inserted_frame(
    m: Map<Seq<bool>, Digest>,
    path: Seq<bool>,
    leaf: Digest,
    level: int,
    q: Seq<bool>,
)
    requires
        0 <= level <= 256,
        forall|j: int| level <= j <= 256 ==> q != #[trigger] path.take(j),
    ensures
        inserted_above(m, path, leaf, level).contains_key(q) == m.contains_key(q),
        digest_at(inserted_above(m, path, leaf, level), q) == digest_at(m, q),
    decreases 256 - level,
{
    if level == 256 {
        assert(q != path.take(256));
    } else {
        lemma_inserted_frame(m, path, leaf, level + 1, q);
        assert(q != path.take(level));
    }
}

/// After the writes at depths `level..=256`, the prefix of depth `j` of the
/// inserted path (for `j >= level`) holds exactly `new_dig` at `j`.
proof fn lemma_inserted_on_path(
    m: Map<Seq<bool>, Digest>,
    path: Seq<bool>,
    leaf: Digest,
    level: int,
    j: int,
)
    requires
        path.len() == 256,
        0 <= level <= j <= 256,
    ensures
        inserted_above(m, path, leaf, level).contains_key(path.take(j)),
        inserted_above(m, path, leaf, level)[path.take(j)] == new_dig(m, path, leaf, j),
    decreases 256 - j, j - level,
{
    if level == j {
        if j == 256 {
        } else {
            let prev = inserted_above(m, path, leaf, (j + 1) as int);
            lemma_inserted_on_path(m, path, leaf, j + 1, j + 1);
            let sib = path.take(j).push(!path[j]);
            assert forall|jj: int| j + 1 <= jj <= 256 implies sib != #[trigger] path.take(
                jj,
            ) by {
                if jj == j + 1 {
                    assert(sib[j] == !path[j]);
                    assert(path.take(jj)[j] == path[j]);
                } else {
                    assert(sib.len() == j + 1);
                    assert(path.take(jj).len() == jj);
                }
            }
            lemma_inserted_frame(m, path, leaf, j + 1, sib);
            assert(path.take(j).push(path[j]) =~= path.take(j + 1));
            if path[j] {
                assert(path.take(j).push(false) =~= sib);
                assert(digest_at(prev, path.take(j).push(true))
                    == new_dig(m, path, leaf, j + 1));
            } else {
                assert(path.take(j).push(true) =~= sib);
                assert(digest_at(prev, path.take(j).push(false))
                    == new_dig(m, path, leaf, j + 1));
            }
        }
    } else {
        lemma_inserted_on_path(m, path, leaf, level + 1, j);
        assert(path.take(level).len() == level);
        assert(path.take(j).len() == j);
    }
}

/// The root an insertion leaves behind is its recomputed path digest at
/// depth zero.
proof fn lemma_root_after_insert(m: Map<Seq<bool>, Digest>, path: Seq<bool>, leaf: Digest)
    requires
        path.len() == 256,
    ensures
        root_of(inserted_above(m, path, leaf, 0)) == new_dig(m, path, leaf, 0),
{
    lemma_inserted_on_path(m, path, leaf, 0, 0);
    assert(path.take(0) =~= Seq::<bool>::empty());
}

/// Rolling the proof of the freshly inserted path up `i` steps reproduces
/// `new_dig` at depth `256 - i`.
proof fn lemma_rolled_matches(m: Map<Seq<bool>, Digest>, path: Seq<bool>, leaf: Digest, i: int)
    requires
        path.len() == 256,
        0 <= i <= 256,
    ensures
        rolled_root(leaf, path, proof_seq(inserted_above(m, path, leaf, 0), path), i)
            == new_dig(m, path, leaf, 256 - i),
    decreases i,
{
    let m1 = inserted_above(m, path, leaf, 0);
    let pf = proof_seq(m1, path);
    if i > 0 {
        lemma_rolled_matches(m, path, leaf, i - 1);
        let j = 256 - i;
        let sib = sibling_at(path, j);
        assert(pf[i - 1] == digest_at(m1, sib));
        assert forall|jj: int| 0 <= jj <= 256 implies sib != #[trigger] path.take(jj) by {
            if jj == j + 1 {
                assert(sib[j] == !path[j]);
                assert(path.take(jj)[j] == path[j]);
            } else {
                assert(sib.len() == j + 1);
                assert(path.take(jj).len() == jj);
            }
        }
        lemma_inserted_frame(m, path, leaf, 0, sib);
        if path[j] {
            assert(path.take(j).push(false) =~= sib);
        } else {
            assert(path.take(j).push(true) =~= sib);
        }
    }
}

/// Round-trip: after inserting a value at an address, recomputing the root
/// from the value's leaf digest and the address's fresh authentication
/// proof yields exactly the tree's new root.
pub proof fn lemma_insert_round_trip(m: Map<Seq<bool>, Digest>, a: Digest, value: u64)
    ensures
        recomputed_root(
            leaf_of(value),
            path_spec(a),
            proof_seq(smt_insert(m, a, value), path_spec(a)),
        ) == root_of(smt_insert(m, a, value)),
{
    lemma_rolled_matches(m, path_spec(a), leaf_of(value), 256);
    lemma_root_after_insert(m, path_spec(a), leaf_of(value));
}

/// What was just inserted is committed to: after inserting a value at an
/// address, the tree's commitment check accepts that address and value.
pub proof fn lemma_insert_then_verify(m: Map<Seq<bool>, Digest>, a: Digest, value: u64)
    ensures
        spec_verify(smt_insert(m, a, value), a, value),
{
    let path = path_spec(a);
    let leaf = leaf_of(value);
    lemma_inserted_on_path(m, path, leaf, 0, 256);
    assert(path.take(256) =~= path);
    lemma_insert_round_trip(m, a, value);
}

/// In an empty tree, every address's proof recombines the canonical zero
/// leaf back to the all-default root: reading an untouched address yields
/// an authenticated zero.
pub proof fn lemma_empty_tree_proof(a: Digest)
    ensures
        recomputed_root(
            leaf_of(0),
            path_spec(a),
            proof_seq(Map::<Seq<bool>, Digest>::empty(), path_spec(a)),
        ) == root_of(Map::<Seq<bool>, Digest>::empty()),
{
    let path = path_spec(a);
    let m = Map::<Seq<bool>, Digest>::empty();
    let pf = proof_seq(m, path);
    assert forall|i: int| 0 <= i <= 256 implies rolled_root(leaf_of(0), path, pf, i)
        == default_at(256 - i) by {
        lemma_rolled_default(a, i);
    }
    lemma_empty_root();
}

/// Step `i` of recombining over the empty tree lands on the default digest
/// at depth `256 - i`.
proof fn lemma_rolled_default(a: Digest, i: int)
    requires
        0 <= i <= 256,
    ensures
        rolled_root(
            leaf_of(0),
            path_spec(a),
            proof_seq(Map::<Seq<bool>, Digest>::empty(), path_spec(a)),
            i,
        ) == default_at(256 - i),
    decreases i,
{
    let path = path_spec(a);
    let m = Map::<Seq<bool>, Digest>::empty();
    let pf = proof_seq(m, path);
    if i > 0 {
        lemma_rolled_default(a, i - 1);
        let j = 256 - i;
        assert(pf[i - 1] == digest_at(m, sibling_at(path, j)));
        assert(sibling_at(path, j).len() == j + 1);
    }
}

/// An insertion changes no sibling an immediate re-insertion reads, so the
/// recomputed path digests agree at every depth.
proof fn lemma_new_dig_stable(m: Map<Seq<bool>, Digest>, path: Seq<bool>, leaf: Digest, j: int)
    requires
        path.len() == 256,
        0 <= j <= 256,
    ensures
        new_dig(inserted_above(m, path, leaf, 0), path, leaf, j) == new_dig(m, path, leaf, j),
    decreases 256 - j,
{
    if j < 256 {
        lemma_new_dig_stable(m, path, leaf, j + 1);
        let sib = path.take(j).push(!path[j]);
        assert forall|jj: int| 0 <= jj <= 256 implies sib != #[trigger] path.take(jj) by {
            if jj == j + 1 {
                assert(sib[j] == !path[j]);
                assert(path.take(jj)[j] == path[j]);
            } else {
                assert(sib.len() == j + 1);
                assert(path.take(jj).len() == jj);
            }
        }
        lemma_inserted_frame(m, path, leaf, 0, sib);
        if path[j] {
            assert(path.take(j).push(false) =~= sib);
        } else {
            assert(path.take(j).push(true) =~= sib);
        }
    }
}

/// Idempotence: inserting the same value at the same address twice in a row
/// leaves the same root as inserting it once.
pub proof fn lemma_insert_idempotent(m: Map<Seq<bool>, Digest>, a: Digest, value: u64)
    ensures
        root_of(smt_insert(smt_insert(m, a, value), a, value))
            == root_of(smt_insert(m, a, value)),
{
    let path = path_spec(a);
    let leaf = leaf_of(value);
    let m1 = smt_insert(m, a, value);
    lemma_root_after_insert(m1, path, leaf);
    lemma_new_dig_stable(m, path, leaf, 0);
    lemma_root_after_insert(m, path, leaf);
}

/// Empty-tree root: a node store with nothing written commits to the
/// default empty-subtree digest at depth zero.
pub proof fn lemma_empty_root()
    ensures
        root_of(Map::<Seq<bool>, Digest>::empty()) == default_at(0),
{
    assert(Seq::<bool>::empty().len() == 0);
}

/// The index of the first bit from `i` on where two paths part, or 256 when
/// they agree from `i` to the end.
spec fn first_diff(s: Seq<bool>, t: Seq<bool>, i: int) -> int
    decreases 256 - i,
{
    if i >= 256 {
        256
    } else if s[i] != t[i] {
        i
    } else {
        first_diff(s, t, i + 1)
    }
}

proof fn lemma_first_diff(s: Seq<bool>, t: Seq<bool>, i: int)
    requires
        s.len() == 256,
        t.len() == 256,
        0 <= i <= 256,
    ensures
        i <= first_diff(s, t, i) <= 256,
        forall|j: int| i <= j < first_diff(s, t, i) ==> s[j] == t[j],
        first_diff(s, t, i) < 256 ==> s[first_diff(s, t, i)] != t[first_diff(s, t, i)],
        first_diff(s, t, i) == 256 ==> forall|j: int| i <= j < 256 ==> s[j] == t[j],
    decreases 256 - i,
{
    if i < 256 && s[i] == t[i] {
        lemma_first_diff(s, t, i + 1);
    }
}

/// Inserting along one path changes no recomputed digest of another path
/// below the depth where the two paths part.
proof fn lemma_cross_stable(
    m: Map<Seq<bool>, Digest>,
    p1: Seq<bool>,
    l1: Digest,
    p2: Seq<bool>,
    l2: Digest,
    k: int,
    j: int,
)
    requires
        p1.len() == 256,
        p2.len() == 256,
        0 <= k < 256,
        p1[k] != p2[k],
        k + 1 <= j <= 256,
    ensures
        new_dig(inserted_above(m, p1, l1, 0), p2, l2, j) == new_dig(m, p2, l2, j),
    decreases 256 - j,
{
    if j < 256 {
        lemma_cross_stable(m, p1, l1, p2, l2, k, j + 1);
        let sib = p2.take(j).push(!p2[j]);
        assert forall|jj: int| 0 <= jj <= 256 implies sib != #[trigger] p1.take(jj) by {
            if jj == j + 1 {
                assert(sib[k] == p2[k]);
                assert(p1.take(jj)[k] == p1[k]);
            } else {
                assert(sib.len() == j + 1);
                assert(p1.take(jj).len() == jj);
            }
        }
        lemma_inserted_frame(m, p1, l1, 0, sib);
        if p2[j] {
            assert(p2.take(j).push(false) =~= sib);
        } else {
            assert(p2.take(j).push(true) =~= sib);
        }
    }
}

/// Along the stem the two paths share, the digests recomputed by the second
/// insertion agree whichever of the two insertions came first.
proof fn lemma_commute_stem(
    m: Map<Seq<bool>, Digest>,
    p1: Seq<bool>,
    l1: Digest,
    p2: Seq<bool>,
    l2: Digest,
    k: int,
    j: int,
)
    requires
        p1.len() == 256,
        p2.len() == 256,
        0 <= j <= k < 256,
        p1.take(k) == p2.take(k),
        p1[k] != p2[k],
    ensures
        new_dig(inserted_above(m, p1, l1, 0), p2, l2, j) == new_dig(
            inserted_above(m, p2, l2, 0),
            p1,
            l1,
            j,
        ),
    decreases k - j,
{
    let m1 = inserted_above(m, p1, l1, 0);
    let m2 = inserted_above(m, p2, l2, 0);
    if j == k {
        lemma_cross_stable(m, p1, l1, p2, l2, k, k + 1);
        lemma_cross_stable(m, p2, l2, p1, l1, k, k + 1);
        lemma_inserted_on_path(m, p1, l1, 0, k + 1);
        lemma_inserted_on_path(m, p2, l2, 0, k + 1);
        assert(p2.take(k).push(p1[k]) =~= p1.take(k + 1));
        assert(p1.take(k).push(p2[k]) =~= p2.take(k + 1));
        if p2[k] {
            assert(p2.take(k).push(false) =~= p1.take(k + 1));
            assert(p1.take(k).push(true) =~= p2.take(k + 1));
        } else {
            assert(p2.take(k).push(true) =~= p1.take(k + 1));
            assert(p1.take(k).push(false) =~= p2.take(k + 1));
        }
    } else {
        lemma_commute_stem(m, p1, l1, p2, l2, k, j + 1);
        assert(p1.take(k)[j] == p1[j]);
        assert(p2.take(k)[j] == p2[j]);
        assert(p1[j] == p2[j]);
        let sib = p2.take(j).push(!p2[j]);
        assert(p1.take(j) =~= p2.take(j));
        assert forall|jj: int| 0 <= jj <= 256 implies sib != #[trigger] p1.take(jj) by {
            if jj == j + 1 {
                assert(sib[j] == !p1[j]);
                assert(p1.take(jj)[j] == p1[j]);
            } else {
                assert(sib.len() == j + 1);
                assert(p1.take(jj).len() == jj);
            }
        }
        assert forall|jj: int| 0 <= jj <= 256 implies sib != #[trigger] p2.take(jj) by {
            if jj == j + 1 {
                assert(sib[j] == !p2[j]);
                assert(p2.take(jj)[j] == p2[j]);
            } else {
                assert(sib.len() == j + 1);
                assert(p2.take(jj).len() == jj);
            }
        }
        lemma_inserted_frame(m, p1, l1, 0, sib);
        lemma_inserted_frame(m, p2, l2, 0, sib);
        if p2[j] {
            assert(p2.take(j).push(false) =~= sib);
            assert(p1.take(j).push(false) =~= sib);
        } else {
            assert(p2.take(j).push(true) =~= sib);
            assert(p1.take(j).push(true) =~= sib);
        }
    }
}

/// Order-independence: for two distinct addresses, inserting the two
/// values in either order leaves the same root.
pub proof fn lemma_insert_commutes(
    m: Map<Seq<bool>, Digest>,
    a1: Digest,
    v1: u64,
    a2: Digest,
    v2: u64,
)
    requires
        a1 != a2,
    ensures
        root_of(smt_insert(smt_insert(m, a1, v1), a2, v2)) == root_of(
            smt_insert(smt_insert(m, a2, v2), a1, v1),
        ),
{
    let p1 = path_spec(a1);
    let p2 = path_spec(a2);
    let l1 = leaf_of(v1);
    let l2 = leaf_of(v2);
    if p1 == p2 {
        crate::digest::lemma_path_injective(a1, a2);
        assert(false);
    }
    lemma_first_diff(p1, p2, 0);
    let k = first_diff(p1, p2, 0);
    if k == 256 {
        assert(p1 =~= p2);
        assert(false);
    }
    assert(p1.take(k) =~= p2.take(k));
    let m1 = smt_insert(m, a1, v1);
    let m2 = smt_insert(m, a2, v2);
    lemma_root_after_insert(m1, p2, l2);
    lemma_root_after_insert(m2, p1, l1);
    lemma_commute_stem(m, p1, l1, p2, l2, k, 0);
}

} // verus!
