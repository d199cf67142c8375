use vstd::prelude::*;
use crate::digest::Digest;

verus! {

/// Compares two bit vectors for equality.
fn bits_eq(a: &Vec<bool>, b: &Vec<bool>) -> (r: bool)
    ensures
        r <==> a@ == b@,
{
    if a.len() != b.len() {
        assert(a@ !~= b@);
        return false;
    }
    let n = a.len();
    let mut i: usize = 0;
    while i < n
        invariant
            n == a@.len() == b@.len(),
            i <= n,
            forall|j: int| 0 <= j < i ==> a@[j] == b@[j],
        decreases n - i,
    {
        if a[i] != b[i] {
            return false;
        }
        i = i + 1;
    }
    assert(a@ =~= b@);
    true
}

/// The map described by an association list: a later entry for the same key
/// shadows an earlier one.
spec fn map_of(s: Seq<(Vec<bool>, Digest)>) -> Map<Seq<bool>, Digest>
    decreases s.len(),
{
    if s.len() == 0 {
        Map::empty()
    } else {
        map_of(s.drop_last()).insert(s.last().0@, s.last().1)
    }
}

proof fn lemma_map_of_contains(s: Seq<(Vec<bool>, Digest)>, k: Seq<bool>)
    ensures
        map_of(s).contains_key(k) <==> exists|i: int| 0 <= i < s.len() && s[i].0@ == k,
    decreases s.len(),
{
    if s.len() > 0 {
        lemma_map_of_contains(s.drop_last(), k);
        if s.last().0@ == k {
            assert(s[s.len() - 1].0@ == k);
        } else if map_of(s).contains_key(k) {
            let i = choose|i: int| 0 <= i < s.len() - 1 && s.drop_last()[i].0@ == k;
            assert(s[i].0@ == k);
        } else {
            assert(forall|i: int|
                0 <= i < s.len() - 1 && s[i].0@ == k ==> s.drop_last()[i].0@ == k);
        }
    }
}

/// Distinct entries of the list carry distinct keys.
spec fn keys_unique(s: Seq<(Vec<bool>, Digest)>) -> bool {
    forall|i: int, j: int| 0 <= i < j < s.len() ==> s[i].0@ != s[j].0@
}

proof fn lemma_map_of_value(s: Seq<(Vec<bool>, Digest)>, i: int)
    requires
        keys_unique(s),
        0 <= i < s.len(),
    ensures
        map_of(s).contains_key(s[i].0@),
        map_of(s)[s[i].0@] == s[i].1,
    decreases s.len(),
{
    if i == s.len() - 1 {
    } else {
        assert(s.drop_last()[i] == s[i]);
        lemma_map_of_value(s.drop_last(), i);
        assert(s.last().0@ != s[i].0@);
    }
}

/// The node store: a mapping from path prefixes (bit vectors of length
/// 0 to 256) to digests.  A prefix that is absent stands for the canonical
/// default subtree at its depth; the store itself only records what has
/// been written.
pub struct NodeStore {
    entries: Vec<(Vec<bool>, Digest)>,
}

impl NodeStore {
    /// The mapping this store holds.
    pub closed spec fn view(self) -> Map<Seq<bool>, Digest> {
        map_of(self.entries@)
    }

    /// Each key is recorded at most once.
    pub closed spec fn wf(self) -> bool {
        keys_unique(self.entries@)
    }

    /// Creates an empty store.
    pub fn new() -> (r: NodeStore)
        ensures
            r.wf(),
            r@ == Map::<Seq<bool>, Digest>::empty(),
    {
        NodeStore { entries: Vec::new() }
    }

    /// Looks a prefix up; `None` when nothing was recorded for it.
    pub fn get(&self, key: &Vec<bool>) -> (r: Option<Digest>)
        requires
            self.wf(),
        ensures
            r == if self@.contains_key(key@) {
                Some(self@[key@])
            } else {
                None::<Digest>
            },
    {
        let n = self.entries.len();
        let mut i: usize = 0;
        while i < n
            invariant
                self.wf(),
                n == self.entries@.len(),
                i <= n,
                forall|j: int| 0 <= j < i ==> self.entries@[j].0@ != key@,
        decreases n - i,
        {
            if bits_eq(&self.entries[i].0, key) {
                proof {
                    lemma_map_of_value_any(self.entries@, i as int, key@);
                }
                return Some(self.entries[i].1);
            }
            i = i + 1;
        }
        proof {
            lemma_map_of_contains(self.entries@, key@);
        }
        None
    }

    /// Records a digest for a prefix, overwriting an earlier record.
    pub fn set(&mut self, key: Vec<bool>, d: Digest)
        requires
            old(self).wf(),
        ensures
            final(self).wf(),
            final(self)@ == old(self)@.insert(key@, d),
    {
        let n = self.entries.len();
        let mut i: usize = 0;
        while i < n
            invariant
                self.wf(),
                n == self.entries@.len(),
                i <= n,
                self.entries@ == old(self).entries@,
                forall|j: int| 0 <= j < i ==> self.entries@[j].0@ != key@,
            decreases n - i,
        {
            if bits_eq(&self.entries[i].0, &key) {
                let ghost s0 = self.entries@;
                self.entries.set(i, (key, d));
                proof {
                    lemma_map_of_set(s0, i as int, self.entries@[i as int]);
                }
                return;
            }
            i = i + 1;
        }
        let ghost s0 = self.entries@;
        self.entries.push((key, d));
        proof {
            assert(self.entries@.drop_last() =~= s0);
        }
    }
}

/// The map described by an association list of values, a later entry for
/// the same address shadowing an earlier one.
spec fn value_map_of(s: Seq<(Digest, u64)>) -> Map<Digest, u64>
    decreases s.len(),
{
    if s.len() == 0 {
        Map::empty()
    } else {
        value_map_of(s.drop_last()).insert(s.last().0, s.last().1)
    }
}

proof fn lemma_value_map_of_contains(s: Seq<(Digest, u64)>, k: Digest)
    ensures
        value_map_of(s).contains_key(k) <==> exists|i: int| 0 <= i < s.len() && s[i].0 == k,
    decreases s.len(),
{
    if s.len() > 0 {
        lemma_value_map_of_contains(s.drop_last(), k);
        if s.last().0 == k {
            assert(s[s.len() - 1].0 == k);
        } else if value_map_of(s).contains_key(k) {
            let i = choose|i: int| 0 <= i < s.len() - 1 && s.drop_last()[i].0 == k;
            assert(s[i].0 == k);
        } else {
            assert(forall|i: int|
                0 <= i < s.len() - 1 && s[i].0 == k ==> s.drop_last()[i].0 == k);
        }
    }
}

/// Distinct entries of the list carry distinct addresses.
spec fn value_keys_unique(s: Seq<(Digest, u64)>) -> bool {
    forall|i: int, j: int| 0 <= i < j < s.len() ==> s[i].0 != s[j].0
}

proof fn lemma_value_map_of_value(s: Seq<(Digest, u64)>, i: int)
    requires
        value_keys_unique(s),
        0 <= i < s.len(),
    ensures
        value_map_of(s).contains_key(s[i].0),
        value_map_of(s)[s[i].0] == s[i].1,
    decreases s.len(),
{
    if i == s.len() - 1 {
    } else {
        assert(s.drop_last()[i] == s[i]);
        lemma_value_map_of_value(s.drop_last(), i);
        assert(s.last().0 != s[i].0);
    }
}

/// The value store: a mapping from addresses to stored values.  An address
/// that is absent holds the canonical zero value, mirroring the tree's
/// default-leaf convention.
pub struct ValueStore {
    entries: Vec<(Digest, u64)>,
}

impl ValueStore {
    /// The mapping this store holds.
    pub closed spec fn view(self) -> Map<Digest, u64> {
        value_map_of(self.entries@)
    }

    /// Each address is recorded at most once.
    pub closed spec fn wf(self) -> bool {
        value_keys_unique(self.entries@)
    }

    /// Creates an empty store.
    pub fn new() -> (r: ValueStore)
        ensures
            r.wf(),
            r@ == Map::<Digest, u64>::empty(),
    {
        ValueStore { entries: Vec::new() }
    }

    /// Looks an address up; `None` when nothing was recorded for it.
    pub fn get(&self, key: &Digest) -> (r: Option<u64>)
        requires
            self.wf(),
        ensures
            r == if self@.contains_key(*key) {
                Some(self@[*key])
            } else {
                None::<u64>
            },
    {
        let n = self.entries.len();
        let mut i: usize = 0;
        while i < n
            invariant
                self.wf(),
                n == self.entries@.len(),
                i <= n,
                forall|j: int| 0 <= j < i ==> self.entries@[j].0 != *key,
        decreases n - i,
        {
            if self.entries[i].0 == *key {
                proof {
                    lemma_value_map_of_value(self.entries@, i as int);
                }
                return Some(self.entries[i].1);
            }
            i = i + 1;
        }
        proof {
            lemma_value_map_of_contains(self.entries@, *key);
        }
        None
    }

    /// Records a value for an address, overwriting an earlier record.
    pub fn set(&mut self, key: Digest, v: u64)
        requires
            old(self).wf(),
        ensures
            final(self).wf(),
            final(self)@ == old(self)@.insert(key, v),
    {
        let n = self.entries.len();
        let mut i: usize = 0;
        while i < n
            invariant
                self.wf(),
                n == self.entries@.len(),
                i <= n,
                self.entries@ == old(self).entries@,
                forall|j: int| 0 <= j < i ==> self.entries@[j].0 != key,
        decreases n - i,
        {
            if self.entries[i].0 == key {
                let ghost s0 = self.entries@;
                self.entries.set(i, (key, v));
                proof {
                    lemma_value_map_of_set(s0, i as int, self.entries@[i as int]);
                }
                return;
            }
            i = i + 1;
        }
        let ghost s0 = self.entries@;
        self.entries.push((key, v));
        proof {
            assert(self.entries@.drop_last() =~= s0);
        }
    }
}

/// Overwriting the entry that holds an address updates the map there.
proof fn lemma_value_map_of_set(s: Seq<(Digest, u64)>, i: int, e: (Digest, u64))
    requires
        value_keys_unique(s),
        0 <= i < s.len(),
        s[i].0 == e.0,
    ensures
        value_keys_unique(s.update(i, e)),
        value_map_of(s.update(i, e)) == value_map_of(s).insert(e.0, e.1),
{
    let s2 = s.update(i, e);
    assert forall|p: int, q: int| 0 <= p < q < s2.len() implies s2[p].0 != s2[q].0 by {
        assert(s2[p].0 == s[p].0 || p == i);
        assert(s2[q].0 == s[q].0 || q == i);
    }
    let m1 = value_map_of(s2);
    let m2 = value_map_of(s).insert(e.0, e.1);
    assert forall|k: Digest| m1.contains_key(k) <==> m2.contains_key(k) by {
        lemma_value_map_of_contains(s2, k);
        lemma_value_map_of_contains(s, k);
        assert(s2[i].0 == e.0);
        if exists|j: int| 0 <= j < s.len() && s[j].0 == k {
            let j = choose|j: int| 0 <= j < s.len() && s[j].0 == k;
            assert(s2[j].0 == k || k == e.0);
        }
        if exists|j: int| 0 <= j < s2.len() && s2[j].0 == k {
            let j = choose|j: int| 0 <= j < s2.len() && s2[j].0 == k;
            assert(s[j].0 == k || k == e.0);
        }
    }
    assert forall|k: Digest| m1.contains_key(k) implies m1[k] == m2[k] by {
        lemma_value_map_of_contains(s2, k);
        let j = choose|j: int| 0 <= j < s2.len() && s2[j].0 == k;
        lemma_value_map_of_value(s2, j);
        if k == e.0 {
            assert(s2[i] == e);
            assert(j == i);
        } else {
            assert(j != i);
            assert(s2[j] == s[j]);
            lemma_value_map_of_value(s, j);
        }
    }
    assert(m1 =~= m2);
}

/// A found entry gives the map's value at that key, even without knowing
/// where later duplicates sit, provided the scan saw no earlier entry for
/// the key.  Used by `get`, which stops at the first match.
proof fn lemma_map_of_value_any(s: Seq<(Vec<bool>, Digest)>, i: int, k: Seq<bool>)
    requires
        0 <= i < s.len(),
        s[i].0@ == k,
        forall|j: int| 0 <= j < i ==> s[j].0@ != k,
        keys_unique(s),
    ensures
        map_of(s).contains_key(k),
        map_of(s)[k] == s[i].1,
{
    lemma_map_of_value(s, i);
}

/// Overwriting the entry that holds a key updates the map at that key.
proof fn lemma_map_of_set(s: Seq<(Vec<bool>, Digest)>, i: int, e: (Vec<bool>, Digest))
    requires
        keys_unique(s),
        0 <= i < s.len(),
        s[i].0@ == e.0@,
    ensures
        keys_unique(s.update(i, e)),
        map_of(s.update(i, e)) == map_of(s).insert(e.0@, e.1),
{
    let s2 = s.update(i, e);
    assert forall|p: int, q: int| 0 <= p < q < s2.len() implies s2[p].0@ != s2[q].0@ by {
        assert(s2[p].0@ == s[p].0@ || p == i);
        assert(s2[q].0@ == s[q].0@ || q == i);
    }
    let m1 = map_of(s2);
    let m2 = map_of(s).insert(e.0@, e.1);
    assert forall|k: Seq<bool>| m1.contains_key(k) <==> m2.contains_key(k) by {
        lemma_map_of_contains(s2, k);
        lemma_map_of_contains(s, k);
        if exists|j: int| 0 <= j < s.len() && s[j].0@ == k {
            let j = choose|j: int| 0 <= j < s.len() && s[j].0@ == k;
            assert(s2[j].0@ == k);
        }
        if exists|j: int| 0 <= j < s2.len() && s2[j].0@ == k {
            let j = choose|j: int| 0 <= j < s2.len() && s2[j].0@ == k;
            assert(s[j].0@ == k || k == e.0@);
        }
    }
    assert forall|k: Seq<bool>| m1.contains_key(k) implies m1[k] == m2[k] by {
        lemma_map_of_contains(s2, k);
        let j = choose|j: int| 0 <= j < s2.len() && s2[j].0@ == k;
        lemma_map_of_value(s2, j);
        if k == e.0@ {
            assert(s2[i] == e);
            assert(j == i);
        } else {
            assert(j != i);
            assert(s2[j] == s[j]);
            lemma_map_of_value(s, j);
        }
    }
    assert(m1 =~= m2);
}

} // verus!
