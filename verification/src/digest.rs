use vstd::prelude::*;
use vstd::bytes::{spec_u64_from_le_bytes, u64_from_le_bytes};
use vstd::slice::slice_subrange;

verus! {

/// A 256-bit value, stored as four ordered 64-bit words.
///
/// A digest serves three roles: as an address into the key space, as the hash
/// of a tree node, and as the root commitment itself.  For traversal the
/// word `e3` is the most significant: the first path bit is the top bit of
/// `e3` and the last path bit is the bottom bit of `e0`.
#[derive(Clone, Copy, PartialEq, Eq, Structural, Debug)]
pub struct Digest {
    pub e0: u64,
    pub e1: u64,
    pub e2: u64,
    pub e3: u64,
}

impl Digest {
    /// The word at index `k`, with `k` in `0..4`.
    pub open spec fn element(self, k: int) -> u64 {
        if k == 0 {
            self.e0
        } else if k == 1 {
            self.e1
        } else if k == 2 {
            self.e2
        } else {
            self.e3
        }
    }

    pub fn new(e0: u64, e1: u64, e2: u64, e3: u64) -> (r: Digest)
        ensures
            r == (Digest { e0, e1, e2, e3 }),
    {
        Digest { e0, e1, e2, e3 }
    }
}

/// Bit `j` of the word `w`, counting from the least significant bit.
pub open spec fn bit_of(w: u64, j: u64) -> bool
    recommends
        j < 64,
{
    ((w >> j) & 1u64) == 1u64
}

/// The canonical traversal path of a digest: 256 booleans, most significant
/// bit first.  Bit `i` of the path is bit `63 - i % 64` of word `3 - i / 64`.
pub open spec fn path_spec(d: Digest) -> Seq<bool> {
    Seq::new(256, |i: int| bit_of(d.element(3 - i / 64), (63 - i % 64) as u64))
}

/// Derives the 256-bit traversal path of a digest, most significant bit
/// first.  A total, pure function of its input.
pub fn get_path(hash: &Digest) -> (r: Vec<bool>)
    ensures
        r@ == path_spec(*hash),
{
    let mut path: Vec<bool> = Vec::new();
    let mut i: usize = 0;
    while i < 256
        invariant
            i <= 256,
            path@.len() == i,
            forall|j: int| 0 <= j < i ==> path@[j] == path_spec(*hash)[j],
        decreases 256 - i,
    {
        let e: u64 = match i / 64 {
            0 => hash.e3,
            1 => hash.e2,
            2 => hash.e1,
            _ => hash.e0,
        };
        let sh: u64 = 63 - (i % 64) as u64;
        path.push(((e >> sh) & 1u64) == 1u64);
        i = i + 1;
    }
    assert(path@ =~= path_spec(*hash));
    path
}

/// Words that agree on every bit from `n` upward agree once shifted down
/// by `n`.
proof fn lemma_shr_eq(x: u64, y: u64, n: u64)
    requires
        n <= 64,
        forall|j: u64| j < 64 ==> #[trigger] bit_of(x, j) == bit_of(y, j),
    ensures
        (x >> n) == (y >> n),
    decreases 64 - n,
{
    if n >= 64 {
        assert((x >> n) == (y >> n)) by (bit_vector)
            requires
                n >= 64,
        ;
    } else {
        let n1: u64 = (n + 1) as u64;
        lemma_shr_eq(x, y, n1);
        assert(bit_of(x, n) == bit_of(y, n));
        assert((x >> n) == (y >> n)) by (bit_vector)
            requires
                n < 64,
                n1 == n + 1,
                (x >> n1) == (y >> n1),
                (((x >> n) & 1u64) == 1u64) == (((y >> n) & 1u64) == 1u64),
        ;
    }
}

/// The low `num_bits` bits of a word, least significant first.
pub open spec fn le_bits(value: u64, num_bits: int) -> Seq<bool> {
    Seq::new(num_bits as nat, |i: int| bit_of(value, i as u64))
}

/// Splits a word into its low `num_bits` bits, least significant first.
pub fn split_le_field_element(value: u64, num_bits: usize) -> (r: Vec<bool>)
    requires
        num_bits <= 64,
    ensures
        r@ == le_bits(value, num_bits as int),
{
    let mut bits: Vec<bool> = Vec::new();
    let mut i: usize = 0;
    while i < num_bits
        invariant
            i <= num_bits,
            num_bits <= 64,
            bits@.len() == i,
            forall|j: int| 0 <= j < i ==> bits@[j] == le_bits(value, num_bits as int)[j],
        decreases num_bits - i,
    {
        bits.push(((value >> (i as u64)) & 1u64) == 1u64);
        i = i + 1;
    }
    assert(bits@ =~= le_bits(value, num_bits as int));
    bits
}

/// A digest split word by word into little-endian bits, word `e0` first:
/// the exact reversal of the traversal path when every bit is taken.
pub open spec fn split_hash_le_spec(d: Digest, num_bits: int) -> Seq<bool> {
    le_bits(d.e0, num_bits) + le_bits(d.e1, num_bits) + le_bits(d.e2, num_bits) + le_bits(
        d.e3,
        num_bits,
    )
}

/// Splits a digest into the low `bits_per_element` bits of each word,
/// least significant first, word `e0` first.
pub fn split_hash_le(hash: &Digest, bits_per_element: usize) -> (r: Vec<bool>)
    requires
        bits_per_element <= 64,
    ensures
        r@ == split_hash_le_spec(*hash, bits_per_element as int),
{
    let mut r = split_le_field_element(hash.e0, bits_per_element);
    let mut r1 = split_le_field_element(hash.e1, bits_per_element);
    let mut r2 = split_le_field_element(hash.e2, bits_per_element);
    let mut r3 = split_le_field_element(hash.e3, bits_per_element);
    r.append(&mut r1);
    r.append(&mut r2);
    r.append(&mut r3);
    r
}

/// The traversal path is the full little-endian split read backwards.
pub proof fn lemma_path_reverses_le_split(d: Digest)
    ensures
        path_spec(d) == split_hash_le_spec(d, 64).reverse(),
{
    let s = split_hash_le_spec(d, 64);
    assert(s.len() == 256);
    assert forall|i: int| 0 <= i < 256 implies path_spec(d)[i] == s.reverse()[i] by {
        let t = 255 - i;
        let q = i / 64;
        let r = i % 64;
        vstd::arithmetic::div_mod::lemma_fundamental_div_mod(i, 64);
        vstd::arithmetic::div_mod::lemma_fundamental_div_mod_converse(t, 64, 3 - q, 63 - r);
        assert(s.reverse()[i] == s[t]);
        if q == 0 {
            assert(s[t] == bit_of(d.e3, ((63 - r)) as u64));
        } else if q == 1 {
            assert(s[t] == bit_of(d.e2, ((63 - r)) as u64));
        } else if q == 2 {
            assert(s[t] == bit_of(d.e1, ((63 - r)) as u64));
        } else {
            assert(q == 3);
            assert(s[t] == bit_of(d.e0, ((63 - r)) as u64));
        }
    }
    assert(path_spec(d) =~= s.reverse());
}

/// Two words with the same bits are the same word.
proof fn lemma_word_from_bits(x: u64, y: u64)
    requires
        forall|j: u64| j < 64 ==> #[trigger] bit_of(x, j) == bit_of(y, j),
    ensures
        x == y,
{
    lemma_shr_eq(x, y, 0);
    assert((x >> 0u64) == x) by (bit_vector);
    assert((y >> 0u64) == y) by (bit_vector);
}

/// Path derivation is injective: distinct digests traverse distinct paths.
pub proof fn lemma_path_injective(a: Digest, b: Digest)
    requires
        path_spec(a) == path_spec(b),
    ensures
        a == b,
{
    assert forall|k: int, j: u64| 0 <= k < 4 && j < 64 implies #[trigger] bit_of(
        a.element(k),
        j,
    ) == bit_of(b.element(k), j) by {
        let i = 64 * (3 - k) + (63 - j);
        vstd::arithmetic::div_mod::lemma_fundamental_div_mod_converse(
            i,
            64,
            3 - k,
            63 - j,
        );
        assert(path_spec(a)[i] == bit_of(a.element(k), j));
        assert(path_spec(b)[i] == bit_of(b.element(k), j));
    }
    assert forall|j: u64| j < 64 implies #[trigger] bit_of(a.e0, j) == bit_of(b.e0, j) by {
        assert(bit_of(a.element(0), j) == bit_of(b.element(0), j));
    }
    assert forall|j: u64| j < 64 implies #[trigger] bit_of(a.e1, j) == bit_of(b.e1, j) by {
        assert(bit_of(a.element(1), j) == bit_of(b.element(1), j));
    }
    assert forall|j: u64| j < 64 implies #[trigger] bit_of(a.e2, j) == bit_of(b.e2, j) by {
        assert(bit_of(a.element(2), j) == bit_of(b.element(2), j));
    }
    assert forall|j: u64| j < 64 implies #[trigger] bit_of(a.e3, j) == bit_of(b.e3, j) by {
        assert(bit_of(a.element(3), j) == bit_of(b.element(3), j));
    }
    lemma_word_from_bits(a.e0, b.e0);
    lemma_word_from_bits(a.e1, b.e1);
    lemma_word_from_bits(a.e2, b.e2);
    lemma_word_from_bits(a.e3, b.e3);
}

/// The digest whose words are read little-endian from a 32-byte string,
/// lowest-addressed word first.
pub open spec fn digest_from_le_bytes(s: Seq<u8>) -> Digest
    recommends
        s.len() == 32,
{
    Digest {
        e0: spec_u64_from_le_bytes(s.subrange(0, 8)),
        e1: spec_u64_from_le_bytes(s.subrange(8, 16)),
        e2: spec_u64_from_le_bytes(s.subrange(16, 24)),
        e3: spec_u64_from_le_bytes(s.subrange(24, 32)),
    }
}

/// Packs a 32-byte hash into a digest, reading each word little-endian.
pub fn blake3_to_hashout(blake3_hash: &[u8]) -> (r: Digest)
    requires
        blake3_hash@.len() == 32,
    ensures
        r == digest_from_le_bytes(blake3_hash@),
{
    let e0 = u64_from_le_bytes(slice_subrange(blake3_hash, 0, 8));
    let e1 = u64_from_le_bytes(slice_subrange(blake3_hash, 8, 16));
    let e2 = u64_from_le_bytes(slice_subrange(blake3_hash, 16, 24));
    let e3 = u64_from_le_bytes(slice_subrange(blake3_hash, 24, 32));
    Digest { e0, e1, e2, e3 }
}

} // verus!
