use vstd::prelude::*;
use vstd::bytes::{spec_u64_to_le_bytes, u64_to_le_bytes};
use crate::digest::{blake3_to_hashout, digest_from_le_bytes, Digest};

verus! {

/// The 32-byte string that the BLAKE3 hash assigns to a byte string.  Known
/// only by name: every appeal to the hash goes through this function, so two
/// equal inputs are known to give equal digests and nothing more.
pub uninterp spec fn blake3_of(data: Seq<u8>) -> Seq<u8>;

/// Relies on `blake3::hash`: the digest depends on the input bytes alone,
/// and the default output is exactly 32 bytes.
#[verifier::external_body]
pub(crate) fn hash_v(value: &[u8]) -> (r: Vec<u8>)
    ensures
        r@ == blake3_of(value@),
        r@.len() == 32,
{
    blake3::hash(value).as_bytes().to_vec()
}

/// The 32 bytes of a digest: each word little-endian, word `e0` first.
pub open spec fn digest_bytes(d: Digest) -> Seq<u8> {
    spec_u64_to_le_bytes(d.e0) + spec_u64_to_le_bytes(d.e1) + spec_u64_to_le_bytes(d.e2)
        + spec_u64_to_le_bytes(d.e3)
}

/// The digest of a pair of byte strings: the hash of their concatenation.
pub open spec fn kv_digest(key: Seq<u8>, value: Seq<u8>) -> Digest {
    digest_from_le_bytes(blake3_of(key + value))
}

/// The two-child-to-parent combine hash for internal tree nodes.
pub open spec fn combine_of(left: Digest, right: Digest) -> Digest {
    digest_from_le_bytes(blake3_of(digest_bytes(left) + digest_bytes(right)))
}

/// The domain tag appended when hashing a stored value into a leaf, the
/// ASCII bytes of the word "value".  It keeps leaf hashes apart from
/// internal-node hashes, whose input is always two whole digests.
pub open spec fn value_tag() -> Seq<u8> {
    seq![118u8, 97u8, 108u8, 117u8, 101u8]
}

/// The leaf digest of a stored value: the value's eight little-endian bytes,
/// domain-separated by [`value_tag`].
pub open spec fn leaf_of(value: u64) -> Digest {
    kv_digest(spec_u64_to_le_bytes(value), value_tag())
}

/// Serializes a digest into its 32 bytes, each word little-endian.
pub fn digest_to_bytes(d: &Digest) -> (r: Vec<u8>)
    ensures
        r@ == digest_bytes(*d),
        r@.len() == 32,
{
    let mut r = u64_to_le_bytes(d.e0);
    let mut r1 = u64_to_le_bytes(d.e1);
    let mut r2 = u64_to_le_bytes(d.e2);
    let mut r3 = u64_to_le_bytes(d.e3);
    r.append(&mut r1);
    r.append(&mut r2);
    r.append(&mut r3);
    r
}

/// Hashes the concatenation of two byte strings into a digest.
pub fn hash_kv(key: &[u8], value: &[u8]) -> (r: Digest)
    ensures
        r == kv_digest(key@, value@),
{
    let mut buf: Vec<u8> = Vec::new();
    buf.extend_from_slice(key);
    buf.extend_from_slice(value);
    assert(buf@ =~= key@ + value@);
    let h = hash_v(buf.as_slice());
    blake3_to_hashout(h.as_slice())
}

/// Computes the hash of two child digests, the internal-node combine.
pub fn hash_children(left: &Digest, right: &Digest) -> (r: Digest)
    ensures
        r == combine_of(*left, *right),
{
    let mut buf = digest_to_bytes(left);
    let mut rb = digest_to_bytes(right);
    buf.append(&mut rb);
    let h = hash_v(buf.as_slice());
    blake3_to_hashout(h.as_slice())
}

/// Computes the leaf digest of a stored value.
pub fn leaf_hash(value: u64) -> (r: Digest)
    ensures
        r == leaf_of(value),
{
    let vb = u64_to_le_bytes(value);
    let mut tag: Vec<u8> = Vec::new();
    tag.push(118);
    tag.push(97);
    tag.push(108);
    tag.push(117);
    tag.push(101);
    assert(tag@ =~= value_tag());
    hash_kv(vb.as_slice(), tag.as_slice())
}

/// Derives the tree address committed to by an opaque verifying key: the
/// key's hash, packed into a digest word by word.
pub fn address_of(data: &[u8]) -> (r: Digest)
    ensures
        r == digest_from_le_bytes(blake3_of(data@)),
{
    let h = hash_v(data);
    blake3_to_hashout(h.as_slice())
}

} // verus!
