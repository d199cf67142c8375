use vstd::prelude::*;
use vstd::bytes::{spec_u64_from_le_bytes, spec_u64_to_le_bytes, u64_from_le_bytes, u64_to_le_bytes};
use vstd::slice::{slice_subrange, slice_to_vec};

verus! {

/// An externally supplied blob could not be decoded.  Deserialization never
/// substitutes defaults: malformed input is reported, not repaired.
#[derive(Clone, Copy, PartialEq, Eq, Structural, Debug)]
pub struct MalformedData;

/// A requested state transition: the verifying key that the target address
/// is derived from, the opaque correctness proof, the opaque circuit
/// description, and the value to store.  The three blobs belong to the
/// external proof system; this crate never looks inside them.
pub struct Transaction {
    pub vk: Vec<u8>,
    pub proof_data: Vec<u8>,
    pub common: Vec<u8>,
    pub new_value: u64,
}

/// One length-prefixed block: eight little-endian length bytes, then the
/// block's bytes.
pub open spec fn spec_block(b: Seq<u8>) -> Seq<u8> {
    spec_u64_to_le_bytes(b.len() as u64) + b
}

/// The wire form of a transaction: its three blobs length-prefixed, then
/// the new value in eight little-endian bytes.
pub open spec fn spec_serialize(t: Transaction) -> Seq<u8> {
    spec_block(t.vk@) + spec_block(t.proof_data@) + spec_block(t.common@)
        + spec_u64_to_le_bytes(t.new_value)
}

/// Reads one length-prefixed block at `off`; `None` when the length field
/// or the block itself runs past the end of the data.
pub open spec fn spec_read_block(data: Seq<u8>, off: int) -> Option<(Seq<u8>, int)> {
    if off + 8 <= data.len() {
        let n = spec_u64_from_le_bytes(data.subrange(off, off + 8)) as int;
        if off + 8 + n <= data.len() {
            Some((data.subrange(off + 8, off + 8 + n), off + 8 + n))
        } else {
            None
        }
    } else {
        None
    }
}

/// The fields encoded by a byte string, or `None` when it is not exactly
/// three length-prefixed blocks followed by eight value bytes.
pub open spec fn spec_deserialize(data: Seq<u8>) -> Option<(Seq<u8>, Seq<u8>, Seq<u8>, u64)> {
    match spec_read_block(data, 0) {
        Option::None => Option::None,
        Option::Some((vk, o1)) => match spec_read_block(data, o1) {
            Option::None => Option::None,
            Option::Some((pf, o2)) => match spec_read_block(data, o2) {
                Option::None => Option::None,
                Option::Some((cm, o3)) => if o3 + 8 == data.len() {
                    Option::Some((vk, pf, cm, spec_u64_from_le_bytes(data.subrange(o3, o3 + 8))))
                } else {
                    Option::None
                },
            },
        },
    }
}

/// Appends one length-prefixed block to `out`.
fn write_block(out: &mut Vec<u8>, b: &Vec<u8>)
    ensures
        final(out)@ == old(out)@ + spec_block(b@),
{
    let mut len_bytes = u64_to_le_bytes(b.len() as u64);
    out.append(&mut len_bytes);
    out.extend_from_slice(b.as_slice());
    assert(out@ =~= old(out)@ + spec_block(b@));
}

/// Reads one length-prefixed block at `*off`, advancing the offset.
fn read_block(data: &[u8], off: &mut usize) -> (r: Result<Vec<u8>, MalformedData>)
    requires
        *old(off) <= data@.len(),
    ensures
        match r {
            Result::Ok(b) => {
                &&& spec_read_block(data@, *old(off) as int) == Some(
                    (b@, *final(off) as int),
                )
                &&& *final(off) <= data@.len()
            },
            Result::Err(e) => {
                &&& spec_read_block(data@, *old(off) as int) is None
                &&& e == MalformedData
            },
        },
{
    if data.len() - *off < 8 {
        return Err(MalformedData);
    }
    let n64 = u64_from_le_bytes(slice_subrange(data, *off, *off + 8));
    if n64 > (data.len() - (*off + 8)) as u64 {
        return Err(MalformedData);
    }
    let n = n64 as usize;
    let start = *off + 8;
    let b = slice_to_vec(slice_subrange(data, start, start + n));
    *off = start + n;
    Ok(b)
}

impl Transaction {
    /// Encodes the transaction for the wire: each blob length-prefixed,
    /// then the value, a round-trip-exact fixed framing.
    pub fn serialize(&self) -> (r: Vec<u8>)
        ensures
            r@ == spec_serialize(*self),
    {
        let mut out: Vec<u8> = Vec::new();
        write_block(&mut out, &self.vk);
        write_block(&mut out, &self.proof_data);
        write_block(&mut out, &self.common);
        let mut value_bytes = u64_to_le_bytes(self.new_value);
        out.append(&mut value_bytes);
        assert(out@ =~= spec_serialize(*self));
        out
    }

    /// Decodes a transaction from the wire; data that is not exactly one
    /// encoded transaction is rejected as malformed.
    pub fn deserialize(data: &[u8]) -> (r: Result<Transaction, MalformedData>)
        ensures
            match r {
                Result::Ok(t) => spec_deserialize(data@) == Some(
                    (t.vk@, t.proof_data@, t.common@, t.new_value),
                ),
                Result::Err(e) => {
                    &&& spec_deserialize(data@) is None
                    &&& e == MalformedData
                },
            },
    {
        let mut off: usize = 0;
        let vk = match read_block(data, &mut off) {
            Ok(b) => b,
            Err(e) => {
                return Err(e);
            },
        };
        let proof_data = match read_block(data, &mut off) {
            Ok(b) => b,
            Err(e) => {
                return Err(e);
            },
        };
        let common = match read_block(data, &mut off) {
            Ok(b) => b,
            Err(e) => {
                return Err(e);
            },
        };
        if data.len() - off != 8 {
            return Err(MalformedData);
        }
        let new_value = u64_from_le_bytes(slice_subrange(data, off, off + 8));
        Ok(Transaction { vk, proof_data, common, new_value })
    }
}

/// Round-trip: decoding an encoded transaction gives back exactly its
/// fields.  The length bounds only say that each blob's length fits in its
/// eight-byte prefix, which holds of every blob a program can build.
pub proof fn lemma_codec_round_trip(t: Transaction)
    requires
        t.vk@.len() <= u64::MAX,
        t.proof_data@.len() <= u64::MAX,
        t.common@.len() <= u64::MAX,
    ensures
        spec_deserialize(spec_serialize(t)) == Some(
            (t.vk@, t.proof_data@, t.common@, t.new_value),
        ),
{
    vstd::bytes::lemma_auto_spec_u64_to_from_le_bytes();
    let data = spec_serialize(t);
    let n1 = t.vk@.len() as int;
    let n2 = t.proof_data@.len() as int;
    let n3 = t.common@.len() as int;
    let o1 = 8 + n1;
    let o2 = o1 + 8 + n2;
    let o3 = o2 + 8 + n3;
    assert(data.len() == o3 + 8);
    assert(data.subrange(0, 8) =~= spec_u64_to_le_bytes(t.vk@.len() as u64));
    assert(data.subrange(8, o1) =~= t.vk@);
    assert(spec_read_block(data, 0) == Some((t.vk@, o1)));
    assert(data.subrange(o1, o1 + 8) =~= spec_u64_to_le_bytes(t.proof_data@.len() as u64));
    assert(data.subrange(o1 + 8, o2) =~= t.proof_data@);
    assert(spec_read_block(data, o1) == Some((t.proof_data@, o2)));
    assert(data.subrange(o2, o2 + 8) =~= spec_u64_to_le_bytes(t.common@.len() as u64));
    assert(data.subrange(o2 + 8, o3) =~= t.common@);
    assert(spec_read_block(data, o2) == Some((t.common@, o3)));
    assert(data.subrange(o3, o3 + 8) =~= spec_u64_to_le_bytes(t.new_value));
}

} // verus!
