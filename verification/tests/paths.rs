use interpreter::digest::{blake3_to_hashout, get_path, split_hash_le, split_le_field_element, Digest};
use interpreter::hashes::{address_of, hash_kv};
use interpreter::inttype::{get_integer_bitsize, P2Type};

fn word_of(bytes: &[u8]) -> u64 {
    let mut w: u64 = 0;
    for k in (0..8).rev() {
        w = (w << 8) | bytes[k] as u64;
    }
    w
}

#[test]
fn teset_fn() {
    let key = Digest::new(
        0x1234567890ABCDEF,
        0xFEDCBA0987654321,
        0x0A1B2C3D4E5F6A7B,
        0x8C9DAEBFC0D1E2F3,
    );
    let mut index = get_path(&key);
    index.extend_from_slice(&get_path(&key));
    assert_eq!(index.len(), 512);

    let key_path1 = get_path(&key);
    let mut key_path3 = split_hash_le(&key, 64);
    key_path3.reverse();
    assert_eq!(key_path1, key_path3.clone());

    let addr_bk = blake3::hash(&[1]);
    let key_bk = blake3::hash(&[2]);
    assert_ne!(addr_bk, key_bk);
    let addr_bk_to_p = blake3_to_hashout(addr_bk.as_bytes());
    assert_eq!(addr_bk_to_p.e0, word_of(&addr_bk.as_bytes()[0..8]));
    assert_eq!(addr_bk_to_p.e3, word_of(&addr_bk.as_bytes()[24..32]));
}

#[test]
fn path_is_msb_first() {
    let top = Digest::new(0, 0, 0, 1u64 << 63);
    let p = get_path(&top);
    assert!(p[0]);
    assert!(p[1..256].iter().all(|b| !b));

    let bottom = Digest::new(1, 0, 0, 0);
    let q = get_path(&bottom);
    assert!(q[255]);
    assert!(q[0..255].iter().all(|b| !b));
}

#[test]
fn path_has_256_bits() {
    let p = get_path(&Digest::new(7, 8, 9, 10));
    assert_eq!(p.len(), 256);
}

#[test]
fn split_le_low_bits() {
    let bits = split_le_field_element(0b101, 4);
    assert_eq!(bits, vec![true, false, true, false]);
    assert_eq!(split_le_field_element(u64::MAX, 64).len(), 64);
    assert_eq!(split_le_field_element(123, 0).len(), 0);
}

#[test]
fn kv_hash_matches_reference_hash() {
    // The library's digest of a key/value pair must be the reference hash
    // of the concatenation, word for word; in particular the trusted
    // wrapper cannot be handing its input back unchanged.
    let lib = hash_kv(b"ab", b"cd");
    let expected = blake3::hash(b"abcd");
    let bytes = expected.as_bytes();
    assert_eq!(lib.e0, word_of(&bytes[0..8]));
    assert_eq!(lib.e1, word_of(&bytes[8..16]));
    assert_eq!(lib.e2, word_of(&bytes[16..24]));
    assert_eq!(lib.e3, word_of(&bytes[24..32]));
}

#[test]
fn address_derivation_matches_reference_hash() {
    let vk = [9u8, 8, 7];
    let a = address_of(&vk);
    let expected = blake3_to_hashout(blake3::hash(&vk).as_bytes());
    assert_eq!(a, expected);
    assert_ne!(a, address_of(&[9u8, 8]));
}

#[test]
fn integer_bitsize_by_type() {
    assert_eq!(get_integer_bitsize(&P2Type::Integer(21)), Some(21));
    assert_eq!(get_integer_bitsize(&P2Type::Integer(64)), Some(64));
    assert_eq!(get_integer_bitsize(&P2Type::Field), Some(64));
    assert_eq!(get_integer_bitsize(&P2Type::Other), None);
}
