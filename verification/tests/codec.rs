use interpreter::txn::{MalformedData, Transaction};

#[test]
fn codec_round_trip() {
    let t = Transaction {
        vk: vec![1u8, 2, 3],
        proof_data: vec![],
        common: vec![0xff; 17],
        new_value: 0xDEAD_BEEF_0BAD_F00D,
    };
    let data = t.serialize();
    let back = Transaction::deserialize(&data).unwrap();
    assert_eq!(back.vk, t.vk);
    assert_eq!(back.proof_data, t.proof_data);
    assert_eq!(back.common, t.common);
    assert_eq!(back.new_value, t.new_value);
}

#[test]
fn codec_empty_blobs_round_trip() {
    let t = Transaction { vk: vec![], proof_data: vec![], common: vec![], new_value: 0 };
    let data = t.serialize();
    // Three zero length prefixes and the value: 32 bytes in all.
    assert_eq!(data.len(), 32);
    let back = Transaction::deserialize(&data).unwrap();
    assert_eq!(back.vk, Vec::<u8>::new());
    assert_eq!(back.new_value, 0);
}

fn is_malformed(r: Result<Transaction, MalformedData>) -> bool {
    matches!(r, Err(MalformedData))
}

#[test]
fn codec_rejects_malformed() {
    assert!(is_malformed(Transaction::deserialize(&[])));
    assert!(is_malformed(Transaction::deserialize(&[0u8; 7])));
    // A length prefix that runs past the end of the data.
    let mut data = vec![0u8; 8];
    data[0] = 200;
    assert!(is_malformed(Transaction::deserialize(&data)));
    // A well-formed transaction with a trailing byte is not a transaction.
    let t = Transaction { vk: vec![5u8], proof_data: vec![6u8], common: vec![], new_value: 1 };
    let mut bytes = t.serialize();
    bytes.push(0);
    assert!(is_malformed(Transaction::deserialize(&bytes)));
    // Truncating the value bytes must be rejected too.
    let mut short = t.serialize();
    short.pop();
    assert!(is_malformed(Transaction::deserialize(&short)));
}
