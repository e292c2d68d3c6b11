use btc_codec::{
    BitcoinError, BitcoinTransaction, OutPoint, Script, TransactionInput, Txid,
};

fn sample_txid_bytes() -> [u8; 32] {
    let mut a = [0u8; 32];
    let mut i = 0;
    while i < 32 {
        a[i] = (0x20 + i) as u8;
        i += 1;
    }
    a
}

#[test]
fn outpoint_round_trip() {
    let op = OutPoint::new(sample_txid_bytes(), 0xDEADBEEF);
    let bytes = op.to_bytes();
    assert_eq!(bytes.len(), 36);
    assert_eq!(&bytes[0..32], &sample_txid_bytes()[..]);
    assert_eq!(&bytes[32..36], &[0xEF, 0xBE, 0xAD, 0xDE]);
    let (decoded, consumed) = OutPoint::from_bytes(&bytes).unwrap();
    assert_eq!(decoded, op);
    assert_eq!(consumed, 36);
}

#[test]
fn outpoint_truncated_fails() {
    let op = OutPoint::new(sample_txid_bytes(), 7);
    let bytes = op.to_bytes();
    assert_eq!(
        OutPoint::from_bytes(&bytes[0..35]),
        Err(BitcoinError::InsufficientBytes)
    );
    assert_eq!(
        OutPoint::from_bytes(&[]),
        Err(BitcoinError::InsufficientBytes)
    );
}

#[test]
fn script_round_trip() {
    let s = Script::new(vec![0x51, 0x52, 0x53]);
    let bytes = s.to_bytes();
    assert_eq!(bytes, vec![0x03, 0x51, 0x52, 0x53]);
    let (decoded, consumed) = Script::from_bytes(&bytes).unwrap();
    assert_eq!(decoded, s);
    assert_eq!(consumed, 4);
}

#[test]
fn script_empty_round_trip() {
    let s = Script::new(vec![]);
    let bytes = s.to_bytes();
    assert_eq!(bytes, vec![0x00]);
    let (decoded, consumed) = Script::from_bytes(&bytes).unwrap();
    assert_eq!(decoded, s);
    assert_eq!(consumed, 1);
}

#[test]
fn script_declared_length_beyond_buffer_fails() {
    // prefix declares 5 payload bytes, only 2 follow
    assert_eq!(
        Script::from_bytes(&[0x05, 0x01, 0x02]),
        Err(BitcoinError::InsufficientBytes)
    );
}

#[test]
fn script_huge_declared_length_fails() {
    // an 8-byte prefix declaring u64::MAX payload bytes must fail cleanly
    let buf = [0xFF, 0xFF, 0xFF, 0xFF, 0xFF, 0xFF, 0xFF, 0xFF, 0xFF, 0x00];
    assert_eq!(
        Script::from_bytes(&buf),
        Err(BitcoinError::InsufficientBytes)
    );
}

#[test]
fn script_truncated_one_short_fails() {
    let s = Script::new(vec![9, 8, 7, 6]);
    let bytes = s.to_bytes();
    assert_eq!(
        Script::from_bytes(&bytes[0..bytes.len() - 1]),
        Err(BitcoinError::InsufficientBytes)
    );
    assert_eq!(
        Script::from_bytes(&[]),
        Err(BitcoinError::InsufficientBytes)
    );
}

fn sample_input() -> TransactionInput {
    TransactionInput::new(
        OutPoint::new(sample_txid_bytes(), 1),
        Script::new(vec![0xAB, 0xCD]),
        0x01020304,
    )
}

#[test]
fn input_round_trip() {
    let input = sample_input();
    let bytes = input.to_bytes();
    // 36 outpoint + 1 length prefix + 2 payload + 4 sequence
    assert_eq!(bytes.len(), 43);
    let (decoded, consumed) = TransactionInput::from_bytes(&bytes).unwrap();
    assert_eq!(decoded, input);
    assert_eq!(consumed, 43);
}

#[test]
fn input_truncated_one_short_fails() {
    let bytes = sample_input().to_bytes();
    assert_eq!(
        TransactionInput::from_bytes(&bytes[0..bytes.len() - 1]),
        Err(BitcoinError::InsufficientBytes)
    );
    assert_eq!(
        TransactionInput::from_bytes(&[]),
        Err(BitcoinError::InsufficientBytes)
    );
}

#[test]
fn empty_transaction_encodes_to_nine_bytes() {
    let tx = BitcoinTransaction::new(1, vec![], 0);
    let bytes = tx.to_bytes();
    assert_eq!(bytes, vec![0x01, 0x00, 0x00, 0x00, 0x00, 0x00, 0x00, 0x00, 0x00]);
    let (decoded, consumed) = BitcoinTransaction::from_bytes(&bytes).unwrap();
    assert_eq!(decoded, tx);
    assert_eq!(consumed, 9);
}

#[test]
fn single_input_transaction_consumed_matches_length() {
    let input = TransactionInput::new(
        OutPoint::new(sample_txid_bytes(), 0),
        Script::new(vec![]),
        0xFFFFFFFF,
    );
    let tx = BitcoinTransaction::new(2, vec![input], 0);
    let bytes = tx.to_bytes();
    // 4 version + 1 count + (36 outpoint + 1 script length + 0 + 4 sequence) + 4 lock time
    assert_eq!(bytes.len(), 50);
    let (decoded, consumed) = BitcoinTransaction::from_bytes(&bytes).unwrap();
    assert_eq!(decoded, tx);
    assert_eq!(consumed, bytes.len());
}

#[test]
fn two_input_transaction_round_trip() {
    let a = TransactionInput::new(
        OutPoint::new(sample_txid_bytes(), 5),
        Script::new(vec![1, 2, 3, 4, 5]),
        0,
    );
    let b = TransactionInput::new(
        OutPoint::new([0xEE; 32], 0xFFFFFFFF),
        Script::new(vec![]),
        42,
    );
    let tx = BitcoinTransaction::new(0x7FFFFFFF, vec![a, b], 0xFEDCBA98);
    let bytes = tx.to_bytes();
    let (decoded, consumed) = BitcoinTransaction::from_bytes(&bytes).unwrap();
    assert_eq!(decoded, tx);
    assert_eq!(consumed, bytes.len());
}

#[test]
fn transaction_truncated_fails() {
    let tx = BitcoinTransaction::new(1, vec![sample_input()], 77);
    let bytes = tx.to_bytes();
    for cut in [0, 3, 4, 5, bytes.len() - 4, bytes.len() - 1] {
        assert_eq!(
            BitcoinTransaction::from_bytes(&bytes[0..cut]),
            Err(BitcoinError::InsufficientBytes),
            "cut at {}",
            cut
        );
    }
}

#[test]
fn transaction_declared_count_beyond_buffer_fails() {
    // version, a declared count of 2, but only one (empty-script) input
    let mut bytes = vec![0x01, 0x00, 0x00, 0x00, 0x02];
    bytes.extend_from_slice(&sample_txid_bytes());
    bytes.extend_from_slice(&[0, 0, 0, 0]); // vout
    bytes.push(0); // empty script
    bytes.extend_from_slice(&[0xFF, 0xFF, 0xFF, 0xFF]); // sequence
    bytes.extend_from_slice(&[0, 0, 0, 0]); // would-be lock time
    assert_eq!(
        BitcoinTransaction::from_bytes(&bytes),
        Err(BitcoinError::InsufficientBytes)
    );
}

#[test]
fn trailing_bytes_after_transaction_are_ignored() {
    let tx = BitcoinTransaction::new(1, vec![], 9);
    let mut bytes = tx.to_bytes();
    let full = bytes.len();
    bytes.extend_from_slice(&[0xAA, 0xBB, 0xCC]);
    let (decoded, consumed) = BitcoinTransaction::from_bytes(&bytes).unwrap();
    assert_eq!(decoded, tx);
    assert_eq!(consumed, full);
}

#[test]
fn non_canonical_count_prefix_is_accepted() {
    // input count 0 written in the oversized 3-byte form
    let bytes = vec![0x01, 0x00, 0x00, 0x00, 0xFD, 0x00, 0x00, 0x09, 0x00, 0x00, 0x00];
    let (decoded, consumed) = BitcoinTransaction::from_bytes(&bytes).unwrap();
    assert_eq!(decoded, BitcoinTransaction::new(1, vec![], 9));
    assert_eq!(consumed, 11);
}
