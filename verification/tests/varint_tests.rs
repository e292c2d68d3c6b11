use btc_codec::{BitcoinError, CompactSize};

#[test]
fn boundary_values_encode_to_table_width_and_round_trip() {
    let cases: Vec<(u64, usize)> = vec![
        (0, 1),
        (252, 1),
        (253, 3),
        (65535, 3),
        (65536, 5),
        (4294967295, 5),
        (4294967296, 9),
        (u64::MAX, 9),
    ];
    for (value, width) in cases {
        let encoded = CompactSize::new(value).to_bytes();
        assert_eq!(encoded.len(), width, "width for {}", value);
        let (decoded, consumed) = CompactSize::from_bytes(&encoded).unwrap();
        assert_eq!(decoded.value, value);
        assert_eq!(consumed, width);
    }
}

#[test]
fn exact_encodings() {
    assert_eq!(CompactSize::new(0).to_bytes(), vec![0x00]);
    assert_eq!(CompactSize::new(252).to_bytes(), vec![0xFC]);
    assert_eq!(CompactSize::new(253).to_bytes(), vec![0xFD, 0xFD, 0x00]);
    assert_eq!(CompactSize::new(65535).to_bytes(), vec![0xFD, 0xFF, 0xFF]);
    assert_eq!(
        CompactSize::new(65536).to_bytes(),
        vec![0xFE, 0x00, 0x00, 0x01, 0x00]
    );
    assert_eq!(
        CompactSize::new(4294967296).to_bytes(),
        vec![0xFF, 0x00, 0x00, 0x00, 0x00, 0x01, 0x00, 0x00, 0x00]
    );
}

#[test]
fn non_canonical_encoding_is_accepted() {
    let (decoded, consumed) = CompactSize::from_bytes(&[0xFD, 0x05, 0x00]).unwrap();
    assert_eq!(decoded.value, 5);
    assert_eq!(consumed, 3);
}

#[test]
fn empty_buffer_fails() {
    assert_eq!(
        CompactSize::from_bytes(&[]),
        Err(BitcoinError::InsufficientBytes)
    );
}

#[test]
fn truncated_one_short_fails() {
    // each prefix demands 3, 5 or 9 bytes in total; give one fewer
    assert_eq!(
        CompactSize::from_bytes(&[0xFD, 0x00]),
        Err(BitcoinError::InsufficientBytes)
    );
    assert_eq!(
        CompactSize::from_bytes(&[0xFE, 0x00, 0x00, 0x00]),
        Err(BitcoinError::InsufficientBytes)
    );
    assert_eq!(
        CompactSize::from_bytes(&[0xFF, 0, 0, 0, 0, 0, 0, 0]),
        Err(BitcoinError::InsufficientBytes)
    );
}

#[test]
fn trailing_bytes_are_ignored() {
    let (decoded, consumed) = CompactSize::from_bytes(&[0x07, 0xAA, 0xBB]).unwrap();
    assert_eq!(decoded.value, 7);
    assert_eq!(consumed, 1);
}
