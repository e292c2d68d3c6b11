use btc_codec::{BitcoinError, Txid};

fn sample_bytes() -> [u8; 32] {
    let mut a = [0u8; 32];
    let mut i = 0;
    while i < 32 {
        a[i] = i as u8;
        i += 1;
    }
    a
}

#[test]
fn to_hex_is_lowercase_pairs_in_byte_order() {
    let t = Txid(sample_bytes());
    assert_eq!(
        t.to_hex(),
        "000102030405060708090a0b0c0d0e0f101112131415161718191a1b1c1d1e1f"
    );
}

#[test]
fn textual_round_trip() {
    let t = Txid(sample_bytes());
    let parsed = Txid::from_hex(&t.to_hex()).unwrap();
    assert_eq!(parsed, t);
}

#[test]
fn uppercase_hex_is_accepted() {
    let mut a = [0u8; 32];
    a[0] = 0xAB;
    a[31] = 0xCD;
    let s = "AB000000000000000000000000000000000000000000000000000000000000CD";
    assert_eq!(Txid::from_hex(s), Ok(Txid(a)));
}

#[test]
fn wrong_length_fails() {
    // 62 characters: valid hex, but only 31 bytes
    let s = "000102030405060708090a0b0c0d0e0f101112131415161718191a1b1c1d1e";
    assert_eq!(s.len(), 62);
    assert_eq!(Txid::from_hex(s), Err(BitcoinError::InvalidFormat));
}

#[test]
fn non_hex_fails() {
    let s = "zz0102030405060708090a0b0c0d0e0f101112131415161718191a1b1c1d1e1f";
    assert_eq!(s.len(), 64);
    assert_eq!(Txid::from_hex(s), Err(BitcoinError::InvalidFormat));
}

#[test]
fn empty_string_fails() {
    assert_eq!(Txid::from_hex(""), Err(BitcoinError::InvalidFormat));
}

#[test]
fn odd_length_fails() {
    assert_eq!(Txid::from_hex("abc"), Err(BitcoinError::InvalidFormat));
}
