use nono_guard::hash::ContentHash;

fn counting() -> ContentHash {
    let mut bytes = [0u8; 32];
    for i in 0..32 {
        bytes[i] = (i * 8 + 3) as u8;
    }
    ContentHash { bytes }
}

#[test]
fn a_digest_is_shown_in_hexadecimal() {
    let hash = counting();
    let expected: String = hash.bytes.iter().map(|b| format!("{:02x}", b)).collect();
    assert_eq!(hash.hex(), expected);
    assert_eq!(hash.hex().len(), 64);
    assert_eq!(hash.__str__(), expected);
    assert!(hash.hex().starts_with("030b131b232b333b"));
    assert_eq!(hash.__repr__(), "ContentHash(030b131b232b333b...)");
}

#[test]
fn the_hash_is_the_first_eight_bytes() {
    let hash = counting();
    let mut first = [0u8; 8];
    first.copy_from_slice(&hash.bytes[..8]);
    assert_eq!(hash.__hash__(), u64::from_le_bytes(first));
    assert_eq!(ContentHash { bytes: [0xff; 32] }.__hash__(), u64::MAX);
    assert_eq!(ContentHash { bytes: [0; 32] }.__hash__(), 0);
}

#[test]
fn digests_are_equal_where_all_bytes_are() {
    let a = counting();
    let mut b = counting();
    assert!(a.__eq__(&b));
    assert_eq!(a.__hash__(), b.__hash__());
    b.bytes[31] ^= 1;
    assert!(!a.__eq__(&b));
    assert_eq!(a.__hash__(), b.__hash__());
    assert_ne!(a.hex(), b.hex());
}
