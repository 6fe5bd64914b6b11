use convcache::digest::cache_key;
use convcache::digest::hex_upper;
use sha2::Digest;

fn reference_key(payload: &[u8]) -> Vec<u8> {
    let digest = sha2::Sha256::digest(payload);
    let mut out = String::new();
    for b in digest.iter() {
        out.push_str(&format!("{:02X}", b));
    }
    out.into_bytes()
}

#[test]
fn hex_encoding_known_value() {
    assert_eq!(hex_upper(&vec![0x00, 0xab, 0xff, 0x1a]), b"00ABFF1A".to_vec());
    assert_eq!(hex_upper(&vec![]), Vec::<u8>::new());
}

#[test]
fn cache_key_matches_sha256_hex() {
    let payload = b"hello world".to_vec();
    assert_eq!(cache_key(&payload), reference_key(&payload));
    let other = vec![0u8, 1, 2, 3, 4, 5, 6, 7, 8, 9];
    assert_eq!(cache_key(&other), reference_key(&other));
}

#[test]
fn cache_key_is_64_uppercase_hex_digits() {
    let key = cache_key(&vec![42u8; 100]);
    assert_eq!(key.len(), 64);
    assert!(key.iter().all(|b| b.is_ascii_digit() || (b'A'..=b'F').contains(b)));
}

#[test]
fn identical_payloads_share_a_key_distinct_ones_do_not() {
    let a = vec![1u8, 2, 3];
    let b = vec![1u8, 2, 3];
    let c = vec![1u8, 2, 4];
    assert_eq!(cache_key(&a), cache_key(&b));
    assert_ne!(cache_key(&a), cache_key(&c));
}
