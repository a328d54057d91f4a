use dossier::digest::bytes_to_digest;
use dossier::digest::digests_equal;
use dossier::digest::hash_bytes;
use dossier::digest::VerificationHash;

#[test]
fn hash_bytes_matches_blake3() {
    let data = b"the quick brown fox";
    let expected: [u8; 32] = *blake3::hash(data).as_bytes();
    assert_eq!(hash_bytes(data), expected);
}

#[test]
fn streaming_hash_is_chunking_independent() {
    let data = b"0123456789abcdef0123456789abcdef";
    let mut one = VerificationHash::new(None);
    one.update(data);
    let mut many = VerificationHash::new(None);
    many.update(&data[..7]);
    many.update(&data[7..20]);
    many.update(&data[20..]);
    let d1 = one.finish();
    let d2 = many.finish();
    assert_eq!(d1, d2);
    assert_eq!(d1, *blake3::hash(data).as_bytes());
}

#[test]
fn static_verification_hash_ignores_updates() {
    let supplied = [7u8; 32];
    let mut v = VerificationHash::new(Some(supplied));
    v.update(b"anything at all");
    assert_eq!(v.finish(), supplied);
}

#[test]
fn digest_comparison() {
    let a = [1u8; 32];
    let mut b = [1u8; 32];
    assert!(digests_equal(&a, &b));
    b[31] = 2;
    assert!(!digests_equal(&a, &b));
}

#[test]
fn digest_from_slice() {
    let v: Vec<u8> = (0u8..32).collect();
    let d = bytes_to_digest(v.as_slice());
    assert_eq!(d.to_vec(), v);
}
