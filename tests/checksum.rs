use clyde::checksum::{check_digest, compute_checksum, verify_checksum, ChecksumMismatch};

const EMPTY_SHA256: &str = "e3b0c44298fc1c149afbf4c8996fb92427ae41e4649b934ca495991b7852b855";
const HELLO_SHA256: &str = "2cf24dba5fb0a30e26e83b2ac5b9e29e1b161e5c1fa7425e73043362938b9824";

#[test]
fn checksum_is_lowercase_hex_sha256() {
    assert_eq!(compute_checksum(&vec![]), EMPTY_SHA256);
    assert_eq!(compute_checksum(&b"hello".to_vec()), HELLO_SHA256);
}

#[test]
fn verify_checksum_accepts_the_right_digest() {
    assert_eq!(verify_checksum(&b"hello".to_vec(), HELLO_SHA256), Ok(()));
}

#[test]
fn checksum_mismatch_names_both_digests() {
    let r = verify_checksum(&b"hello".to_vec(), EMPTY_SHA256);
    assert_eq!(
        r,
        Err(ChecksumMismatch { expected: EMPTY_SHA256.to_string(), received: HELLO_SHA256.to_string() })
    );
}

#[test]
fn check_digest_compares_exactly() {
    assert_eq!(check_digest("ab", "ab"), Ok(()));
    assert!(check_digest("ab", "AB").is_err());
}
