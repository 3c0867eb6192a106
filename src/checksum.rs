//! SHA-256 digests of assets, in lowercase hex, and their comparison with a descriptor.
use vstd::prelude::*;
use crate::text::{chars_of, same_chars};

verus! {

/// The SHA-256 digest of `data`.
pub uninterp spec fn sha256_of(data: Seq<u8>) -> Seq<u8>;

/// The lowercase hex digit of a value below 16.
pub open spec fn hex_digit(d: u8) -> char {
    if d < 10 { ((d + 48) as u8) as char } else { ((d + 87) as u8) as char }
}

/// Lowercase hex: two digits for each byte, high nibble first.
pub open spec fn hex_of(b: Seq<u8>) -> Seq<char>
    decreases b.len(),
{
    if b.len() == 0 {
        Seq::empty()
    } else {
        hex_of(b.drop_last()) + seq![hex_digit(b.last() / 16), hex_digit(b.last() % 16)]
    }
}

/// Relies on `sha2::Sha256::digest`: the 32-byte SHA-256 digest of the input.
#[verifier::external_body]
fn sha256_digest(data: &Vec<u8>) -> (r: Vec<u8>)
    ensures
        r@ == sha256_of(data@),
        r@.len() == 32,
{
    <sha2::Sha256 as sha2::Digest>::digest(data.as_slice()).to_vec()
}

/// Relies on `hex::encode`: two lowercase hex digits for each byte, in order.
#[verifier::external_body]
fn hex_encode(b: &Vec<u8>) -> (r: String)
    ensures
        r@ == hex_of(b@),
{
    hex::encode(b)
}

/// The lowercase hex SHA-256 digest of `data`.
pub fn compute_checksum(data: &Vec<u8>) -> (r: String)
    ensures
        r@ == hex_of(sha256_of(data@)),
        r@.len() == 64,
{
    let d = sha256_digest(data);
    proof { lemma_hex_len(d@); }
    hex_encode(&d)
}

proof fn lemma_hex_len(b: Seq<u8>)
    ensures
        hex_of(b).len() == 2 * b.len(),
    decreases b.len(),
{
    if b.len() > 0 {
        lemma_hex_len(b.drop_last());
    }
}

/// A digest that differs from the one a descriptor expects.
#[derive(Debug, PartialEq, Eq)]
pub struct ChecksumMismatch {
    pub expected: String,
    pub received: String,
}

/// Compares a computed digest with the expected one.
pub fn check_digest(actual: &str, expected: &str) -> (r: Result<(), ChecksumMismatch>)
    ensures
        match r {
            Ok(()) => actual@ == expected@,
            Err(m) => actual@ != expected@ && m.expected@ == expected@ && m.received@ == actual@,
        },
{
    if same_chars(&chars_of(actual), &chars_of(expected)) {
        Ok(())
    } else {
        Err(ChecksumMismatch { expected: expected.to_owned(), received: actual.to_owned() })
    }
}

/// Checks that `content` has the lowercase hex SHA-256 digest `expected`.
pub fn verify_checksum(content: &Vec<u8>, expected: &str) -> (r: Result<(), ChecksumMismatch>)
    ensures
        match r {
            Ok(()) => hex_of(sha256_of(content@)) == expected@,
            Err(m) => hex_of(sha256_of(content@)) != expected@ && m.expected@ == expected@
                && m.received@ == hex_of(sha256_of(content@)),
        },
{
    let actual = compute_checksum(content);
    check_digest(actual.as_str(), expected)
}

} // verus!
