//! Checksums, as lower-case hexadecimal text.

use sha2::Digest;
use vstd::prelude::*;

verus! {

/// The SHA-256 digest that sha2 computes.
pub uninterp spec fn sha256_digest(data: Seq<u8>) -> Seq<u8>;

/// The SHA-512 digest that sha2 computes.
pub uninterp spec fn sha512_digest(data: Seq<u8>) -> Seq<u8>;

/// The lower-case hexadecimal digit of a number below sixteen.
pub open spec fn hex_digit(n: u8) -> char {
    if n < 10 {
        (n + 48) as char
    } else {
        (n + 87) as char
    }
}

/// The bytes in hexadecimal: for each byte the digit of its upper half, and then
/// that of its lower half.
pub open spec fn hex(data: Seq<u8>) -> Seq<char> {
    Seq::new(
        2 * data.len(),
        |i: int|
            hex_digit(
                if i % 2 == 0 {
                    data[i / 2] / 16
                } else {
                    data[i / 2] % 16
                },
            ),
    )
}

/// The SHA-256 digest in hexadecimal.
pub open spec fn sha256_hex(data: Seq<u8>) -> Seq<char> {
    hex(sha256_digest(data))
}

/// The SHA-512 digest in hexadecimal.
pub open spec fn sha512_hex(data: Seq<u8>) -> Seq<char> {
    hex(sha512_digest(data))
}

/// `sha2::Sha256::digest`: a digest of thirty-two bytes that is a function of
/// the data. The algorithm is not described here.
#[verifier::external_body]
fn sha256(data: &[u8]) -> (r: Vec<u8>)
    ensures
        r@ == sha256_digest(data@),
        r@.len() == 32,
{
    sha2::Sha256::digest(data).to_vec()
}

/// `sha2::Sha512::digest`: a digest of sixty-four bytes that is a function of
/// the data. The algorithm is not described here.
#[verifier::external_body]
fn sha512(data: &[u8]) -> (r: Vec<u8>)
    ensures
        r@ == sha512_digest(data@),
        r@.len() == 64,
{
    sha2::Sha512::digest(data).to_vec()
}

/// `hex::encode`: two lower-case hexadecimal digits for each byte, the upper
/// half first.
#[verifier::external_body]
fn hex_text(data: &[u8]) -> (r: String)
    ensures
        r@ == hex(data@),
{
    hex::encode(data)
}

/// The SHA-256 digest of the data in hexadecimal.
pub fn calculate_sha256_hex(data: &[u8]) -> (r: String)
    ensures
        r@ == sha256_hex(data@),
        r@.len() == 64,
{
    let digest = sha256(data);
    hex_text(digest.as_slice())
}

/// The SHA-512 digest of the data in hexadecimal.
pub fn calculate_sha512_hex(data: &[u8]) -> (r: String)
    ensures
        r@ == sha512_hex(data@),
        r@.len() == 128,
{
    let digest = sha512(data);
    hex_text(digest.as_slice())
}

} // verus!
