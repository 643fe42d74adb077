//! Fingerprints: SHA-256 digests in hexadecimal.

use sha2::{Digest, Sha256};
use vstd::prelude::*;

verus! {

/// What `Sha256::digest` makes of bytes.
pub uninterp spec fn sha256(data: Seq<u8>) -> Seq<u8>;

/// `Sha256::digest` is the SHA-256 digest of bytes. It has 32 bytes.
#[verifier::external_body]
fn sha256_digest(data: &[u8]) -> (digest: Vec<u8>)
    ensures
        digest@ == sha256(data@),
        digest@.len() == 32,
{
    Sha256::digest(data).to_vec()
}

/// The lower-case hexadecimal digit of value `d`.
pub open spec fn hex_digit(d: int) -> char {
    if d < 10 {
        ('0' as int + d) as char
    } else {
        ('a' as int + (d - 10)) as char
    }
}

/// Bytes in lower-case hexadecimal: two digits for each byte, the upper half first.
pub open spec fn hex_text(data: Seq<u8>) -> Seq<char> {
    Seq::new(
        2 * data.len(),
        |i: int|
            hex_digit(
                if i % 2 == 0 {
                    data[i / 2] as int / 16
                } else {
                    data[i / 2] as int % 16
                },
            ),
    )
}

/// `hex::encode` writes bytes in lower-case hexadecimal.
#[verifier::external_body]
fn hex_encode(data: &[u8]) -> (text: String)
    requires
        2 * data@.len() <= isize::MAX,
    ensures
        text@ == hex_text(data@),
{
    hex::encode(data)
}

/// The fingerprint of a certificate: its SHA-256 digest in hexadecimal.
pub open spec fn fingerprint_text(der: Seq<u8>) -> Seq<char> {
    hex_text(sha256(der))
}

/// A digest as a fingerprint: the digest in lower-case hexadecimal.
pub fn digest_text(digest: &[u8]) -> (text: String)
    requires
        2 * digest@.len() <= isize::MAX,
    ensures
        text@ == hex_text(digest@),
{
    hex_encode(digest)
}

/// The fingerprint of a certificate.
pub fn fingerprint(der: &[u8]) -> (text: String)
    ensures
        text@ == fingerprint_text(der@),
        text@ == hex_text(sha256(der@)),
        is_fingerprint(text@),
{
    let digest: Vec<u8> = sha256_digest(der);
    proof {
        law_hex_text_shape(digest@);
    }
    digest_text(digest.as_slice())
}

/// Whether `c` is a lower-case hexadecimal digit.
pub open spec fn is_hex_digit(c: char) -> bool {
    '0' <= c <= '9' || 'a' <= c <= 'f'
}

/// Whether a text has the shape of a fingerprint: 64 hexadecimal digits.
pub open spec fn is_fingerprint(text: Seq<char>) -> bool {
    &&& text.len() == 64
    &&& forall|i: int| 0 <= i < text.len() ==> is_hex_digit(#[trigger] text[i])
}

/// Hexadecimal text has two characters for each byte, all of them hexadecimal digits.
pub proof fn law_hex_text_shape(data: Seq<u8>)
    ensures
        hex_text(data).len() == 2 * data.len(),
        forall|i: int| 0 <= i < 2 * data.len() ==> is_hex_digit(#[trigger] hex_text(data)[i]),
{
}

/// Different bytes have different hexadecimal text.
pub proof fn law_hex_text_is_injective(a: Seq<u8>, b: Seq<u8>)
    requires
        hex_text(a) == hex_text(b),
    ensures
        a == b,
{
    law_hex_text_shape(a);
    law_hex_text_shape(b);
    assert forall|i: int| 0 <= i < a.len() implies a[i] == b[i] by {
        let (upper, lower) = (2 * i, 2 * i + 1);
        assert(upper % 2 == 0 && upper / 2 == i && lower % 2 == 1 && lower / 2 == i);
        assert(hex_text(a)[upper] == hex_digit(a[i] as int / 16));
        assert(hex_text(b)[upper] == hex_digit(b[i] as int / 16));
        assert(hex_text(a)[lower] == hex_digit(a[i] as int % 16));
        assert(hex_text(b)[lower] == hex_digit(b[i] as int % 16));
    }
}

/// The fingerprint of a certificate is the hexadecimal text of the digest of the whole of it.
pub proof fn law_fingerprint_is_of_the_whole_certificate(der: Seq<u8>)
    ensures
        fingerprint_text(der) == hex_text(sha256(der)),
{
}

/// A byte is written as two digits, its upper half and its lower half, with `0` to `9` for the
/// values below ten and `a` to `f` for the others.
pub proof fn law_hex_text_digits(data: Seq<u8>, i: int)
    requires
        0 <= i < data.len(),
    ensures
        hex_text(data)[2 * i] as int == data[i] as int / 16 + (if data[i] as int / 16 < 10 {
            48int
        } else {
            87int
        }),
        hex_text(data)[2 * i + 1] as int == data[i] as int % 16 + (if data[i] as int % 16 < 10 {
            48int
        } else {
            87int
        }),
{
    let (upper, lower) = (2 * i, 2 * i + 1);
    assert(upper % 2 == 0 && upper / 2 == i && lower % 2 == 1 && lower / 2 == i);
}

} // verus!
