//! Fingerprints of texts: SHA-256, written in hexadecimal.

use sha2::{Digest, Sha256};
use vstd::prelude::*;

verus! {

/// The SHA-256 digest of some bytes.
pub uninterp spec fn sha256(data: Seq<u8>) -> Seq<u8>;

/// Trusted: `sha2::Sha256` maps the bytes that it is fed to their SHA-256 digest, which is a
/// function of those bytes alone and always 32 bytes long. Which function it is, is not stated.
#[verifier::external_body]
fn sha256_digest(data: &[u8]) -> (digest: Vec<u8>)
    ensures
        digest@ == sha256(data@),
        digest@.len() == 32,
{
    let mut hasher = Sha256::new();
    hasher.update(data);
    hasher.finalize().to_vec()
}

/// The lower-case hexadecimal digit of a number below sixteen.
pub open spec fn hex_digit(n: nat) -> char {
    if n < 10 {
        (48 + n) as char
    } else {
        (87 + n) as char
    }
}

/// Bytes in hexadecimal: two lower-case digits for each byte, the high half first.
pub open spec fn hexadecimal(data: Seq<u8>) -> Seq<char> {
    Seq::new(
        2 * data.len(),
        |i: int|
            if i % 2 == 0 {
                hex_digit((data[i / 2] / 16) as nat)
            } else {
                hex_digit((data[i / 2] % 16) as nat)
            },
    )
}

/// Trusted: `hex::encode` writes each byte as two lower-case hexadecimal digits, the high half
/// first, in the order of the bytes.
#[verifier::external_body]
fn hex_encode(data: &[u8]) -> (text: String)
    ensures
        text@ == hexadecimal(data@),
{
    hex::encode(data)
}

/// The fingerprint of a text: the SHA-256 digest of its UTF-8 bytes, in hexadecimal.
pub open spec fn fingerprint(s: Seq<char>) -> Seq<char> {
    hexadecimal(sha256(vstd::utf8::encode_utf8(s)))
}

/// The fingerprint of a text.
pub fn fingerprint_text(s: &str) -> (text: String)
    ensures
        text@ == fingerprint(s@),
        text@.len() == 64,
{
    let digest = sha256_digest(s.as_bytes());
    hex_encode(digest.as_slice())
}

/// Every character of a text in hexadecimal is a lower-case hexadecimal digit.
pub proof fn law_hexadecimal_digits(data: Seq<u8>, i: int)
    requires
        0 <= i < hexadecimal(data).len(),
    ensures
        '0' <= hexadecimal(data)[i] <= '9' || 'a' <= hexadecimal(data)[i] <= 'f',
{
    let b = data[i / 2];
    assert(b / 16 < 16 && b % 16 < 16);
}

/// What a hexadecimal digit stands for.
pub open spec fn hex_value(c: char) -> int {
    if '0' <= c <= '9' {
        c as int - 48
    } else {
        c as int - 87
    }
}

/// A fingerprint says, two digits to a byte, the SHA-256 digest of the bytes of the whole text.
pub proof fn law_fingerprint_says_the_digest(s: Seq<char>, i: int)
    requires
        0 <= i < sha256(vstd::utf8::encode_utf8(s)).len(),
    ensures
        fingerprint(s).len() == 2 * sha256(vstd::utf8::encode_utf8(s)).len(),
        hex_value(fingerprint(s)[2 * i]) * 16 + hex_value(fingerprint(s)[2 * i + 1]) == sha256(
            vstd::utf8::encode_utf8(s),
        )[i],
{
    let data = sha256(vstd::utf8::encode_utf8(s));
    let b = data[i];
    assert((2 * i) / 2 == i && (2 * i) % 2 == 0);
    assert((2 * i + 1) / 2 == i && (2 * i + 1) % 2 == 1);
    assert(b / 16 < 16 && b % 16 < 16);
    assert(hexadecimal(data)[2 * i] == hex_digit((b / 16) as nat));
    assert(hexadecimal(data)[2 * i + 1] == hex_digit((b % 16) as nat));
}

/// Texts have the same fingerprint exactly if their bytes have the same digest.
pub proof fn law_fingerprints_tell_digests_apart(s: Seq<char>, t: Seq<char>)
    ensures
        fingerprint(s) == fingerprint(t) <==> sha256(vstd::utf8::encode_utf8(s)) == sha256(
            vstd::utf8::encode_utf8(t),
        ),
{
    let (a, b) = (sha256(vstd::utf8::encode_utf8(s)), sha256(vstd::utf8::encode_utf8(t)));
    if fingerprint(s) == fingerprint(t) {
        assert(fingerprint(s).len() == 2 * a.len() && fingerprint(t).len() == 2 * b.len());
        assert forall|i: int| 0 <= i < a.len() implies a[i] == b[i] by {
            law_fingerprint_says_the_digest(s, i);
            law_fingerprint_says_the_digest(t, i);
        }
        assert(a =~= b);
    }
}

} // verus!
