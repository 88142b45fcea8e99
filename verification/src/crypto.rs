//! Trusted boundary to the cryptographic and encoding crates: SHA-256
//! digests, hex encoding, and ECDSA signature checks.
//!
//! Everything here is either a spec-level name for an outside function's
//! result or a thin wrapper whose contract states what the outside crate's
//! source shows.

use core::str::FromStr;
use vstd::prelude::*;

verus! {

/// The 64 lowercase hex characters that `sha256::digest` returns for a
/// byte sequence. The digest depends on the bytes alone.
pub uninterp spec fn sha256_hex(bytes: Seq<u8>) -> Seq<char>;

/// Whether `secp256k1` accepts `sig` (a hex DER signature) as a signature
/// by the key `pk` (a hex compressed public key) over the 32-byte message
/// digest `digest`. The outcome depends on the three arguments alone.
pub uninterp spec fn ecdsa_verifies(pk: Seq<char>, sig: Seq<char>, digest: Seq<u8>) -> bool;

/// Whether `secp256k1` parses the string as a well-formed compressed or
/// uncompressed public key in hex. The outcome depends on the string
/// alone.
pub uninterp spec fn is_valid_pubkey(s: Seq<char>) -> bool;

/// Whether `c` is a lowercase hexadecimal digit.
pub open spec fn is_hex_char(c: char) -> bool {
    ('0' <= c && c <= '9') || ('a' <= c && c <= 'f')
}

/// The lowercase hex character for a nibble value below 16.
pub open spec fn hex_digit_char(n: u8) -> char {
    if n == 0 {
        '0'
    } else if n == 1 {
        '1'
    } else if n == 2 {
        '2'
    } else if n == 3 {
        '3'
    } else if n == 4 {
        '4'
    } else if n == 5 {
        '5'
    } else if n == 6 {
        '6'
    } else if n == 7 {
        '7'
    } else if n == 8 {
        '8'
    } else if n == 9 {
        '9'
    } else if n == 10 {
        'a'
    } else if n == 11 {
        'b'
    } else if n == 12 {
        'c'
    } else if n == 13 {
        'd'
    } else if n == 14 {
        'e'
    } else {
        'f'
    }
}

/// The lowercase hex encoding of a byte sequence: two characters per byte,
/// high nibble first.
pub open spec fn hex_of(b: Seq<u8>) -> Seq<char> {
    Seq::new(
        b.len() * 2,
        |i: int|
            if i % 2 == 0 {
                hex_digit_char(b[i / 2] / 16)
            } else {
                hex_digit_char(b[i / 2] % 16)
            },
    )
}

/// Whether a character sequence is a well-formed 64-character digest in
/// lowercase hex.
pub open spec fn is_digest_chars(s: Seq<char>) -> bool {
    s.len() == 64 && forall|i: int| 0 <= i < s.len() ==> is_hex_char(#[trigger] s[i])
}

/// The nibble value of a lowercase hex digit.
pub open spec fn hex_char_val(c: char) -> u8 {
    if '0' <= c && c <= '9' {
        ((c as u8) - 48) as u8
    } else {
        ((c as u8) - 87) as u8
    }
}

/// The bytes spelled by a lowercase hex string, two characters per byte.
pub open spec fn hex_to_bytes(s: Seq<char>) -> Seq<u8> {
    Seq::new(
        s.len() / 2,
        |i: int| (hex_char_val(s[2 * i]) * 16 + hex_char_val(s[2 * i + 1])) as u8,
    )
}

/// Hex-encoding bytes and reading them back recovers the bytes.
pub proof fn lemma_hex_to_bytes_of(b: Seq<u8>)
    ensures
        hex_to_bytes(hex_of(b)) == b,
{
    assert forall|i: int| 0 <= i < b.len() implies hex_to_bytes(hex_of(b))[i] == b[i] by {
        assert(hex_of(b)[2 * i] == hex_digit_char(b[i] / 16));
        assert(hex_of(b)[2 * i + 1] == hex_digit_char(b[i] % 16));
    }
    assert(hex_to_bytes(hex_of(b)) =~= b);
}

/// A lowercase hex string of even length is exactly the encoding of the
/// bytes it spells.
pub proof fn lemma_hex_of_to_bytes(s: Seq<char>)
    requires
        s.len() % 2 == 0,
        forall|i: int| 0 <= i < s.len() ==> is_hex_char(#[trigger] s[i]),
    ensures
        hex_of(hex_to_bytes(s)) == s,
{
    assert forall|i: int| 0 <= i < s.len() implies hex_of(hex_to_bytes(s))[i] == s[i] by {
        let b = hex_to_bytes(s);
        let j = i / 2;
        assert(b[j] == (hex_char_val(s[2 * j]) * 16 + hex_char_val(s[2 * j + 1])) as u8);
        assert(is_hex_char(s[2 * j]));
        assert(is_hex_char(s[2 * j + 1]));
        if i % 2 == 0 {
            assert(hex_of(b)[i] == hex_digit_char(b[j] / 16));
        } else {
            assert(hex_of(b)[i] == hex_digit_char(b[j] % 16));
        }
    }
    assert(hex_of(hex_to_bytes(s)) =~= s);
}

/// Hex digits are ASCII characters.
pub proof fn lemma_digest_chars_ascii(s: Seq<char>)
    requires
        forall|i: int| 0 <= i < s.len() ==> is_hex_char(#[trigger] s[i]),
    ensures
        crate::codec::ascii_chars(s),
{
    assert forall|i: int| 0 <= i < s.len() implies ((#[trigger] s[i]) as u32) < 128 by {
        assert(is_hex_char(s[i]));
    }
}

/// The hex encoding of any byte sequence is ASCII.
pub proof fn lemma_hex_of_ascii(b: Seq<u8>)
    ensures
        crate::codec::ascii_chars(hex_of(b)),
{
    assert forall|i: int| 0 <= i < hex_of(b).len() implies ((#[trigger] hex_of(b)[i]) as u32)
        < 128 by {
        if i % 2 == 0 {
            assert(hex_of(b)[i] == hex_digit_char(b[i / 2] / 16));
        } else {
            assert(hex_of(b)[i] == hex_digit_char(b[i / 2] % 16));
        }
    }
}

/// Relies on `sha256::digest`: it returns the SHA-256 digest of the input
/// bytes as 64 lowercase hex characters, a function of the bytes alone.
#[verifier::external_body]
pub fn sha256_digest(bytes: &Vec<u8>) -> (r: String)
    ensures
        r@ == sha256_hex(bytes@),
        is_digest_chars(r@),
{
    sha256::digest(bytes.as_slice())
}

/// Relies on `hex::encode`: each input byte becomes two lowercase hex
/// digits, high nibble first.
#[verifier::external_body]
pub fn hex_encode(bytes: &Vec<u8>) -> (r: String)
    ensures
        r@ == hex_of(bytes@),
{
    hex::encode(bytes.as_slice())
}

/// The error that `hex::decode` reports for a malformed hex string.
#[verifier::external_type_specification]
#[verifier::external_body]
pub struct ExFromHexError(hex::FromHexError);

/// Relies on `hex::decode`: a string that is the lowercase hex encoding of
/// some bytes decodes to exactly those bytes, and every decoded vector has
/// half as many bytes as the input has characters.
#[verifier::external_body]
pub fn hex_decode(s: &str) -> (r: Result<Vec<u8>, hex::FromHexError>)
    ensures
        r is Ok ==> (r->Ok_0)@.len() * 2 == s@.len(),
        forall|b: Seq<u8>| hex_of(b) == s@ ==> r is Ok && (r->Ok_0)@ == b,
{
    hex::decode(s)
}

/// Relies on `secp256k1`'s ECDSA verification: parses the hex public key
/// and hex signature and checks the signature over the 32-byte digest.
/// A string that fails to parse verifies as false.
#[verifier::external_body]
pub fn ecdsa_verify(pk_hex: &String, sig_hex: &String, digest: &Vec<u8>) -> (r: bool)
    requires
        digest@.len() == 32,
    ensures
        r == ecdsa_verifies(pk_hex@, sig_hex@, digest@),
{
    let pk = match secp256k1::PublicKey::from_str(pk_hex.as_str()) {
        Ok(pk) => pk,
        Err(_) => return false,
    };
    let sig = match secp256k1::ecdsa::Signature::from_str(sig_hex.as_str()) {
        Ok(sig) => sig,
        Err(_) => return false,
    };
    let mut d = [0u8; 32];
    d.copy_from_slice(digest.as_slice());
    let msg = secp256k1::Message::from_digest(d);
    secp256k1::ecdsa::verify(&sig, msg, &pk).is_ok()
}

/// Relies on `secp256k1::PublicKey::from_str`: whether the string parses
/// as a public key, a function of the string alone.
#[verifier::external_body]
pub fn parse_public_key(s: &String) -> (r: bool)
    ensures
        r == is_valid_pubkey(s@),
{
    secp256k1::PublicKey::from_str(s.as_str()).is_ok()
}

/// Whether `secp256k1` parses the string as a well-formed 32-byte secret
/// key in hex. The outcome depends on the string alone.
pub uninterp spec fn is_valid_seckey(s: Seq<char>) -> bool;

/// The public key `secp256k1` derives for a secret key, in compressed
/// hex. Key derivation is a function of the secret key alone.
pub uninterp spec fn ecdsa_pubkey_of(sk: Seq<char>) -> Seq<char>;

/// The ECDSA signature `secp256k1` produces for a secret key over a
/// 32-byte digest, in hex. Signing uses the deterministic RFC 6979 nonce,
/// so the signature is a function of the key and the digest alone.
pub uninterp spec fn ecdsa_signature_of(sk: Seq<char>, digest: Seq<u8>) -> Seq<char>;

/// Relies on `secp256k1::SecretKey::from_str` and
/// `PublicKey::from_secret_key`: derives the compressed public key in hex
/// for a secret key given in hex, a function of the secret key alone.
#[verifier::external_body]
pub fn derive_public_key(sk_hex: &String) -> (r: Option<String>)
    ensures
        r is Some <==> is_valid_seckey(sk_hex@),
        r matches Some(pk) ==> pk@ == ecdsa_pubkey_of(sk_hex@),
        r matches Some(pk) ==> crate::codec::ascii_chars(pk@),
{
    let sk = match secp256k1::SecretKey::from_str(sk_hex.as_str()) {
        Ok(sk) => sk,
        Err(_) => return None,
    };
    let pk = secp256k1::PublicKey::from_secret_key(&sk);
    Some(pk.to_string())
}

/// Relies on `secp256k1::ecdsa::sign`: signs a 32-byte digest with the
/// deterministic RFC 6979 nonce; the signature verifies under the
/// secret key's public key, as the crate's verification accepts every
/// signature its signing produces for the same digest.
#[verifier::external_body]
pub fn ecdsa_sign(sk_hex: &String, digest: &Vec<u8>) -> (r: Option<String>)
    requires
        digest@.len() == 32,
    ensures
        r is Some <==> is_valid_seckey(sk_hex@),
        r matches Some(sig) ==> sig@ == ecdsa_signature_of(sk_hex@, digest@),
        r matches Some(sig) ==> ecdsa_verifies(ecdsa_pubkey_of(sk_hex@), sig@, digest@),
        r matches Some(sig) ==> crate::codec::ascii_chars(sig@),
{
    let sk = match secp256k1::SecretKey::from_str(sk_hex.as_str()) {
        Ok(sk) => sk,
        Err(_) => return None,
    };
    let mut d = [0u8; 32];
    d.copy_from_slice(digest.as_slice());
    let msg = secp256k1::Message::from_digest(d);
    Some(secp256k1::ecdsa::sign(msg, &sk).to_string())
}

/// Relies on `chrono::Utc::now`: the number of non-leap seconds since the
/// Unix epoch. Nothing is promised of the value, which depends on the
/// clock.
#[verifier::external_body]
pub fn current_timestamp() -> i64 {
    chrono::Utc::now().timestamp()
}

} // verus!
