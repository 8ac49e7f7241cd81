//! Keyed hashes, their text forms, and signed tokens.
use crate::number::hex_char;
use hmac::Hmac;
use hmac::Mac;
use jsonwebtoken::Algorithm;
use jsonwebtoken::EncodingKey;
use jsonwebtoken::Header;
use sha1::Sha1;
use sha2::Digest;
use sha2::Sha256;
use vstd::prelude::*;

verus! {

/// The HMAC-SHA1 of a message under a key.
pub uninterp spec fn hmac_sha1(key: Seq<u8>, message: Seq<u8>) -> Seq<u8>;

/// `hmac::Hmac<sha1::Sha1>`, keyed with `key` and fed with `message`.
///
/// Any key length is accepted. The code is determined by key and message, and
/// has the 20 bytes of a SHA-1 digest.
#[verifier::external_body]
pub(crate) fn authentication_code(key: &[u8], message: &[u8]) -> (r: Vec<u8>)
    ensures
        r@ == hmac_sha1(key@, message@),
        r@.len() == 20,
{
    let mut mac = Hmac::<Sha1>::new_from_slice(key).expect("HMAC accepts any key size");
    mac.update(message);
    mac.finalize().into_bytes().to_vec()
}

/// The SHA-256 digest of a message.
pub uninterp spec fn sha256(message: Seq<u8>) -> Seq<u8>;

/// `sha2::Sha256`, fed with `message`.
///
/// The digest is determined by the message and has 32 bytes.
#[verifier::external_body]
pub(crate) fn sha256_digest(message: &[u8]) -> (r: Vec<u8>)
    ensures
        r@ == sha256(message@),
        r@.len() == 32,
{
    Sha256::digest(message).to_vec()
}

/// Two lower-case hexadecimal digits a byte, the upper half of the byte first.
pub open spec fn hex_text(bytes: Seq<u8>) -> Seq<char> {
    Seq::new(
        2 * bytes.len(),
        |i: int|
            if i % 2 == 0 {
                hex_char((bytes[i / 2] / 16) as nat)
            } else {
                hex_char((bytes[i / 2] % 16) as nat)
            },
    )
}

/// `hex::encode`: two lower-case digits a byte. The bound on the length keeps the
/// text within what can be allocated.
#[verifier::external_body]
pub(crate) fn hex_encode(bytes: &Vec<u8>) -> (r: String)
    requires
        bytes@.len() <= 0x1000,
    ensures
        r@ == hex_text(bytes@),
{
    hex::encode(bytes)
}

/// The character of the standard base64 alphabet for a six-bit value.
pub open spec fn base64_char(v: nat) -> char {
    if v < 26 {
        ('A' as nat + v) as char
    } else if v < 52 {
        ('a' as nat + (v - 26)) as char
    } else if v < 62 {
        ('0' as nat + (v - 52)) as char
    } else if v == 62 {
        '+'
    } else {
        '/'
    }
}

/// The byte at `i`, or 0 past the end.
pub open spec fn byte_or_zero(bytes: Seq<u8>, i: int) -> nat {
    if i < bytes.len() {
        bytes[i] as nat
    } else {
        0
    }
}

/// The `i`th group of six bits; bits past the end are 0.
pub open spec fn sextet(bytes: Seq<u8>, i: int) -> nat {
    let at = i / 4 * 3;
    if i % 4 == 0 {
        byte_or_zero(bytes, at) / 4
    } else if i % 4 == 1 {
        (byte_or_zero(bytes, at) % 4) * 16 + byte_or_zero(bytes, at + 1) / 16
    } else if i % 4 == 2 {
        (byte_or_zero(bytes, at + 1) % 16) * 4 + byte_or_zero(bytes, at + 2) / 64
    } else {
        byte_or_zero(bytes, at + 2) % 64
    }
}

/// Base64 in the standard alphabet, without padding.
pub open spec fn base64_text(bytes: Seq<u8>) -> Seq<char> {
    Seq::new((4 * bytes.len() + 2) / 3, |i: int| base64_char(sextet(bytes, i)))
}

/// `vodozemac::base64_encode`: base64 in the standard alphabet, no padding. The
/// bound on the length keeps the text within what can be allocated.
#[verifier::external_body]
pub(crate) fn base64_encode(bytes: &Vec<u8>) -> (r: String)
    requires
        bytes@.len() <= 0x1000,
    ensures
        r@ == base64_text(bytes@),
{
    vodozemac::base64_encode(bytes)
}

/// What `jsonwebtoken::encode` makes of a text claim and a number claim under
/// HS512: the token, or the text of the error.
pub uninterp spec fn hs512_token(
    text_name: Seq<char>,
    text: Seq<char>,
    number_name: Seq<char>,
    number: u64,
    secret: Seq<u8>,
) -> Result<Seq<char>, Seq<char>>;

/// Whether the executable outcome is the named one.
pub open spec fn same_outcome(
    r: Result<String, String>,
    named: Result<Seq<char>, Seq<char>>,
) -> bool {
    match (r, named) {
        (Ok(a), Ok(b)) => a@ == b,
        (Err(a), Err(b)) => a@ == b,
        _ => false,
    }
}

/// `jsonwebtoken::encode` with the header `Header::new(Algorithm::HS512)`, a
/// JSON object of one text and one number as the claims, and the raw bytes of
/// the secret as the key. The outcome is determined by the arguments.
#[verifier::external_body]
pub(crate) fn signed_token(
    text_name: &str,
    text: &str,
    number_name: &str,
    number: u64,
    secret: &[u8],
) -> (r: Result<String, String>)
    ensures
        same_outcome(r, hs512_token(text_name@, text@, number_name@, number, secret@)),
{
    let mut claims = serde_json::Map::new();
    claims.insert(text_name.to_owned(), serde_json::Value::from(text));
    claims.insert(number_name.to_owned(), serde_json::Value::from(number));
    let key = EncodingKey::from_secret(secret);
    match jsonwebtoken::encode(&Header::new(Algorithm::HS512), &claims, &key) {
        Ok(token) => Ok(token),
        Err(e) => Err(e.to_string()),
    }
}

} // verus!
