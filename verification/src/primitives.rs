//! The calls into outside crates (and the few std functions that vstd does
//! not describe). Every item here is trusted: Verus believes its contract and
//! does not read its body.

use ed25519_dalek::Signer;
use ed25519_dalek::Verifier;
use sha2::Digest;
use vstd::prelude::*;

use crate::text::hex_decoded;
use crate::text::hex_lower;

verus! {

/// The SHA-256 digest of a byte string, as `sha2::Sha256` computes it.
pub uninterp spec fn sha256_digest(data: Seq<u8>) -> Seq<u8>;

/// The Ed25519 public key (compressed point, 32 bytes) that belongs to a
/// 32-byte secret key, as `ed25519_dalek::SigningKey::verifying_key` gives it.
pub uninterp spec fn ed25519_public_key(secret: Seq<u8>) -> Seq<u8>;

/// The Ed25519 signature (64 bytes) of a message under a 32-byte secret key,
/// as `ed25519_dalek::SigningKey::sign` computes it.
pub uninterp spec fn ed25519_signature(secret: Seq<u8>, message: Seq<u8>) -> Seq<u8>;

/// Whether `ed25519_dalek` accepts a signature: the 32 public-key bytes decode
/// to a curve point (`VerifyingKey::from_bytes`) and `verify` returns `Ok`.
pub uninterp spec fn ed25519_accepts(public_key: Seq<u8>, message: Seq<u8>, signature: Seq<u8>) -> bool;

/// Calls `sha2::Sha256::digest`. Claimed: the result is the SHA-256 digest of
/// `data` (a function of `data` alone), and it is 32 bytes long.
#[verifier::external_body]
pub(crate) fn sha256(data: &[u8]) -> (digest: Vec<u8>)
    ensures
        digest@ == sha256_digest(data@),
        digest@.len() == 32,
{
    sha2::Sha256::digest(data).to_vec()
}

/// Calls `hex::encode`. Claimed, as the crate documents: two lowercase hex
/// digits per byte, most significant nibble first.
#[verifier::external_body]
pub(crate) fn hex_encode(data: &[u8]) -> (text: String)
    ensures
        text@ == hex_lower(data@),
{
    hex::encode(data)
}

/// Calls `hex::decode` on the UTF-8 bytes of `text`. Claimed, as the crate's
/// source shows: it succeeds exactly when the byte count is even and every
/// byte is a hex digit of either case, and then gives one byte per pair.
#[verifier::external_body]
pub(crate) fn hex_decode(text: &str) -> (bytes: Option<Vec<u8>>)
    ensures
        bytes is Some <==> hex_decoded(vstd::utf8::encode_utf8(text@)) is Some,
        bytes matches Some(v) ==> hex_decoded(vstd::utf8::encode_utf8(text@)) == Some(v@),
{
    hex::decode(text).ok()
}

/// Calls `ed25519_dalek::SigningKey::generate` with `rand::rngs::OsRng` and
/// returns the secret key bytes. The key is random: only its length is claimed.
#[verifier::external_body]
pub(crate) fn ed25519_generate_secret() -> (secret: Vec<u8>)
    ensures
        secret@.len() == 32,
{
    ed25519_dalek::SigningKey::generate(&mut rand::rngs::OsRng).to_bytes().to_vec()
}

/// Calls `ed25519_dalek::SigningKey::verifying_key` on the key made from
/// `secret`. Claimed: the result is the named public key of `secret`, 32 bytes.
#[verifier::external_body]
pub(crate) fn ed25519_derive_public_key(secret: &[u8]) -> (public_key: Vec<u8>)
    requires
        secret@.len() == 32,
    ensures
        public_key@ == ed25519_public_key(secret@),
        public_key@.len() == 32,
{
    let secret: [u8; 32] = secret.try_into().unwrap();
    ed25519_dalek::SigningKey::from_bytes(&secret).verifying_key().to_bytes().to_vec()
}

/// Calls `ed25519_dalek::SigningKey::sign` on the key made from `secret`.
/// Claimed: the result is the named signature (Ed25519 signing is
/// deterministic), 64 bytes long, and `verify` with the matching public key
/// accepts it, which is the correctness of the Ed25519 scheme.
#[verifier::external_body]
pub(crate) fn ed25519_sign(secret: &[u8], message: &[u8]) -> (signature: Vec<u8>)
    requires
        secret@.len() == 32,
    ensures
        signature@ == ed25519_signature(secret@, message@),
        signature@.len() == 64,
        ed25519_accepts(ed25519_public_key(secret@), message@, signature@),
{
    let secret: [u8; 32] = secret.try_into().unwrap();
    ed25519_dalek::SigningKey::from_bytes(&secret).sign(message).to_bytes().to_vec()
}

/// Calls `ed25519_dalek::VerifyingKey::from_bytes` and then `verify`.
/// Claimed: the answer is the named acceptance predicate of the three inputs;
/// nothing is said of which keys decode or which signatures pass.
#[verifier::external_body]
pub(crate) fn ed25519_verify(public_key: &[u8], message: &[u8], signature: &[u8]) -> (ok: bool)
    requires
        public_key@.len() == 32,
        signature@.len() == 64,
    ensures
        ok == ed25519_accepts(public_key@, message@, signature@),
{
    let public_key: [u8; 32] = public_key.try_into().unwrap();
    let signature: [u8; 64] = signature.try_into().unwrap();
    match ed25519_dalek::VerifyingKey::from_bytes(&public_key) {
        Ok(key) => key.verify(message, &ed25519_dalek::Signature::from_bytes(&signature)).is_ok(),
        Err(_) => false,
    }
}

/// Calls `chrono::Utc::now().timestamp()`: the current Unix time in seconds.
/// It depends on the clock, so nothing is claimed of it.
#[verifier::external_body]
pub(crate) fn unix_time_now() -> i64 {
    chrono::Utc::now().timestamp()
}

/// Calls `String::push`: appends one character.
#[verifier::external_body]
pub(crate) fn push_char(s: &mut String, c: char)
    ensures
        final(s)@ == old(s)@.push(c),
{
    s.push(c)
}

} // verus!
