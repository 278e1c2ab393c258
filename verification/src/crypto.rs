//! The cryptographic primitives the chain relies on: SHA-256 from `sha2` and
//! Ed25519 from `ed25519_dalek`. Each operation is reached through a trusted
//! wrapper whose result is named by a spec function (key generation, which is
//! random, only by its length).

use vstd::prelude::*;
use ed25519_dalek::{Signature, Signer, SigningKey, Verifier, VerifyingKey};
use sha2::{Digest, Sha256};
use vstd::utf8::encode_utf8;
use crate::text::{hex_encode, hex_lower, is_lower_hex};

verus! {

/// The SHA-256 digest of a byte string.
pub uninterp spec fn sha256(data: Seq<u8>) -> Seq<u8>;

/// Whether Ed25519 verification accepts `signature` over `message` for the
/// 32-byte public key `public_key` (the key must also decode to a curve point).
pub uninterp spec fn ed25519_accepts(public_key: Seq<u8>, message: Seq<u8>, signature: Seq<u8>) -> bool;

/// The 64-byte Ed25519 signature of `message` under the 32-byte secret key `secret`.
pub uninterp spec fn ed25519_signature(secret: Seq<u8>, message: Seq<u8>) -> Seq<u8>;

/// The 32-byte Ed25519 public key derived from the 32-byte secret key `secret`.
pub uninterp spec fn ed25519_public_key(secret: Seq<u8>) -> Seq<u8>;

/// Lower-case hexadecimal SHA-256 digest of the UTF-8 bytes of `text`.
pub open spec fn sha256_hex_of(text: Seq<char>) -> Seq<char> {
    hex_lower(sha256(encode_utf8(text)))
}

/// Lower-case hexadecimal SHA-256 digest of the UTF-8 bytes of `text`: 64
/// hexadecimal digits.
pub fn sha256_hex(text: &str) -> (res: String)
    ensures
        res@ == sha256_hex_of(text@),
        res@.len() == 64,
        is_lower_hex(res@),
{
    let digest = sha256_digest(text.as_bytes());
    hex_encode(digest.as_slice())
}

/// SHA-256 of `data`.
///
/// Calls `sha2::Sha256` (`new`, `update`, `finalize`). Trusted: the result is
/// the digest named `sha256`, and it is 32 bytes long (the output size of
/// SHA-256).
#[verifier::external_body]
pub(crate) fn sha256_digest(data: &[u8]) -> (res: Vec<u8>)
    ensures
        res@ == sha256(data@),
        res@.len() == 32,
{
    let mut hasher = Sha256::new();
    hasher.update(data);
    hasher.finalize().to_vec()
}

/// Ed25519 verification of `signature` over `message` with `public_key`.
///
/// Calls `VerifyingKey::from_bytes` on the key bytes, `Signature::from_bytes`
/// on the signature bytes, and `Verifier::verify`; a key that does not decode
/// counts as a rejection. Trusted: the answer is the one named
/// `ed25519_accepts` for these three byte strings.
#[verifier::external_body]
pub(crate) fn ed25519_verify(public_key: &[u8], message: &[u8], signature: &[u8]) -> (res: bool)
    requires
        public_key@.len() == 32,
        signature@.len() == 64,
    ensures
        res == ed25519_accepts(public_key@, message@, signature@),
{
    let key_bytes: &[u8; 32] = public_key.try_into().unwrap();
    let sig_bytes: &[u8; 64] = signature.try_into().unwrap();
    match VerifyingKey::from_bytes(key_bytes) {
        Ok(key) => key.verify(message, &Signature::from_bytes(sig_bytes)).is_ok(),
        Err(_) => false,
    }
}

/// Ed25519 signature of `message` with the secret key `secret`.
///
/// Calls `SigningKey::from_bytes` and `Signer::sign`, then `Signature::to_bytes`.
/// Trusted: the result is the 64-byte signature named `ed25519_signature`, and
/// verification with the public key derived from the same secret accepts it
/// (Ed25519 signing is deterministic and `verify` accepts every signature that
/// `sign` produces with the matching key).
#[verifier::external_body]
pub(crate) fn ed25519_sign(secret: &[u8], message: &[u8]) -> (res: Vec<u8>)
    requires
        secret@.len() == 32,
    ensures
        res@ == ed25519_signature(secret@, message@),
        res@.len() == 64,
        ed25519_accepts(ed25519_public_key(secret@), message@, res@),
{
    let secret_bytes: &[u8; 32] = secret.try_into().unwrap();
    SigningKey::from_bytes(secret_bytes).sign(message).to_bytes().to_vec()
}

/// The public key that belongs to the secret key `secret`.
///
/// Calls `SigningKey::from_bytes`, `SigningKey::verifying_key` and
/// `VerifyingKey::to_bytes`. Trusted: the result is the 32-byte key named
/// `ed25519_public_key`.
#[verifier::external_body]
pub(crate) fn ed25519_public_key_bytes(secret: &[u8]) -> (res: Vec<u8>)
    requires
        secret@.len() == 32,
    ensures
        res@ == ed25519_public_key(secret@),
        res@.len() == 32,
{
    let secret_bytes: &[u8; 32] = secret.try_into().unwrap();
    SigningKey::from_bytes(secret_bytes).verifying_key().to_bytes().to_vec()
}

/// A fresh random Ed25519 secret key.
///
/// Calls `SigningKey::generate` with the operating system's random source
/// (`rand::rngs::OsRng`) and `SigningKey::to_bytes`. Trusted only for the
/// length: the bytes themselves are random, so nothing else is stated.
#[verifier::external_body]
pub(crate) fn generate_secret_key() -> (res: Vec<u8>)
    ensures
        res@.len() == 32,
{
    SigningKey::generate(&mut rand::rngs::OsRng).to_bytes().to_vec()
}

} // verus!
