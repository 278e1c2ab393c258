//! A wallet holds an Ed25519 secret key and signs messages with it.

use vstd::prelude::*;
use crate::crypto::{
    ed25519_accepts, ed25519_public_key, ed25519_public_key_bytes, ed25519_sign,
    ed25519_signature, generate_secret_key,
};

verus! {

/// An Ed25519 key pair, kept as its 32-byte secret key.
pub struct Wallet {
    secret_key: Vec<u8>,
}

impl View for Wallet {
    type V = Seq<u8>;

    /// The secret key bytes.
    closed spec fn view(&self) -> Seq<u8> {
        self.secret_key@
    }
}

impl Wallet {
    #[verifier::type_invariant]
    spec fn key_has_length(self) -> bool {
        self.secret_key@.len() == 32
    }

    /// A wallet with a fresh random secret key.
    pub fn new() -> (wallet: Self)
        ensures
            wallet@.len() == 32,
    {
        Wallet { secret_key: generate_secret_key() }
    }

    /// The Ed25519 signature of `message` with this wallet's key.
    pub fn sign(&self, message: &[u8]) -> (signature: Vec<u8>)
        ensures
            signature@ == ed25519_signature(self@, message@),
            signature@.len() == 64,
            ed25519_accepts(ed25519_public_key(self@), message@, signature@),
    {
        proof {
            use_type_invariant(self);
        }
        ed25519_sign(self.secret_key.as_slice(), message)
    }

    /// The 32-byte public key of this wallet.
    pub fn public_key(&self) -> (key: Vec<u8>)
        ensures
            key@ == ed25519_public_key(self@),
            key@.len() == 32,
    {
        proof {
            use_type_invariant(self);
        }
        ed25519_public_key_bytes(self.secret_key.as_slice())
    }
}

} // verus!
