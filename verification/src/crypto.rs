//! Cryptographic primitives: Blake3 hashing and Ed25519 key handling,
//! signing and verification.
//!
//! The outside computations are named by uninterpreted spec functions; every
//! other function of the library speaks of those names, so nothing but the
//! thin wrappers here is taken on trust.
use vstd::prelude::*;

use crate::hexcode::{hex_decode, hex_encode, hex_of, spec_hex_decode, spec_is_hex};
use crate::{PrivateKey, PublicKey, Signature};
use ed25519_dalek::{Signer, Verifier};

verus! {

/// The Blake3 digest (32 bytes) of a byte sequence; a function of the bytes
/// alone.
pub uninterp spec fn blake3_of(data: Seq<u8>) -> Seq<u8>;

/// The Ed25519 verifying key (32 bytes) derived from a 32-byte secret seed; a
/// function of the seed alone.
pub uninterp spec fn ed25519_public_of(seed: Seq<u8>) -> Seq<u8>;

/// The Ed25519 signature (64 bytes) over a message under a 32-byte secret
/// seed; Ed25519 signing is deterministic, so this is a function of its
/// arguments alone.
pub uninterp spec fn ed25519_sign_of(data: Seq<u8>, seed: Seq<u8>) -> Seq<u8>;

/// Whether an Ed25519 signature verifies over a message under a public key.
pub uninterp spec fn ed25519_verifies(data: Seq<u8>, sig: Seq<u8>, public_key: Seq<u8>) -> bool;

/// Relies on blake3::hash: a 32-byte digest computed from the input bytes
/// alone.
#[verifier::external_body]
pub fn hash_data(data: &[u8]) -> (r: crate::Hash)
    ensures
        r@ == blake3_of(data@),
{
    blake3::hash(data).into()
}

/// Relies on ed25519_dalek::SigningKey::verifying_key: the verifying key is
/// derived from the secret seed alone.
#[verifier::external_body]
pub fn derive_public_key(seed: &PrivateKey) -> (r: PublicKey)
    ensures
        r@ == ed25519_public_of(seed@),
{
    ed25519_dalek::SigningKey::from_bytes(seed).verifying_key().to_bytes()
}

/// Relies on ed25519_dalek::SigningKey::generate with the operating system's
/// randomness; nothing is promised of the bytes that come back.
#[verifier::external_body]
pub fn random_seed() -> (r: PrivateKey)
{
    let mut csprng = rand::rngs::OsRng;
    ed25519_dalek::SigningKey::generate(&mut csprng).to_bytes()
}

/// Relies on ed25519_dalek::SigningKey::sign (RFC 8032): signing is
/// deterministic in the seed and message, and the signature it produces
/// verifies under the derived verifying key.
#[verifier::external_body]
pub fn sign(data: &[u8], private_key: &PrivateKey) -> (r: Signature)
    ensures
        r@ == ed25519_sign_of(data@, private_key@),
        ed25519_verifies(data@, r@, ed25519_public_of(private_key@)),
{
    let signing_key = ed25519_dalek::SigningKey::from_bytes(private_key);
    signing_key.sign(data).to_bytes()
}

/// Relies on ed25519_dalek::VerifyingKey::verify: true exactly when the
/// signature verifies over the message under the key; false as well when the
/// key bytes are not a valid verifying key.
#[verifier::external_body]
pub fn verify_signature(data: &[u8], signature: &Signature, public_key: &PublicKey) -> (r: bool)
    ensures
        r == ed25519_verifies(data@, signature@, public_key@),
{
    let vk = match ed25519_dalek::VerifyingKey::from_bytes(public_key) {
        Ok(k) => k,
        Err(_) => return false,
    };
    let sig = ed25519_dalek::Signature::from_bytes(signature);
    vk.verify(data, &sig).is_ok()
}

/// Ed25519 signing is deterministic: signing the same bytes twice under
/// the same key yields the same signature.
pub proof fn lemma_signing_deterministic(data1: Seq<u8>, data2: Seq<u8>, key1: Seq<u8>, key2: Seq<u8>)
    requires
        data1 == data2,
        key1 == key2,
    ensures
        ed25519_sign_of(data1, key1) == ed25519_sign_of(data2, key2),
{
}

/// An Ed25519 key pair; the public key is always the one derived from the
/// private key.
#[derive(Clone, Copy, Debug)]
pub struct KeyPair {
    pub public_key: PublicKey,
    pub private_key: PrivateKey,
}

impl KeyPair {
    /// The public key matches the private key.
    pub open spec fn wf(self) -> bool {
        self.public_key@ == ed25519_public_of(self.private_key@)
    }

    /// Creates a key pair from fresh randomness.
    pub fn new() -> (r: Self)
        ensures
            r.wf(),
    {
        let seed = random_seed();
        let public_key = derive_public_key(&seed);
        KeyPair { public_key, private_key: seed }
    }

    /// Creates the key pair deterministically derived from a 32-byte seed:
    /// equal seeds give equal key pairs.
    pub fn from_seed(seed: &[u8; 32]) -> (r: Self)
        ensures
            r.wf(),
            r.private_key@ == seed@,
            r.public_key@ == ed25519_public_of(seed@),
    {
        let public_key = derive_public_key(seed);
        KeyPair { public_key, private_key: *seed }
    }

    /// The public key.
    pub fn public_key(&self) -> (r: &PublicKey)
        ensures
            r == &self.public_key,
    {
        &self.public_key
    }

    /// The private key.
    pub fn private_key(&self) -> (r: &PrivateKey)
        ensures
            r == &self.private_key,
    {
        &self.private_key
    }
}

impl Default for KeyPair {
    /// A fresh random key pair.
    fn default() -> (r: Self)
        ensures
            r.wf(),
    {
        KeyPair::new()
    }
}

/// Creates a new random key pair.
pub fn generate_keypair() -> (r: KeyPair)
    ensures
        r.wf(),
{
    KeyPair::new()
}

/// Renders a hash as its lowercase hexadecimal string.
pub fn hash_to_string(hash: &crate::Hash) -> (r: String)
    ensures
        r@ == hex_of(hash@),
{
    hex_encode(hash.as_slice())
}

/// Parses a hash from a hexadecimal string: succeeds exactly on hex strings
/// of 64 digits.
pub fn hash_from_string(s: &str) -> (r: Result<crate::Hash, String>)
    ensures
        r is Ok <==> spec_is_hex(s@) && s@.len() == 64,
        r matches Ok(h) ==> h@ == spec_hex_decode(s@),
{
    match hex_decode(s) {
        None => Err("invalid hex".to_owned()),
        Some(bytes) => {
            if bytes.len() != 32 {
                return Err("hash must be 32 bytes".to_owned());
            }
            let mut hash: crate::Hash = [0u8; 32];
            let mut i: usize = 0;
            while i < 32
                invariant
                    i <= 32,
                    bytes@.len() == 32,
                    forall|j: int| 0 <= j < i ==> hash@[j] == bytes@[j],
                decreases 32 - i,
            {
                hash[i] = bytes[i];
                i += 1;
            }
            proof {
                assert(hash@ =~= bytes@);
            }
            Ok(hash)
        },
    }
}

} // verus!
