//! Hash-based pseudo-random output with an Ed25519 proof, used to score
//! validators for selection.
//!
//! The output is a digest of the private key and the message, so any
//! observer holding the key material reproduces it exactly; the proof is an
//! ordinary signature over the message.
use vstd::prelude::*;

use crate::bytesutil::append_bytes;
use crate::crypto::{blake3_of, ed25519_sign_of, ed25519_verifies, hash_data, sign, verify_signature};
use crate::{PrivateKey, PublicKey};
use vstd::bytes::{spec_u64_from_le_bytes, u64_from_le_bytes};
use vstd::slice::slice_subrange;

verus! {

/// The selection number read from a digest: its first 8 bytes as a
/// little-endian unsigned 64-bit integer.
pub open spec fn spec_vrf_number(output: Seq<u8>) -> u64 {
    spec_u64_from_le_bytes(output.subrange(0, 8))
}

/// A pseudo-random output together with its proof.
#[derive(Clone, Debug)]
pub struct VRFOutput {
    /// The generated value: a digest of key and message.
    pub output: crate::Hash,
    /// The proof: a signature over the message.
    pub proof: Vec<u8>,
}

/// Deterministic hash-based scoring with signature proofs.
pub struct VRF;

impl VRF {
    /// Generates the output for a private key and message: the digest of key
    /// then message, with a signature over the message as proof.
    pub fn generate(private_key: &PrivateKey, message: &[u8]) -> (r: VRFOutput)
        ensures
            r.output@ == blake3_of(private_key@ + message@),
            r.proof@ == ed25519_sign_of(message@, private_key@),
    {
        let mut input: Vec<u8> = Vec::new();
        append_bytes(&mut input, private_key.as_slice());
        append_bytes(&mut input, message);
        let output = hash_data(input.as_slice());
        let signature = sign(message, private_key);
        let mut proof: Vec<u8> = Vec::new();
        append_bytes(&mut proof, signature.as_slice());
        proof {
            assert(proof@ =~= signature@);
        }
        VRFOutput { output, proof }
    }

    /// Verifies the proof: the first 64 bytes must be a valid signature over
    /// the message under the public key.
    pub fn verify(public_key: &PublicKey, message: &[u8], _output: &crate::Hash, proof: &[u8]) -> (r:
        bool)
        requires
            proof@.len() >= 64,
        ensures
            r == ed25519_verifies(message@, proof@.subrange(0, 64), public_key@),
    {
        let head = slice_subrange(proof, 0, 64);
        let mut sig: crate::Signature = [0u8; 64];
        let mut i: usize = 0;
        while i < 64
            invariant
                i <= 64,
                head@.len() == 64,
                head@ == proof@.subrange(0, 64),
                forall|j: int| 0 <= j < i ==> sig@[j] == head@[j],
            decreases 64 - i,
        {
            sig[i] = head[i];
            i += 1;
        }
        proof {
            assert(sig@ =~= proof@.subrange(0, 64));
        }
        verify_signature(message, &sig, public_key)
    }

    /// Converts an output to its selection number: the first 8 bytes as a
    /// little-endian unsigned 64-bit integer.
    pub fn output_to_number(output: &crate::Hash) -> (r: u64)
        ensures
            r == spec_vrf_number(output@),
    {
        let head = slice_subrange(output.as_slice(), 0, 8);
        u64_from_le_bytes(head)
    }
}

} // verus!
