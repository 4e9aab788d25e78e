//! Wallets: a key pair together with its address, which is the public key.
use vstd::prelude::*;

use crate::crypto::{ed25519_public_of, KeyPair};
use crate::{PrivateKey, PublicKey};

verus! {

/// The address of a wallet: its public key.
pub type WalletAddress = PublicKey;

/// A wallet: a key pair and its address.
#[derive(Debug)]
pub struct Wallet {
    /// The key pair.
    pub keypair: KeyPair,
    /// The address: always the key pair's public key.
    pub address: WalletAddress,
}

impl Wallet {
    /// The address matches the key pair.
    pub open spec fn wf(self) -> bool {
        &&& self.address == self.keypair.public_key
        &&& self.keypair.wf()
    }

    /// Creates a wallet from fresh randomness.
    pub fn new() -> (r: Self)
        ensures
            r.wf(),
    {
        let keypair = KeyPair::new();
        let address = *keypair.public_key();
        Wallet { keypair, address }
    }

    /// Creates the wallet deterministically derived from a 32-byte seed:
    /// equal seeds give equal wallets.
    pub fn from_seed(seed: &[u8; 32]) -> (r: Self)
        ensures
            r.wf(),
            r.address@ == ed25519_public_of(seed@),
            r.keypair.private_key@ == seed@,
    {
        let keypair = KeyPair::from_seed(seed);
        let address = *keypair.public_key();
        Wallet { keypair, address }
    }

    /// The address of the wallet.
    pub fn address(&self) -> (r: &WalletAddress)
        ensures
            r == &self.address,
    {
        &self.address
    }

    /// The public key of the wallet.
    pub fn public_key(&self) -> (r: &PublicKey)
        ensures
            r == &self.address,
    {
        &self.address
    }

    /// The private key of the wallet.
    pub fn private_key(&self) -> (r: &PrivateKey)
        ensures
            r == &self.keypair.private_key,
    {
        self.keypair.private_key()
    }
}

impl Default for Wallet {
    /// A fresh random wallet.
    fn default() -> (r: Self)
        ensures
            r.wf(),
    {
        Wallet::new()
    }
}

} // verus!
