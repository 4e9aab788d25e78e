//! Core of a lightweight blockchain for mobile participation: a ledger state
//! machine with a block/transaction data model, hash-based deterministic
//! validator selection with quorum acceptance, Merkle inclusion proofs, a
//! Universal Dividend monetary rule, a fee-priority mempool, and a bridge
//! automated market maker with a sliding-window rate limit.
//!
//! Monetary amounts are fixed-point integers in micro-units so that all
//! arithmetic is deterministic across platforms.
#![allow(unused_imports)]
use vstd::prelude::*;

pub mod block;
pub mod bytesutil;
pub mod chain;
pub mod checkpoint;
pub mod clock;
pub mod codec;
pub mod crypto;
pub mod du;
pub mod encoding;
pub mod hexcode;
pub mod june;
pub mod lightsync;
pub mod market_maker;
pub mod mempool;
pub mod merkle;
pub mod nft;
pub mod nodecfg;
pub mod reserves;
pub mod rvs;
pub mod security;
pub mod transaction;
pub mod vrf;
pub mod wallet;

verus! {

/// 32-byte digest.
pub type Hash = [u8; 32];

/// 64-byte Ed25519 signature.
pub type Signature = [u8; 64];

/// 32-byte Ed25519 public key.
pub type PublicKey = [u8; 32];

/// 32-byte Ed25519 private key (seed).
pub type PrivateKey = [u8; 32];

/// Unix timestamp in seconds.
pub type Timestamp = i64;

/// Monetary amount in micro-units: `MICRO` micro-units make one whole unit.
pub type Amount = i64;

/// Number of micro-units in one whole unit of currency.
pub const MICRO: i64 = 1_000_000;

} // verus!
