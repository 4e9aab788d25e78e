//! Transactions: canonical encoding, hashing, signing and validity rules.
use vstd::prelude::*;

use crate::bytesutil::append_bytes;
use crate::clock::now_ts;
use crate::crypto::{
    blake3_of, ed25519_sign_of, ed25519_verifies, hash_data, sign, verify_signature,
};
use crate::encoding::{push_byte, push_i64_le, push_u64_le, spec_i64_le};
use crate::{Amount, PrivateKey, PublicKey, Timestamp};
use vstd::bytes::spec_u64_to_le_bytes;

verus! {

/// The kind of a transaction.
#[derive(Clone, Copy, Debug, PartialEq, Eq, Structural)]
pub enum TransactionType {
    /// Plain transfer.
    Transfer,
    /// Rental payment.
    RentalPayment,
    /// Purchase in a shop.
    ShopPurchase,
    /// Teleport.
    Teleport,
    /// Universal Dividend distribution.
    UniversalDividend,
    /// Transaction on a non-fungible token.
    NFT,
}

impl Default for TransactionType {
    /// The default kind is a plain transfer.
    fn default() -> (r: Self)
        ensures
            r == TransactionType::Transfer,
    {
        TransactionType::Transfer
    }
}

/// Optional typed metadata of a transaction.
#[derive(Debug)]
pub struct TransactionMetadata {
    /// The kind of the transaction.
    pub transaction_type: TransactionType,
    /// Free-form additional payload.
    pub extra_data: Option<Vec<u8>>,
}

/// The metadata as (kind, optional payload bytes).
pub open spec fn spec_extra_view(d: Option<Vec<u8>>) -> Option<Seq<u8>> {
    match d {
        Option::None => Option::None,
        Option::Some(v) => Option::Some(v@),
    }
}

impl Clone for TransactionMetadata {
    /// Cloning keeps the kind and the payload.
    fn clone(&self) -> (r: Self)
        ensures
            r.transaction_type == self.transaction_type,
            spec_extra_view(r.extra_data) == spec_extra_view(self.extra_data),
    {
        let extra_data = match &self.extra_data {
            Option::None => Option::None,
            Option::Some(v) => {
                let c = v.clone();
                proof {
                    assert(c@ =~= v@);
                }
                Option::Some(c)
            },
        };
        TransactionMetadata { transaction_type: self.transaction_type, extra_data }
    }
}

impl Default for TransactionMetadata {
    /// The default metadata is a plain transfer with no payload.
    fn default() -> (r: Self)
        ensures
            r.transaction_type == TransactionType::Transfer,
            r.extra_data is None,
    {
        TransactionMetadata { transaction_type: TransactionType::Transfer, extra_data: None }
    }
}

/// A transaction of the ledger.
#[derive(Debug)]
pub struct Transaction {
    /// Cached hash of the canonical content, if computed.
    pub hash: Option<crate::Hash>,
    /// Sender public key.
    pub from: PublicKey,
    /// Recipient public key.
    pub to: PublicKey,
    /// Amount moved, in micro-units; must be positive to be valid.
    pub amount: Amount,
    /// Fee burned, in micro-units; must be non-negative to be valid.
    pub fee: Amount,
    /// Creation timestamp (Unix seconds).
    pub timestamp: Timestamp,
    /// Typed metadata.
    pub metadata: TransactionMetadata,
    /// Ed25519 signature over the canonical hash, once signed.
    pub signature: Option<crate::Signature>,
}

/// The mathematical content of a transaction.
pub struct TxView {
    pub hash: Option<Seq<u8>>,
    pub from: Seq<u8>,
    pub to: Seq<u8>,
    pub amount: i64,
    pub fee: i64,
    pub timestamp: i64,
    pub transaction_type: TransactionType,
    pub extra_data: Option<Seq<u8>>,
    pub signature: Option<Seq<u8>>,
}

impl View for Transaction {
    type V = TxView;

    open spec fn view(&self) -> TxView {
        TxView {
            hash: match self.hash {
                Option::None => Option::None,
                Option::Some(h) => Option::Some(h@),
            },
            from: self.from@,
            to: self.to@,
            amount: self.amount,
            fee: self.fee,
            timestamp: self.timestamp,
            transaction_type: self.metadata.transaction_type,
            extra_data: spec_extra_view(self.metadata.extra_data),
            signature: match self.signature {
                Option::None => Option::None,
                Option::Some(s) => Option::Some(s@),
            },
        }
    }
}

/// The byte that encodes a transaction kind.
pub open spec fn spec_tag_byte(t: TransactionType) -> u8 {
    match t {
        TransactionType::Transfer => 0,
        TransactionType::RentalPayment => 1,
        TransactionType::ShopPurchase => 2,
        TransactionType::Teleport => 3,
        TransactionType::UniversalDividend => 4,
        TransactionType::NFT => 5,
    }
}

/// The canonical content bytes of a transaction: sender, recipient, amount,
/// fee, timestamp and metadata, in a fixed little-endian schema; the cached
/// hash and the signature are excluded.
pub open spec fn spec_content_bytes(v: TxView) -> Seq<u8> {
    v.from + v.to + spec_i64_le(v.amount) + spec_i64_le(v.fee) + spec_i64_le(v.timestamp) + seq![
        spec_tag_byte(v.transaction_type),
    ] + match v.extra_data {
        Option::None => seq![0u8],
        Option::Some(d) => seq![1u8] + spec_u64_to_le_bytes(d.len() as u64) + d,
    }
}

/// The canonical hash of a transaction: the Blake3 digest of its canonical
/// content bytes.
pub open spec fn spec_tx_hash(v: TxView) -> Seq<u8> {
    blake3_of(spec_content_bytes(v))
}

/// Whether the stored signature verifies over the recomputed canonical hash
/// under the sender's key.
pub open spec fn spec_sig_ok(v: TxView) -> bool {
    match v.signature {
        Option::None => false,
        Option::Some(s) => ed25519_verifies(spec_tx_hash(v), s, v.from),
    }
}

/// Whether a transaction is valid: its signature verifies, the amount is
/// positive, the fee is non-negative, and sender and recipient differ unless
/// it is a Universal Dividend.
pub open spec fn spec_is_valid(v: TxView) -> bool {
    &&& spec_sig_ok(v)
    &&& v.amount > 0
    &&& v.fee >= 0
    &&& (v.from != v.to || v.transaction_type == TransactionType::UniversalDividend)
}

/// Every valid transaction's signature verifies over its canonical hash
/// under the sender's key.
pub proof fn lemma_valid_transaction_signature(v: TxView)
    requires
        spec_is_valid(v),
    ensures
        v.signature matches Some(s) && ed25519_verifies(spec_tx_hash(v), s, v.from),
{
}

impl Transaction {
    /// Creates an unsigned transaction with the given content and timestamp.
    pub fn new_at(
        from: PublicKey,
        to: PublicKey,
        amount: Amount,
        fee: Amount,
        metadata: TransactionMetadata,
        timestamp: Timestamp,
    ) -> (r: Self)
        ensures
            r@ == (TxView {
                hash: None,
                from: from@,
                to: to@,
                amount: amount,
                fee: fee,
                timestamp: timestamp,
                transaction_type: metadata.transaction_type,
                extra_data: spec_extra_view(metadata.extra_data),
                signature: None,
            }),
    {
        Transaction { hash: None, from, to, amount, fee, timestamp, metadata, signature: None }
    }

    /// Creates an unsigned transaction stamped with the current time.
    pub fn new(
        from: PublicKey,
        to: PublicKey,
        amount: Amount,
        fee: Amount,
        metadata: TransactionMetadata,
    ) -> (r: Self)
        ensures
            r@ == (TxView {
                hash: None,
                from: from@,
                to: to@,
                amount: amount,
                fee: fee,
                timestamp: r@.timestamp,
                transaction_type: metadata.transaction_type,
                extra_data: spec_extra_view(metadata.extra_data),
                signature: None,
            }),
    {
        let timestamp = now_ts();
        Self::new_at(from, to, amount, fee, metadata, timestamp)
    }

    /// Builds the canonical content bytes of this transaction.
    pub fn content_bytes(&self) -> (r: Vec<u8>)
        ensures
            r@ == spec_content_bytes(self@),
    {
        let mut out: Vec<u8> = Vec::new();
        append_bytes(&mut out, self.from.as_slice());
        append_bytes(&mut out, self.to.as_slice());
        push_i64_le(&mut out, self.amount);
        push_i64_le(&mut out, self.fee);
        push_i64_le(&mut out, self.timestamp);
        let tag: u8 = match self.metadata.transaction_type {
            TransactionType::Transfer => 0,
            TransactionType::RentalPayment => 1,
            TransactionType::ShopPurchase => 2,
            TransactionType::Teleport => 3,
            TransactionType::UniversalDividend => 4,
            TransactionType::NFT => 5,
        };
        push_byte(&mut out, tag);
        match &self.metadata.extra_data {
            Option::None => {
                push_byte(&mut out, 0);
            },
            Option::Some(d) => {
                push_byte(&mut out, 1);
                push_u64_le(&mut out, d.len() as u64);
                append_bytes(&mut out, d.as_slice());
            },
        }
        proof {
            assert(out@ =~= spec_content_bytes(self@));
        }
        out
    }

    /// Computes, caches and returns the canonical hash.
    pub fn calculate_hash(&mut self) -> (r: crate::Hash)
        ensures
            r@ == spec_tx_hash(old(self)@),
            final(self)@ == (TxView { hash: Some(r@), ..old(self)@ }),
    {
        let data = self.content_bytes();
        let hash = hash_data(data.as_slice());
        self.hash = Some(hash);
        hash
    }

    /// Signs the transaction: computes and caches the canonical hash, then
    /// stores the Ed25519 signature over it under the given private key.
    pub fn sign(&mut self, private_key: &PrivateKey) -> (r: Result<(), String>)
        ensures
            r is Ok,
            final(self)@ == (TxView {
                hash: Some(spec_tx_hash(old(self)@)),
                signature: Some(
                    ed25519_sign_of(spec_tx_hash(old(self)@), private_key@),
                ),
                ..old(self)@
            }),
            ed25519_verifies(
                spec_tx_hash(old(self)@),
                ed25519_sign_of(spec_tx_hash(old(self)@), private_key@),
                crate::crypto::ed25519_public_of(private_key@),
            ),
    {
        let hash = self.calculate_hash();
        let signature = sign(hash.as_slice(), private_key);
        self.signature = Some(signature);
        Ok(())
    }

    /// Checks the stored signature over the recomputed canonical hash.
    pub fn verify_signature(&self) -> (r: bool)
        ensures
            r == spec_sig_ok(self@),
    {
        match &self.signature {
            Option::None => false,
            Option::Some(sig) => {
                let data = self.content_bytes();
                let hash = hash_data(data.as_slice());
                verify_signature(hash.as_slice(), sig, &self.from)
            },
        }
    }

    /// Checks the validity rules: signature, positive amount, non-negative
    /// fee, and distinct sender and recipient unless the kind is a Universal
    /// Dividend.
    pub fn is_valid(&self) -> (r: bool)
        ensures
            r == spec_is_valid(self@),
    {
        if !self.verify_signature() {
            return false;
        }
        if self.amount <= 0 || self.fee < 0 {
            return false;
        }
        if crate::bytesutil::bytes32_eq(&self.from, &self.to) && !matches!(
            self.metadata.transaction_type,
            TransactionType::UniversalDividend,
        ) {
            proof {
                vstd::array::axiom_array_ext_equal(self.from, self.to);
            }
            return false;
        }
        true
    }
}

impl Clone for Transaction {
    /// Cloning keeps the whole content, including the cached hash and the
    /// signature.
    fn clone(&self) -> (r: Self)
        ensures
            r@ == self@,
    {
        Transaction {
            hash: self.hash,
            from: self.from,
            to: self.to,
            amount: self.amount,
            fee: self.fee,
            timestamp: self.timestamp,
            metadata: self.metadata.clone(),
            signature: self.signature,
        }
    }
}

/// The canonical hash is a function of the content alone: two transactions
/// with the same content fields have the same hash, whatever their cached
/// hash or signature.
pub proof fn lemma_hash_ignores_cache_and_signature(v1: TxView, v2: TxView)
    requires
        v1.from == v2.from,
        v1.to == v2.to,
        v1.amount == v2.amount,
        v1.fee == v2.fee,
        v1.timestamp == v2.timestamp,
        v1.transaction_type == v2.transaction_type,
        v1.extra_data == v2.extra_data,
    ensures
        spec_tx_hash(v1) == spec_tx_hash(v2),
{
    assert(spec_content_bytes(v1) =~= spec_content_bytes(v2));
}

} // verus!
