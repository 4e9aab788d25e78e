//! Blocks: header, body, validator signatures, quorum and validity rules.
use vstd::prelude::*;

use crate::bytesutil::{append_bytes, bytes32_eq};
use crate::clock::now_ts;
use crate::crypto::{blake3_of, ed25519_verifies, hash_data, verify_signature};
use crate::encoding::{push_i64_le, push_u64_le, spec_i64_le};
use crate::hexcode::hex_of;
use crate::merkle::{spec_root_from, MerkleTree};
use crate::transaction::{spec_is_valid, spec_tx_hash, Transaction, TxView};
use crate::{PublicKey, Timestamp};
use vstd::bytes::{spec_u32_to_le_bytes, spec_u64_to_le_bytes, u32_to_le_bytes, u64_to_le_bytes};

verus! {

/// Protocol version written into every header.
pub const PROTOCOL_VERSION: u32 = 1;

/// Header of a block; the block hash is computed from it alone.
#[derive(Clone, Copy, Debug)]
pub struct BlockHeader {
    /// Height of the block in the chain.
    pub height: u64,
    /// Hash of the previous block; all zeroes at height 0.
    pub previous_hash: crate::Hash,
    /// Merkle root of the block's transactions.
    pub merkle_root: crate::Hash,
    /// Creation timestamp (Unix seconds).
    pub timestamp: Timestamp,
    /// Public key of the validator that produced the block.
    pub validator: PublicKey,
    /// Protocol version.
    pub version: u32,
}

/// The mathematical content of a block header.
pub struct HeaderView {
    pub height: u64,
    pub previous_hash: Seq<u8>,
    pub merkle_root: Seq<u8>,
    pub timestamp: i64,
    pub validator: Seq<u8>,
    pub version: u32,
}

impl View for BlockHeader {
    type V = HeaderView;

    open spec fn view(&self) -> HeaderView {
        HeaderView {
            height: self.height,
            previous_hash: self.previous_hash@,
            merkle_root: self.merkle_root@,
            timestamp: self.timestamp,
            validator: self.validator@,
            version: self.version,
        }
    }
}

/// A validator's signature over a block hash.
#[derive(Clone, Copy, Debug)]
pub struct ValidatorSignature {
    /// Public key of the signing validator.
    pub validator: PublicKey,
    /// Ed25519 signature over the block hash.
    pub signature: crate::Signature,
}

/// The mathematical content of a validator signature.
pub struct SigView {
    pub validator: Seq<u8>,
    pub signature: Seq<u8>,
}

impl View for ValidatorSignature {
    type V = SigView;

    open spec fn view(&self) -> SigView {
        SigView { validator: self.validator@, signature: self.signature@ }
    }
}

/// A block: header, ordered transactions, validator signatures, and the
/// cached header hash.
#[derive(Debug)]
pub struct Block {
    /// The header.
    pub header: BlockHeader,
    /// The transactions, in application order.
    pub transactions: Vec<Transaction>,
    /// Signatures of validators that endorse the block; at most one per key.
    pub validator_signatures: Vec<ValidatorSignature>,
    /// Cached hash of the header, if computed.
    pub hash: Option<crate::Hash>,
}

/// The mathematical content of a block.
pub struct BlockView {
    pub header: HeaderView,
    pub transactions: Seq<TxView>,
    pub signatures: Seq<SigView>,
    pub hash: Option<Seq<u8>>,
}

/// The views of a sequence of transactions.
pub open spec fn spec_txs(s: Seq<Transaction>) -> Seq<TxView> {
    Seq::new(s.len(), |i: int| s[i]@)
}

/// The views of a sequence of validator signatures.
pub open spec fn spec_sigs(s: Seq<ValidatorSignature>) -> Seq<SigView> {
    Seq::new(s.len(), |i: int| s[i]@)
}

impl View for Block {
    type V = BlockView;

    open spec fn view(&self) -> BlockView {
        BlockView {
            header: self.header@,
            transactions: spec_txs(self.transactions@),
            signatures: spec_sigs(self.validator_signatures@),
            hash: match self.hash {
                Option::None => Option::None,
                Option::Some(h) => Option::Some(h@),
            },
        }
    }
}

/// The canonical bytes of a header: height, previous hash, merkle root,
/// timestamp, validator and version in a fixed little-endian schema.
pub open spec fn spec_header_bytes(h: HeaderView) -> Seq<u8> {
    spec_u64_to_le_bytes(h.height) + h.previous_hash + h.merkle_root + spec_i64_le(h.timestamp)
        + h.validator + spec_u32_to_le_bytes(h.version)
}

/// The hash of a block: the Blake3 digest of its canonical header bytes.
pub open spec fn spec_block_hash(h: HeaderView) -> Seq<u8> {
    blake3_of(spec_header_bytes(h))
}

/// The marker hashed as the Merkle root of a block without transactions.
pub open spec fn spec_empty_block_marker() -> Seq<u8> {
    seq![101u8, 109u8, 112u8, 116u8, 121u8, 95u8, 98u8, 108u8, 111u8, 99u8, 107u8]
}

/// The Merkle root of a block's transactions: the root over their canonical
/// hashes, or the digest of a fixed marker when there are none.
pub open spec fn spec_txs_merkle_root(txs: Seq<TxView>) -> Seq<u8> {
    if txs.len() == 0 {
        blake3_of(spec_empty_block_marker())
    } else {
        spec_root_from(Seq::new(txs.len(), |i: int| spec_tx_hash(txs[i])))
    }
}

/// Whether every signature in the list verifies over the given block hash
/// under its validator key; vacuously true of an empty list.
pub open spec fn spec_sigs_verify(sigs: Seq<SigView>, block_hash: Seq<u8>) -> bool {
    forall|i: int|
        0 <= i < sigs.len() ==> ed25519_verifies(
            block_hash,
            (#[trigger] sigs[i]).signature,
            sigs[i].validator,
        )
}

/// The quorum rule: at least sixty-seven percent of the total, rounded up.
pub open spec fn spec_quorum_met(n_signatures: int, total_validators: int) -> bool {
    n_signatures >= (total_validators * 67 + 99) / 100
}

/// Whether a block is valid against an expected previous hash: the header
/// links to it, a block of height 0 accepts no previous hash, every
/// transaction is valid, the Merkle root matches the transactions, and every
/// validator signature verifies over the cached block hash.
pub open spec fn spec_block_valid(b: BlockView, previous: Option<Seq<u8>>) -> bool {
    &&& (previous matches Some(p) ==> b.header.previous_hash == p)
    &&& !(b.header.height == 0 && previous is Some)
    &&& (forall|i: int| 0 <= i < b.transactions.len() ==> spec_is_valid(#[trigger] b.transactions[i]))
    &&& b.header.merkle_root == spec_txs_merkle_root(b.transactions)
    &&& (b.hash matches Some(h) && spec_sigs_verify(b.signatures, h))
}

impl BlockHeader {
    /// Creates a header with the given content and timestamp, at the current
    /// protocol version.
    pub fn new_at(
        height: u64,
        previous_hash: crate::Hash,
        merkle_root: crate::Hash,
        validator: PublicKey,
        timestamp: Timestamp,
    ) -> (r: Self)
        ensures
            r@ == (HeaderView {
                height,
                previous_hash: previous_hash@,
                merkle_root: merkle_root@,
                timestamp,
                validator: validator@,
                version: PROTOCOL_VERSION,
            }),
    {
        BlockHeader {
            height,
            previous_hash,
            merkle_root,
            timestamp,
            validator,
            version: PROTOCOL_VERSION,
        }
    }

    /// Creates a header stamped with the current time.
    pub fn new(
        height: u64,
        previous_hash: crate::Hash,
        merkle_root: crate::Hash,
        validator: PublicKey,
    ) -> (r: Self)
        ensures
            r@ == (HeaderView {
                height,
                previous_hash: previous_hash@,
                merkle_root: merkle_root@,
                timestamp: r@.timestamp,
                validator: validator@,
                version: PROTOCOL_VERSION,
            }),
    {
        let timestamp = now_ts();
        Self::new_at(height, previous_hash, merkle_root, validator, timestamp)
    }

    /// Builds the canonical bytes of this header.
    pub fn serialize_for_hash(&self) -> (r: Vec<u8>)
        ensures
            r@ == spec_header_bytes(self@),
    {
        let mut out: Vec<u8> = Vec::new();
        push_u64_le(&mut out, self.height);
        append_bytes(&mut out, self.previous_hash.as_slice());
        append_bytes(&mut out, self.merkle_root.as_slice());
        push_i64_le(&mut out, self.timestamp);
        append_bytes(&mut out, self.validator.as_slice());
        let vbytes = u32_to_le_bytes(self.version);
        append_bytes(&mut out, vbytes.as_slice());
        proof {
            assert(out@ =~= spec_header_bytes(self@));
        }
        out
    }
}

/// Computes the Merkle root over a list of transactions, with the fixed
/// marker for an empty list.
pub fn merkle_root_of_transactions(transactions: &[Transaction]) -> (r: crate::Hash)
    ensures
        r@ == spec_txs_merkle_root(spec_txs(transactions@)),
{
    if transactions.is_empty() {
        let marker: [u8; 11] = [101u8, 109u8, 112u8, 116u8, 121u8, 95u8, 98u8, 108u8, 111u8, 99u8, 107u8];
        proof {
            assert(marker@ =~= spec_empty_block_marker());
        }
        hash_data(marker.as_slice())
    } else {
        let tree = MerkleTree::from_transactions(transactions);
        let root = tree.root();
        proof {
            assert(Seq::new(transactions@.len(), |i: int| spec_tx_hash(transactions@[i]@)) =~= Seq::new(
                spec_txs(transactions@).len(),
                |i: int| spec_tx_hash(spec_txs(transactions@)[i]),
            ));
        }
        root
    }
}

impl Block {
    /// Creates a block at the given height with the given transactions and
    /// producing validator, computing the Merkle root, at the given
    /// timestamp; the hash is left uncomputed and no signatures are present.
    pub fn new_at(
        height: u64,
        previous_hash: crate::Hash,
        transactions: Vec<Transaction>,
        validator: PublicKey,
        timestamp: Timestamp,
    ) -> (r: Self)
        ensures
            r@ == (BlockView {
                header: HeaderView {
                    height,
                    previous_hash: previous_hash@,
                    merkle_root: spec_txs_merkle_root(spec_txs(transactions@)),
                    timestamp,
                    validator: validator@,
                    version: PROTOCOL_VERSION,
                },
                transactions: spec_txs(transactions@),
                signatures: Seq::empty(),
                hash: None,
            }),
    {
        let merkle_root = merkle_root_of_transactions(transactions.as_slice());
        let header = BlockHeader::new_at(height, previous_hash, merkle_root, validator, timestamp);
        let r = Block { header, transactions, validator_signatures: Vec::new(), hash: None };
        proof {
            assert(r@.signatures =~= Seq::<SigView>::empty());
        }
        r
    }

    /// Creates a block stamped with the current time.
    pub fn new(
        height: u64,
        previous_hash: crate::Hash,
        transactions: Vec<Transaction>,
        validator: PublicKey,
    ) -> (r: Self)
        ensures
            r@ == (BlockView {
                header: HeaderView {
                    height,
                    previous_hash: previous_hash@,
                    merkle_root: spec_txs_merkle_root(spec_txs(transactions@)),
                    timestamp: r@.header.timestamp,
                    validator: validator@,
                    version: PROTOCOL_VERSION,
                },
                transactions: spec_txs(transactions@),
                signatures: Seq::empty(),
                hash: None,
            }),
    {
        let timestamp = now_ts();
        Self::new_at(height, previous_hash, transactions, validator, timestamp)
    }

    /// Computes, caches and returns the block hash from the header.
    pub fn calculate_hash(&mut self) -> (r: crate::Hash)
        ensures
            r@ == spec_block_hash(old(self)@.header),
            final(self)@ == (BlockView { hash: Some(r@), ..old(self)@ }),
    {
        let data = self.header.serialize_for_hash();
        let hash = hash_data(data.as_slice());
        self.hash = Some(hash);
        hash
    }

    /// Appends a validator signature unless one from the same key is already
    /// present.
    pub fn add_validator_signature(&mut self, validator: PublicKey, signature: crate::Signature)
        ensures
            (exists|i: int|
                0 <= i < old(self)@.signatures.len() && (#[trigger] old(
                    self,
                )@.signatures[i]).validator == validator@) ==> final(self)@ == old(self)@,
            (forall|i: int|
                0 <= i < old(self)@.signatures.len() ==> (#[trigger] old(
                    self,
                )@.signatures[i]).validator != validator@) ==> final(self)@ == (BlockView {
                signatures: old(self)@.signatures.push(
                    SigView { validator: validator@, signature: signature@ },
                ),
                ..old(self)@
            }),
    {
        let mut i: usize = 0;
        while i < self.validator_signatures.len()
            invariant
                i <= self.validator_signatures@.len(),
                forall|j: int|
                    0 <= j < i ==> (#[trigger] spec_sigs(self.validator_signatures@)[j]).validator
                        != validator@,
                *self == *old(self),
            decreases self.validator_signatures@.len() - i,
        {
            if bytes32_eq(&self.validator_signatures[i].validator, &validator) {
                proof {
                    assert((old(self)@.signatures[i as int]).validator == validator@);
                }
                return ;
            }
            i += 1;
        }
        self.validator_signatures.push(ValidatorSignature { validator, signature });
        proof {
            assert(spec_sigs(self.validator_signatures@) =~= spec_sigs(
                old(self).validator_signatures@,
            ).push(SigView { validator: validator@, signature: signature@ }));
        }
    }

    /// Checks every stored validator signature over the given block hash.
    fn verify_validator_signatures(&self, block_hash: &crate::Hash) -> (r: bool)
        ensures
            r == spec_sigs_verify(self@.signatures, block_hash@),
    {
        let mut i: usize = 0;
        while i < self.validator_signatures.len()
            invariant
                i <= self.validator_signatures@.len(),
                forall|j: int|
                    0 <= j < i ==> ed25519_verifies(
                        block_hash@,
                        (#[trigger] spec_sigs(self.validator_signatures@)[j]).signature,
                        spec_sigs(self.validator_signatures@)[j].validator,
                    ),
            decreases self.validator_signatures@.len() - i,
        {
            let vs = &self.validator_signatures[i];
            proof {
                assert(vs@ == self@.signatures[i as int]);
            }
            if !verify_signature(block_hash.as_slice(), &vs.signature, &vs.validator) {
                proof {
                    assert(!ed25519_verifies(
                        block_hash@,
                        (self@.signatures[i as int]).signature,
                        (self@.signatures[i as int]).validator,
                    ));
                }
                return false;
            }
            i += 1;
        }
        true
    }

    /// Whether the stored signatures meet the quorum over the given total:
    /// at least sixty-seven percent rounded up, so trivially met when no
    /// validator is active.
    pub fn has_quorum(&self, total_validators: usize) -> (r: bool)
        ensures
            r == spec_quorum_met(self@.signatures.len() as int, total_validators as int),
    {
        let required = ((total_validators as u128) * 67 + 99) / 100;
        (self.validator_signatures.len() as u128) >= required
    }

    /// Checks the validity of this block against the expected previous
    /// hash; the block hash must have been computed before this call.
    pub fn is_valid(&self, previous_block_hash: Option<crate::Hash>) -> (r: bool)
        requires
            self@.hash is Some,
        ensures
            r == spec_block_valid(
                self@,
                match previous_block_hash {
                    Option::None => Option::<Seq<u8>>::None,
                    Option::Some(p) => Option::Some(p@),
                },
            ),
    {
        if let Option::Some(prev_hash) = &previous_block_hash {
            if !bytes32_eq(&self.header.previous_hash, prev_hash) {
                return false;
            }
        }
        if self.header.height == 0 && previous_block_hash.is_some() {
            return false;
        }
        let mut i: usize = 0;
        while i < self.transactions.len()
            invariant
                i <= self.transactions@.len(),
                forall|j: int| 0 <= j < i ==> spec_is_valid(#[trigger] spec_txs(self.transactions@)[j]),
            decreases self.transactions@.len() - i,
        {
            if !self.transactions[i].is_valid() {
                proof {
                    assert(!spec_is_valid(self@.transactions[i as int]));
                }
                return false;
            }
            i += 1;
        }
        let calculated_root = merkle_root_of_transactions(self.transactions.as_slice());
        if !bytes32_eq(&self.header.merkle_root, &calculated_root) {
            return false;
        }
        let block_hash = match &self.hash {
            Option::Some(h) => *h,
            Option::None => {
                proof {
                    assert(false);
                }
                [0u8; 32]
            },
        };
        if !self.verify_validator_signatures(&block_hash) {
            return false;
        }
        true
    }

    /// Returns the cached hash, computing and caching it first if absent.
    pub fn hash(&mut self) -> (r: crate::Hash)
        ensures
            old(self)@.hash matches Some(h) ==> r@ == h && *final(self) == *old(self),
            old(self)@.hash is None ==> r@ == spec_block_hash(old(self)@.header) && final(self)@
                == (BlockView { hash: Some(r@), ..old(self)@ }),
    {
        match &self.hash {
            Option::Some(h) => *h,
            Option::None => self.calculate_hash(),
        }
    }

    /// The cached hash, if computed.
    pub fn get_hash(&self) -> (r: Option<crate::Hash>)
        ensures
            match r {
                Option::None => self@.hash is None,
                Option::Some(h) => self@.hash == Some(h@),
            },
    {
        self.hash
    }

    /// The block hash as a lowercase hexadecimal string, computing the hash
    /// first if needed.
    pub fn hash_string(&mut self) -> (r: String)
        ensures
            old(self)@.hash matches Some(h) ==> r@ == hex_of(h),
            old(self)@.hash is None ==> r@ == hex_of(spec_block_hash(old(self)@.header)),
    {
        let hash = self.hash();
        crate::crypto::hash_to_string(&hash)
    }
}

} // verus!
