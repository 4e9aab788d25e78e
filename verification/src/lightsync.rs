//! The light client's companions: checkpoint synchronization state,
//! consensus participation, and the client's configuration and persisted
//! state.
use vstd::prelude::*;

use crate::block::{spec_block_hash, Block, BlockView};
use crate::checkpoint::Checkpoint;
use crate::crypto::{ed25519_sign_of, sign};
use crate::{Amount, PrivateKey, PublicKey};

verus! {

/// Synchronization against a full node: the last checkpoint taken and the
/// height reached.
pub struct SyncManager {
    last_checkpoint: Option<Checkpoint>,
    synced_height: u64,
}

/// The errors of synchronization.
#[derive(Clone, Debug)]
pub enum SyncError {
    /// The network failed.
    Network(String),
    /// The checkpoint did not check out.
    InvalidCheckpoint,
    /// Synchronization failed.
    Failed(String),
}

impl SyncManager {
    /// The last checkpoint taken.
    pub closed spec fn spec_last_checkpoint(self) -> Option<Checkpoint> {
        self.last_checkpoint
    }

    /// The height reached.
    pub closed spec fn spec_synced_height(self) -> u64 {
        self.synced_height
    }

    /// Creates a manager that has synchronized nothing.
    pub fn new() -> (r: Self)
        ensures
            r.spec_last_checkpoint() is None,
            r.spec_synced_height() == 0,
    {
        SyncManager { last_checkpoint: None, synced_height: 0 }
    }

    /// Takes a checkpoint as the new synchronization base; fetching the
    /// blocks behind it is not wired up, so none are returned.
    pub fn sync_from_checkpoint(&mut self, checkpoint: Checkpoint, _full_node_url: &str) -> (r:
        Result<Vec<Block>, SyncError>)
        ensures
            final(self).spec_last_checkpoint() == Some(checkpoint),
            final(self).spec_synced_height() == checkpoint.height,
            r matches Ok(blocks) && blocks@.len() == 0,
    {
        self.last_checkpoint = Some(checkpoint);
        self.synced_height = checkpoint.height;
        Ok(Vec::new())
    }

    /// Fetches blocks above a height; not wired up, so none are returned
    /// and the state is unchanged.
    pub fn sync_new_blocks(&mut self, _from_height: u64, _full_node_url: &str) -> (r: Result<
        Vec<Block>,
        SyncError,
    >)
        ensures
            *final(self) == *old(self),
            r matches Ok(blocks) && blocks@.len() == 0,
    {
        Ok(Vec::new())
    }

    /// The last checkpoint taken.
    pub fn last_checkpoint(&self) -> (r: Option<&Checkpoint>)
        ensures
            self.spec_last_checkpoint() is None ==> r is None,
            self.spec_last_checkpoint() matches Some(c) ==> (r matches Some(rc) && *rc == c),
    {
        self.last_checkpoint.as_ref()
    }

    /// The height reached.
    pub fn synced_height(&self) -> (r: u64)
        ensures
            r == self.spec_synced_height(),
    {
        self.synced_height
    }
}

impl Default for SyncManager {
    /// A manager that has synchronized nothing.
    fn default() -> (r: Self)
        ensures
            r.spec_last_checkpoint() is None,
            r.spec_synced_height() == 0,
    {
        SyncManager::new()
    }
}

/// Participation counters of a validator.
#[derive(Clone, Copy, Debug)]
pub struct ValidatorStats {
    /// How often the validator was selected.
    pub times_selected: u64,
    /// How many blocks it signed.
    pub blocks_signed: u64,
    /// How often it was selected but did not sign.
    pub absences: u64,
}

impl Default for ValidatorStats {
    /// All counters start at zero.
    fn default() -> (r: Self)
        ensures
            r.times_selected == 0,
            r.blocks_signed == 0,
            r.absences == 0,
    {
        ValidatorStats { times_selected: 0, blocks_signed: 0, absences: 0 }
    }
}

/// A light client's participation in consensus.
pub struct ValidatorParticipant {
    /// The registered key, once registered.
    pub public_key: Option<PublicKey>,
    /// The participation counters.
    pub stats: ValidatorStats,
}

impl ValidatorParticipant {
    /// Creates an unregistered participant with zeroed counters.
    pub fn new() -> (r: Self)
        ensures
            r.public_key is None,
            r.stats.times_selected == 0,
            r.stats.blocks_signed == 0,
            r.stats.absences == 0,
    {
        ValidatorParticipant {
            public_key: None,
            stats: ValidatorStats { times_selected: 0, blocks_signed: 0, absences: 0 },
        }
    }

    /// Registers the participant under a key.
    pub fn register(&mut self, public_key: PublicKey)
        ensures
            final(self).public_key == Some(public_key),
            final(self).stats == old(self).stats,
    {
        self.public_key = Some(public_key);
    }

    /// Signs a block when registered: the block hash is computed, signed
    /// under the given key, and the signature appended unless that key
    /// already signed; the signing counter grows. Unregistered participants
    /// sign nothing.
    pub fn sign_block_if_selected(&mut self, block: &mut Block, private_key: &PrivateKey) -> (r:
        Result<bool, String>)
        requires
            old(self).stats.blocks_signed < u64::MAX,
        ensures
            old(self).public_key is None ==> (r matches Ok(b) && b == false
                && *final(self) == *old(self) && *final(block) == *old(block)),
            old(self).public_key matches Some(pk) ==> (r matches Ok(b) && b == true
                && final(self).stats.blocks_signed == old(self).stats.blocks_signed + 1 && ({
                let h = spec_block_hash(old(block)@.header);
                let sig = ed25519_sign_of(h, private_key@);
                let withhash = BlockView { hash: Some(h), ..old(block)@ };
                if exists|i: int|
                    0 <= i < withhash.signatures.len() && (#[trigger] withhash.signatures[i]).validator
                        == pk@ {
                    final(block)@ == withhash
                } else {
                    final(block)@ == BlockView {
                        signatures: withhash.signatures.push(
                            crate::block::SigView { validator: pk@, signature: sig },
                        ),
                        ..withhash
                    }
                }
            })),
    {
        let public_key = match &self.public_key {
            Option::None => {
                return Ok(false);
            },
            Option::Some(pk) => *pk,
        };
        let hash = block.calculate_hash();
        let signature = sign(hash.as_slice(), private_key);
        block.add_validator_signature(public_key, signature);
        self.stats.blocks_signed = self.stats.blocks_signed + 1;
        Ok(true)
    }

    /// Records one round: selected grows when selected, absences when
    /// selected but unsigned.
    pub fn update_stats(&mut self, selected: bool, signed: bool)
        requires
            old(self).stats.times_selected < u64::MAX,
            old(self).stats.absences < u64::MAX,
        ensures
            final(self).public_key == old(self).public_key,
            final(self).stats.times_selected == old(self).stats.times_selected + (if selected {
                1int
            } else {
                0int
            }),
            final(self).stats.absences == old(self).stats.absences + (if selected && !signed {
                1int
            } else {
                0int
            }),
            final(self).stats.blocks_signed == old(self).stats.blocks_signed,
    {
        if selected {
            self.stats.times_selected = self.stats.times_selected + 1;
            if !signed {
                self.stats.absences = self.stats.absences + 1;
            }
        }
    }
}

impl Default for ValidatorParticipant {
    /// An unregistered participant.
    fn default() -> (r: Self)
        ensures
            r.public_key is None,
    {
        ValidatorParticipant::new()
    }
}

/// Configuration of a light client.
#[derive(Clone, Debug)]
pub struct LightClientConfig {
    /// Endpoint of the full node to synchronize against.
    pub full_node_url: String,
    /// Seconds between synchronizations.
    pub sync_interval: u64,
    /// Whether the client takes part in consensus.
    pub enable_consensus: bool,
}

impl Default for LightClientConfig {
    /// The default configuration: a local full node, a sync every ten
    /// seconds, consensus on.
    fn default() -> (r: Self)
        ensures
            r.sync_interval == 10,
            r.enable_consensus == true,
    {
        LightClientConfig {
            full_node_url: "http://localhost:8080".to_owned(),
            sync_interval: 10,
            enable_consensus: true,
        }
    }
}

/// What a light client persists between runs.
#[derive(Debug)]
pub struct LightClientState {
    /// The wallet's address.
    pub wallet_address: PublicKey,
    /// The balance last seen.
    pub balance: Amount,
    /// The last checkpoint synchronized.
    pub last_checkpoint: Option<Checkpoint>,
    /// The height reached.
    pub synced_height: u64,
    /// The hash of the last block seen.
    pub last_block_hash: Option<crate::Hash>,
}

impl LightClientState {
    /// The starting state of a wallet that has seen nothing.
    pub fn new(wallet_address: PublicKey) -> (r: Self)
        ensures
            r.wallet_address == wallet_address,
            r.balance == 0,
            r.last_checkpoint is None,
            r.synced_height == 0,
            r.last_block_hash is None,
    {
        LightClientState {
            wallet_address,
            balance: 0,
            last_checkpoint: None,
            synced_height: 0,
            last_block_hash: None,
        }
    }
}

} // verus!
