//! Checkpoints: periodic summaries of a block and the ledger state at its
//! height, used by light clients to skip ahead.
use vstd::prelude::*;

use crate::block::{spec_block_hash, Block};
use crate::crypto::hash_data;
use crate::Timestamp;

verus! {

/// A checkpoint: a block's height and hash, the state hash at that height,
/// the block's timestamp, and the interval it was produced under.
#[derive(Clone, Copy, Debug)]
pub struct Checkpoint {
    /// Height of the summarized block.
    pub height: u64,
    /// Hash of the summarized block.
    pub block_hash: crate::Hash,
    /// Hash of the ledger state at that height.
    pub state_hash: crate::Hash,
    /// Timestamp of the summarized block.
    pub timestamp: Timestamp,
    /// Blocks between checkpoints.
    pub checkpoint_interval: u64,
}

impl Checkpoint {
    /// Creates the checkpoint summarizing a block: its cached hash is used
    /// when present, and recomputed from the header otherwise.
    pub fn from_block(block: &Block, state_hash: crate::Hash, interval: u64) -> (r: Self)
        ensures
            r.height == block@.header.height,
            block@.hash matches Some(h) ==> r.block_hash@ == h,
            block@.hash is None ==> r.block_hash@ == spec_block_hash(block@.header),
            r.state_hash@ == state_hash@,
            r.timestamp == block@.header.timestamp,
            r.checkpoint_interval == interval,
    {
        let block_hash = match &block.hash {
            Option::Some(h) => *h,
            Option::None => {
                let data = block.header.serialize_for_hash();
                hash_data(data.as_slice())
            },
        };
        Checkpoint {
            height: block.header.height,
            block_hash,
            state_hash,
            timestamp: block.header.timestamp,
            checkpoint_interval: interval,
        }
    }

    /// Whether the checkpoint makes sense: a positive height and a positive
    /// interval.
    pub fn is_valid(&self) -> (r: bool)
        ensures
            r == (self.height > 0 && self.checkpoint_interval > 0),
    {
        self.height > 0 && self.checkpoint_interval > 0
    }

    /// The height at which the next checkpoint is expected.
    pub fn next_checkpoint_height(&self) -> (r: u64)
        requires
            self.height + self.checkpoint_interval <= u64::MAX,
        ensures
            r == self.height + self.checkpoint_interval,
    {
        self.height + self.checkpoint_interval
    }
}

/// Configuration of checkpoint production.
#[derive(Clone, Copy, Debug)]
pub struct CheckpointConfig {
    /// Blocks between checkpoints.
    pub interval: u64,
    /// Height of the first checkpoint.
    pub first_checkpoint: u64,
}

impl CheckpointConfig {
    /// A configuration makes sense when the interval is positive.
    pub open spec fn wf(self) -> bool {
        self.interval > 0
    }
}

impl Default for CheckpointConfig {
    /// The default configuration: a checkpoint every hundred blocks,
    /// starting at height one hundred.
    fn default() -> (r: Self)
        ensures
            r.interval == 100,
            r.first_checkpoint == 100,
            r.wf(),
    {
        CheckpointConfig { interval: 100, first_checkpoint: 100 }
    }
}

/// Whether a height is a checkpoint height under a configuration: at or past
/// the first checkpoint and a multiple of the interval.
pub open spec fn spec_is_checkpoint(config: CheckpointConfig, height: u64) -> bool {
    height >= config.first_checkpoint && height as int % config.interval as int == 0
}

impl CheckpointConfig {
    /// Whether a block at this height must carry a checkpoint.
    pub fn is_checkpoint(&self, height: u64) -> (r: bool)
        requires
            self.wf(),
        ensures
            r == spec_is_checkpoint(*self, height),
    {
        height >= self.first_checkpoint && height % self.interval == 0
    }
}

} // verus!
