//! The lightweight block summaries the presentation layer shows, and the
//! state object that carries them together with the configuration. The
//! dashboard itself (HTTP) lives outside the verified library.

use vstd::prelude::*;
use crate::block::Block;
use crate::config::NodeConfig;

verus! {

/// How many recent blocks the dashboard state retains.
pub const LATEST_BLOCKS_LIMIT: usize = 32;

/// A summary of one block, as shown on the dashboard.
pub struct BlockView {
    pub index: u64,
    pub hash: String,
    pub tx_count: usize,
    pub timestamp: u64,
}

impl BlockView {
    /// Summarizes a block, with the transaction count its payload was
    /// found to hold. Timestamps wider than 64 bits saturate.
    pub fn of_block(b: &Block, tx_count: usize) -> (v: BlockView)
        ensures
            v.index == b@.index,
            v.hash@ == b@.hash,
            v.tx_count == tx_count,
            b@.timestamp <= u64::MAX ==> v.timestamp == b@.timestamp,
            b@.timestamp > u64::MAX ==> v.timestamp == u64::MAX,
    {
        let timestamp: u64 = if b.timestamp <= u64::MAX as u128 {
            b.timestamp as u64
        } else {
            u64::MAX
        };
        BlockView { index: b.index, hash: b.hash.clone(), tx_count, timestamp }
    }
}

/// The state shared with the presentation layer: the configuration and
/// the most recent block summaries, newest last and bounded in number.
pub struct AppState {
    pub config: NodeConfig,
    pub latest_blocks: Vec<BlockView>,
}

impl AppState {
    /// A fresh state with no blocks yet.
    pub fn new(config: NodeConfig) -> (s: AppState)
        ensures
            s.latest_blocks@.len() == 0,
            s.config == config,
    {
        AppState { config, latest_blocks: Vec::new() }
    }

    /// Records one more block summary at the end, dropping the oldest
    /// retained one exactly when the window is full.
    pub fn record_block(&mut self, v: BlockView)
        requires
            old(self).latest_blocks@.len() <= LATEST_BLOCKS_LIMIT,
        ensures
            final(self).latest_blocks@ == (if old(self).latest_blocks@.len()
                < LATEST_BLOCKS_LIMIT {
                old(self).latest_blocks@.push(v)
            } else {
                old(self).latest_blocks@.skip(1).push(v)
            }),
            final(self).latest_blocks@.len() <= LATEST_BLOCKS_LIMIT,
            final(self).config == old(self).config,
    {
        if self.latest_blocks.len() >= LATEST_BLOCKS_LIMIT {
            self.latest_blocks.remove(0);
            proof {
                assert(self.latest_blocks@ =~= old(self).latest_blocks@.skip(1));
            }
        }
        let ghost trimmed = self.latest_blocks@;
        self.latest_blocks.push(v);
        proof {
            assert(self.latest_blocks@ =~= trimmed.push(v));
        }
    }
}

} // verus!
