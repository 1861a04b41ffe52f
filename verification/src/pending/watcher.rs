//! Pending data held against the latest stored block.
use std::sync::Arc;
use vstd::prelude::*;

use crate::pending::blocks::{
    blank_header, BlockHeader, PreConfirmedBlock, PreLatestData, StateUpdate, MAX_BLOCK_NUMBER,
};
use crate::pending::data::{is_empty_pending, PendingBlocks, PendingData};
use crate::shared::share;

verus! {

/// The versions of the JSON-RPC interface.
#[derive(Clone, Copy, Debug, PartialEq, Eq, Structural)]
pub enum RpcVersion {
    V06,
    V07,
    V08,
    V09,
    V10,
    PathfinderV01,
}

/// Whether a version knows the pre-confirmed block: those below 0.9 expect that the contents of the
/// pending block are accepted, which those of the pre-confirmed block are not.
pub open spec fn knows_pre_confirmed(v: RpcVersion) -> bool {
    v != RpcVersion::V06 && v != RpcVersion::V07 && v != RpcVersion::V08
}

pub fn uses_pre_confirmed(v: RpcVersion) -> (r: bool)
    ensures
        r == knows_pre_confirmed(v),
{
    match v {
        RpcVersion::V06 | RpcVersion::V07 | RpcVersion::V08 => false,
        _ => true,
    }
}

/// Validates pre-confirmed data against the latest block in storage and the JSON-RPC version before
/// returning it.
#[derive(Debug)]
pub struct PendingWatcher {
    pub cache: Arc<PendingData>,
}

/// The latest stored header; a blank one where nothing is stored.
pub open spec fn header_or_blank(latest: Option<BlockHeader>) -> BlockHeader {
    match latest {
        Some(h) => h,
        None => blank_header(),
    }
}

/// Where the pre-latest block is the latest stored block or its child, the pre-confirmed block is
/// its child in turn.
pub open spec fn is_chained(d: PendingData, latest: BlockHeader) -> bool {
    d.blocks.pre_latest matches Some(data) && (data.block.number == latest.number
        || data.block.number == latest.number + 1) ==> d.blocks.pre_latest->0.block.number + 1
        == d.blocks.pre_confirmed.number
}

/// The pending data that is valid on top of the latest stored block. That is
/// - both blocks, where the pre-latest block is the child of the latest stored one,
/// - the pre-confirmed block, where the pre-latest block is the latest stored one and only lingers,
/// - the pre-confirmed block, where there is no pre-latest block and it is the child of the latest
///   stored one,
/// - and an empty block otherwise.
///
/// The lower of the blocks gets the state commitment of the latest stored block as its parent's.
pub open spec fn is_validated(d: PendingData, cached: PendingData, latest: BlockHeader) -> bool {
    let number = cached.blocks.pre_confirmed.number;
    let rebased = StateUpdate {
        parent_state_commitment: latest.state_commitment,
        ..*cached.state_update
    };
    match cached.blocks.pre_latest {
        Some(data) => if data.block.number == latest.number + 1 {
            &&& d.number == number
            &&& d.blocks.pre_confirmed == cached.blocks.pre_confirmed
            &&& d.blocks.pre_latest matches Some(p) && {
                &&& p.block == data.block
                &&& *p.state_update == StateUpdate {
                    parent_state_commitment: latest.state_commitment,
                    ..*data.state_update
                }
            }
            &&& d.state_update == cached.state_update
            &&& d.aggregated_state_update == cached.aggregated_state_update
        } else if data.block.number == latest.number {
            &&& d.number == number
            &&& d.blocks.pre_confirmed == cached.blocks.pre_confirmed
            &&& d.blocks.pre_latest is None
            &&& *d.state_update == rebased
            &&& *d.aggregated_state_update == rebased
        } else {
            is_empty_pending(d, latest)
        },
        None => if number == latest.number + 1 {
            &&& d.number == number
            &&& d.blocks == cached.blocks
            &&& *d.state_update == rebased
            &&& *d.aggregated_state_update == rebased
        } else {
            is_empty_pending(d, latest)
        },
    }
}

/// Data that continues the latest stored block: its lowest block is the child of that block, and its
/// lowest state update starts from that block's state.
pub open spec fn continues(d: PendingData, latest: BlockHeader) -> bool {
    &&& d.blocks.pre_confirmed.number == d.number
    &&& match d.blocks.pre_latest {
        Some(data) => data.block.number == latest.number + 1 && d.number == latest.number + 2
            && data.state_update.parent_state_commitment == latest.state_commitment,
        None => d.number == latest.number + 1 && d.state_update.parent_state_commitment
            == latest.state_commitment,
    }
}

impl PendingWatcher {
    pub fn new(cache: Arc<PendingData>) -> (r: Self)
        ensures
            r.cache == cache,
    {
        PendingWatcher { cache }
    }

    /// The data as it is.
    pub fn subscribe(&self) -> (r: Arc<PendingData>)
        ensures
            r == self.cache,
    {
        share(&self.cache)
    }

    /// Returns pending data which has been validated against the latest block available in storage and
    /// the JSON-RPC version.
    ///
    /// Returns an empty block with gas price and timestamp taken from the latest block if no valid
    /// pending data is available. The block number is also incremented.
    pub fn get(&self, latest: Option<BlockHeader>, rpc_version: RpcVersion) -> (r: PendingData)
        requires
            header_or_blank(latest).number < MAX_BLOCK_NUMBER,
            knows_pre_confirmed(rpc_version) ==> is_chained(*self.cache, header_or_blank(latest)),
        ensures
            if knows_pre_confirmed(rpc_version) {
                is_validated(r, *self.cache, header_or_blank(latest))
            } else {
                is_empty_pending(r, header_or_blank(latest))
            },
            continues(r, header_or_blank(latest)),
    {
        let latest: BlockHeader = match latest {
            Some(h) => h,
            None => BlockHeader::default(),
        };
        if !uses_pre_confirmed(rpc_version) {
            return PendingData::empty(&latest);
        }
        let cached: &PendingData = &self.cache;
        let pre_confirmed: &Arc<PreConfirmedBlock> = &cached.blocks.pre_confirmed;
        match &cached.blocks.pre_latest {
            Some(data) => {
                if data.block.number == latest.number + 1 {
                    let update = data.state_update.copy().with_parent_state_commitment(
                        latest.state_commitment,
                    );
                    let pre_latest = PreLatestData {
                        block: share(&data.block),
                        state_update: Arc::new(update),
                    };
                    return PendingData {
                        blocks: Arc::new(
                            PendingBlocks {
                                pre_confirmed: share(pre_confirmed),
                                pre_latest: Some(pre_latest),
                            },
                        ),
                        state_update: share(&cached.state_update),
                        aggregated_state_update: share(&cached.aggregated_state_update),
                        number: pre_confirmed.number,
                    };
                }
                if data.block.number == latest.number {
                    let update: Arc<StateUpdate> = Arc::new(
                        cached.state_update.copy().with_parent_state_commitment(
                            latest.state_commitment,
                        ),
                    );
                    return PendingData {
                        blocks: Arc::new(
                            PendingBlocks { pre_confirmed: share(pre_confirmed), pre_latest: None },
                        ),
                        state_update: share(&update),
                        aggregated_state_update: update,
                        number: pre_confirmed.number,
                    };
                }
            },
            None => {
                if pre_confirmed.number == latest.number + 1 {
                    let update: Arc<StateUpdate> = Arc::new(
                        cached.state_update.copy().with_parent_state_commitment(
                            latest.state_commitment,
                        ),
                    );
                    return PendingData {
                        blocks: share(&cached.blocks),
                        state_update: share(&update),
                        aggregated_state_update: update,
                        number: pre_confirmed.number,
                    };
                }
            },
        }
        PendingData::empty(&latest)
    }
}

/// Whatever is cached, the data handed out continues the latest stored block. Left out is a
/// pre-latest block next to the latest stored one that the pre-confirmed block is not the child of.
pub proof fn law_validated_data_continues_storage(
    d: PendingData,
    cached: PendingData,
    latest: BlockHeader,
)
    requires
        latest.number < MAX_BLOCK_NUMBER,
        is_chained(cached, latest),
        is_validated(d, cached, latest),
    ensures
        continues(d, latest),
{
}

} // verus!
