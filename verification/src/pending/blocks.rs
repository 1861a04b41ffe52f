//! Blocks that are still being built, and the headers of those that are done.
use std::sync::Arc;
use vstd::prelude::*;

use crate::felt::Felt;
use crate::state_update::{empty_change, StateUpdateData};

verus! {

/// The largest block number.
pub const MAX_BLOCK_NUMBER: u64 = 0x7fff_ffff_ffff_ffff;

/// The price of a unit of gas in both currencies.
#[derive(Clone, Copy, Debug, PartialEq, Eq, Structural)]
pub struct GasPrices {
    pub price_in_wei: u128,
    pub price_in_fri: u128,
}

/// How far a block has come.
#[derive(Clone, Copy, Debug, PartialEq, Eq, Structural)]
pub enum Status {
    NotReceived,
    Pending,
    PreConfirmed,
}

/// The version of the protocol that a block follows.
#[derive(Clone, Copy, Debug, PartialEq, Eq, Structural)]
pub struct StarknetVersion {
    pub major: u8,
    pub minor: u8,
    pub patch: u8,
    pub revision: u8,
}

/// Where the data of a block is made available.
#[derive(Clone, Copy, Debug, PartialEq, Eq, Structural)]
pub enum L1DataAvailabilityMode {
    Calldata,
    Blob,
}

/// A transaction: its hash, and its encoded contents.
#[derive(Debug, PartialEq, Eq)]
pub struct Transaction {
    pub hash: Felt,
    pub content: Vec<u8>,
}

/// What came of a transaction: the encoded contents of its receipt.
#[derive(Debug, PartialEq, Eq)]
pub struct Receipt {
    pub transaction_hash: Felt,
    pub transaction_index: u64,
    pub content: Vec<u8>,
}

#[derive(Debug, PartialEq, Eq)]
pub struct Event {
    pub from_address: Felt,
    pub keys: Vec<Felt>,
    pub data: Vec<Felt>,
}

/// A receipt with the events of its transaction.
#[derive(Debug, PartialEq, Eq)]
pub struct TxnReceiptAndEvents {
    pub receipt: Receipt,
    pub events: Vec<Event>,
}

/// The header of a block.
#[derive(Clone, Copy, Debug, PartialEq, Eq, Structural)]
pub struct BlockHeader {
    pub hash: Felt,
    pub parent_hash: Felt,
    pub number: u64,
    pub timestamp: u64,
    pub eth_l1_gas_price: u128,
    pub strk_l1_gas_price: u128,
    pub eth_l1_data_gas_price: u128,
    pub strk_l1_data_gas_price: u128,
    pub eth_l2_gas_price: u128,
    pub strk_l2_gas_price: u128,
    pub sequencer_address: Felt,
    pub starknet_version: StarknetVersion,
    pub event_commitment: Felt,
    pub state_commitment: Felt,
    pub transaction_commitment: Felt,
    pub transaction_count: u64,
    pub event_count: u64,
    pub l1_da_mode: L1DataAvailabilityMode,
    pub receipt_commitment: Felt,
    pub state_diff_commitment: Felt,
    pub state_diff_length: u64,
}

impl StarknetVersion {
    pub fn new(major: u8, minor: u8, patch: u8, revision: u8) -> (r: Self)
        ensures
            r == (StarknetVersion { major, minor, patch, revision }),
    {
        StarknetVersion { major, minor, patch, revision }
    }
}

/// The header of which nothing is known.
pub open spec fn blank_header() -> BlockHeader {
    BlockHeader {
        hash: Felt::zero(),
        parent_hash: Felt::zero(),
        number: 0,
        timestamp: 0,
        eth_l1_gas_price: 0,
        strk_l1_gas_price: 0,
        eth_l1_data_gas_price: 0,
        strk_l1_data_gas_price: 0,
        eth_l2_gas_price: 0,
        strk_l2_gas_price: 0,
        sequencer_address: Felt::zero(),
        starknet_version: StarknetVersion { major: 0, minor: 0, patch: 0, revision: 0 },
        event_commitment: Felt::zero(),
        state_commitment: Felt::zero(),
        transaction_commitment: Felt::zero(),
        transaction_count: 0,
        event_count: 0,
        l1_da_mode: L1DataAvailabilityMode::Calldata,
        receipt_commitment: Felt::zero(),
        state_diff_commitment: Felt::zero(),
        state_diff_length: 0,
    }
}

impl Default for BlockHeader {
    fn default() -> (r: Self)
        ensures
            r == blank_header(),
    {
        let zero: Felt = Felt::new_zero();
        BlockHeader {
            hash: zero,
            parent_hash: zero,
            number: 0,
            timestamp: 0,
            eth_l1_gas_price: 0,
            strk_l1_gas_price: 0,
            eth_l1_data_gas_price: 0,
            strk_l1_data_gas_price: 0,
            eth_l2_gas_price: 0,
            strk_l2_gas_price: 0,
            sequencer_address: zero,
            starknet_version: StarknetVersion::new(0, 0, 0, 0),
            event_commitment: zero,
            state_commitment: zero,
            transaction_commitment: zero,
            transaction_count: 0,
            event_count: 0,
            l1_da_mode: L1DataAvailabilityMode::Calldata,
            receipt_commitment: zero,
            state_diff_commitment: zero,
            state_diff_length: 0,
        }
    }
}

/// The state changes of a block, with the roots of the state around them.
#[derive(Debug)]
pub struct StateUpdate {
    pub block_hash: Felt,
    pub parent_state_commitment: Felt,
    pub state_commitment: Felt,
    pub data: Arc<StateUpdateData>,
}

impl StateUpdate {
    /// Changes with nothing known around them.
    pub fn from_data(data: StateUpdateData) -> (r: Self)
        ensures
            r.block_hash == Felt::zero(),
            r.parent_state_commitment == Felt::zero(),
            r.state_commitment == Felt::zero(),
            *r.data == data,
    {
        let zero: Felt = Felt::new_zero();
        StateUpdate {
            block_hash: zero,
            parent_state_commitment: zero,
            state_commitment: zero,
            data: Arc::new(data),
        }
    }

    pub fn with_parent_state_commitment(self, parent_state_commitment: Felt) -> (r: Self)
        ensures
            r == (StateUpdate { parent_state_commitment, ..self }),
    {
        StateUpdate { parent_state_commitment, ..self }
    }

    /// The same update, sharing the changes.
    pub fn copy(&self) -> (r: Self)
        ensures
            r == *self,
    {
        StateUpdate {
            block_hash: self.block_hash,
            parent_state_commitment: self.parent_state_commitment,
            state_commitment: self.state_commitment,
            data: crate::shared::share(&self.data),
        }
    }

    /// This update, and then another: it starts where this one starts, and ends where the other
    /// ends.
    pub fn apply(&self, other: &StateUpdate) -> (r: Self)
        ensures
            r.block_hash == other.block_hash,
            r.parent_state_commitment == self.parent_state_commitment,
            r.state_commitment == other.state_commitment,
            r.data@ == self.data@.then_change(other.data@),
    {
        let mut data: StateUpdateData = self.data.copy();
        data.extend(&other.data);
        StateUpdate {
            block_hash: other.block_hash,
            parent_state_commitment: self.parent_state_commitment,
            state_commitment: other.state_commitment,
            data: Arc::new(data),
        }
    }
}

impl Default for StateUpdate {
    fn default() -> (r: Self)
        ensures
            r.block_hash == Felt::zero(),
            r.parent_state_commitment == Felt::zero(),
            r.state_commitment == Felt::zero(),
            r.data@ == empty_change(),
    {
        StateUpdate::from_data(StateUpdateData::new())
    }
}

/// A block as the gateway hands it out while it is being built. A transaction that was not executed
/// yet has neither a receipt nor state changes.
#[derive(Debug)]
pub struct GatewayBlock {
    pub l1_gas_price: GasPrices,
    pub l1_data_gas_price: GasPrices,
    pub l2_gas_price: GasPrices,
    pub sequencer_address: Felt,
    pub status: Status,
    pub timestamp: u64,
    pub starknet_version: StarknetVersion,
    pub l1_da_mode: L1DataAvailabilityMode,
    pub transactions: Vec<Arc<Transaction>>,
    pub transaction_receipts: Vec<Option<Arc<TxnReceiptAndEvents>>>,
    pub transaction_state_diffs: Vec<Option<Arc<StateUpdateData>>>,
}

/// A block as the gateway hands it out once its contents are settled.
#[derive(Debug)]
pub struct GatewayPreLatestBlock {
    pub parent_hash: Felt,
    pub l1_gas_price: GasPrices,
    pub l1_data_gas_price: GasPrices,
    pub l2_gas_price: GasPrices,
    pub sequencer_address: Felt,
    pub timestamp: u64,
    pub starknet_version: StarknetVersion,
    pub l1_da_mode: L1DataAvailabilityMode,
    pub transactions: Vec<Arc<Transaction>>,
    pub transaction_receipts: Vec<Arc<TxnReceiptAndEvents>>,
}

/// A block whose transactions are executed, and which may still grow.
#[derive(Debug)]
pub struct PreConfirmedBlock {
    pub number: u64,
    pub l1_gas_price: GasPrices,
    pub l1_data_gas_price: GasPrices,
    pub l2_gas_price: GasPrices,
    pub sequencer_address: Felt,
    pub status: Status,
    pub timestamp: u64,
    pub starknet_version: StarknetVersion,
    pub l1_da_mode: L1DataAvailabilityMode,
    pub transactions: Vec<Arc<Transaction>>,
    pub transaction_receipts: Vec<Arc<TxnReceiptAndEvents>>,
}

/// A block that is settled, and only waits for its hash.
#[derive(Debug)]
pub struct PreLatestBlock {
    pub number: u64,
    pub parent_hash: Felt,
    pub l1_gas_price: GasPrices,
    pub l1_data_gas_price: GasPrices,
    pub l2_gas_price: GasPrices,
    pub sequencer_address: Felt,
    pub status: Status,
    pub timestamp: u64,
    pub starknet_version: StarknetVersion,
    pub l1_da_mode: L1DataAvailabilityMode,
    pub transactions: Vec<Arc<Transaction>>,
    pub transaction_receipts: Vec<Arc<TxnReceiptAndEvents>>,
}

/// A settled block with its state changes.
#[derive(Debug)]
pub struct PreLatestData {
    pub block: Arc<PreLatestBlock>,
    pub state_update: Arc<StateUpdate>,
}

/// The header of a block that is being built: what is not known yet of it is left blank.
pub open spec fn pre_confirmed_header_of(b: PreConfirmedBlock, number: u64) -> BlockHeader {
    BlockHeader {
        number,
        timestamp: b.timestamp,
        eth_l1_gas_price: b.l1_gas_price.price_in_wei,
        strk_l1_gas_price: b.l1_gas_price.price_in_fri,
        eth_l1_data_gas_price: b.l1_data_gas_price.price_in_wei,
        strk_l1_data_gas_price: b.l1_data_gas_price.price_in_fri,
        eth_l2_gas_price: b.l2_gas_price.price_in_wei,
        strk_l2_gas_price: b.l2_gas_price.price_in_fri,
        sequencer_address: b.sequencer_address,
        starknet_version: b.starknet_version,
        l1_da_mode: b.l1_da_mode,
        ..blank_header()
    }
}

/// The header of a settled block.
pub open spec fn pre_latest_header_of(b: PreLatestBlock) -> BlockHeader {
    BlockHeader {
        parent_hash: b.parent_hash,
        number: b.number,
        timestamp: b.timestamp,
        eth_l1_gas_price: b.l1_gas_price.price_in_wei,
        strk_l1_gas_price: b.l1_gas_price.price_in_fri,
        eth_l1_data_gas_price: b.l1_data_gas_price.price_in_wei,
        strk_l1_data_gas_price: b.l1_data_gas_price.price_in_fri,
        eth_l2_gas_price: b.l2_gas_price.price_in_wei,
        strk_l2_gas_price: b.l2_gas_price.price_in_fri,
        sequencer_address: b.sequencer_address,
        starknet_version: b.starknet_version,
        l1_da_mode: b.l1_da_mode,
        ..blank_header()
    }
}

impl PreConfirmedBlock {
    pub fn header(&self, number: u64) -> (r: BlockHeader)
        ensures
            r == pre_confirmed_header_of(*self, number),
    {
        let mut h: BlockHeader = BlockHeader::default();
        h.number = number;
        h.timestamp = self.timestamp;
        h.eth_l1_gas_price = self.l1_gas_price.price_in_wei;
        h.strk_l1_gas_price = self.l1_gas_price.price_in_fri;
        h.eth_l1_data_gas_price = self.l1_data_gas_price.price_in_wei;
        h.strk_l1_data_gas_price = self.l1_data_gas_price.price_in_fri;
        h.eth_l2_gas_price = self.l2_gas_price.price_in_wei;
        h.strk_l2_gas_price = self.l2_gas_price.price_in_fri;
        h.sequencer_address = self.sequencer_address;
        h.starknet_version = self.starknet_version;
        h.l1_da_mode = self.l1_da_mode;
        h
    }

    /// A block without transactions on top of another, with its prices, sequencer and time.
    pub fn empty(latest: &BlockHeader) -> (r: Self)
        requires
            latest.number < MAX_BLOCK_NUMBER,
        ensures
            is_empty_block_on(r, *latest),
    {
        PreConfirmedBlock {
            number: latest.number + 1,
            l1_gas_price: GasPrices {
                price_in_wei: latest.eth_l1_gas_price,
                price_in_fri: latest.strk_l1_gas_price,
            },
            l1_data_gas_price: GasPrices {
                price_in_wei: latest.eth_l1_data_gas_price,
                price_in_fri: latest.strk_l1_data_gas_price,
            },
            l2_gas_price: GasPrices {
                price_in_wei: latest.eth_l2_gas_price,
                price_in_fri: latest.strk_l2_gas_price,
            },
            sequencer_address: latest.sequencer_address,
            status: Status::PreConfirmed,
            timestamp: latest.timestamp,
            starknet_version: latest.starknet_version,
            l1_da_mode: latest.l1_da_mode,
            transactions: Vec::new(),
            transaction_receipts: Vec::new(),
        }
    }
}

/// A block without transactions on top of another, with its prices, sequencer and time.
pub open spec fn is_empty_block_on(b: PreConfirmedBlock, latest: BlockHeader) -> bool {
    &&& b.number == latest.number + 1
    &&& b.l1_gas_price == GasPrices {
        price_in_wei: latest.eth_l1_gas_price,
        price_in_fri: latest.strk_l1_gas_price,
    }
    &&& b.l1_data_gas_price == GasPrices {
        price_in_wei: latest.eth_l1_data_gas_price,
        price_in_fri: latest.strk_l1_data_gas_price,
    }
    &&& b.l2_gas_price == GasPrices {
        price_in_wei: latest.eth_l2_gas_price,
        price_in_fri: latest.strk_l2_gas_price,
    }
    &&& b.sequencer_address == latest.sequencer_address
    &&& b.status == Status::PreConfirmed
    &&& b.timestamp == latest.timestamp
    &&& b.starknet_version == latest.starknet_version
    &&& b.l1_da_mode == latest.l1_da_mode
    &&& b.transactions@.len() == 0
    &&& b.transaction_receipts@.len() == 0
}

impl PreLatestBlock {
    pub fn header(&self) -> (r: BlockHeader)
        ensures
            r == pre_latest_header_of(*self),
    {
        let mut h: BlockHeader = BlockHeader::default();
        h.parent_hash = self.parent_hash;
        h.number = self.number;
        h.timestamp = self.timestamp;
        h.eth_l1_gas_price = self.l1_gas_price.price_in_wei;
        h.strk_l1_gas_price = self.l1_gas_price.price_in_fri;
        h.eth_l1_data_gas_price = self.l1_data_gas_price.price_in_wei;
        h.strk_l1_data_gas_price = self.l1_data_gas_price.price_in_fri;
        h.eth_l2_gas_price = self.l2_gas_price.price_in_wei;
        h.strk_l2_gas_price = self.l2_gas_price.price_in_fri;
        h.sequencer_address = self.sequencer_address;
        h.starknet_version = self.starknet_version;
        h.l1_da_mode = self.l1_da_mode;
        h
    }
}

/// The block that a storage without data starts from: every field is blank.
pub open spec fn is_blank_block(b: PreConfirmedBlock) -> bool {
    &&& b.number == 0
    &&& b.l1_gas_price == GasPrices { price_in_wei: 0, price_in_fri: 0 }
    &&& b.l1_data_gas_price == GasPrices { price_in_wei: 0, price_in_fri: 0 }
    &&& b.l2_gas_price == GasPrices { price_in_wei: 0, price_in_fri: 0 }
    &&& b.sequencer_address == Felt::zero()
    &&& b.status == Status::NotReceived
    &&& b.timestamp == 0
    &&& b.starknet_version == StarknetVersion { major: 0, minor: 0, patch: 0, revision: 0 }
    &&& b.l1_da_mode == L1DataAvailabilityMode::Calldata
    &&& b.transactions@.len() == 0
    &&& b.transaction_receipts@.len() == 0
}

impl Default for PreConfirmedBlock {
    fn default() -> (r: Self)
        ensures
            is_blank_block(r),
    {
        let free: GasPrices = GasPrices { price_in_wei: 0, price_in_fri: 0 };
        PreConfirmedBlock {
            number: 0,
            l1_gas_price: free,
            l1_data_gas_price: free,
            l2_gas_price: free,
            sequencer_address: Felt::new_zero(),
            status: Status::NotReceived,
            timestamp: 0,
            starknet_version: StarknetVersion::new(0, 0, 0, 0),
            l1_da_mode: L1DataAvailabilityMode::Calldata,
            transactions: Vec::new(),
            transaction_receipts: Vec::new(),
        }
    }
}

} // verus!
