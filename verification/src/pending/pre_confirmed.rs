//! The chain data observed in flight, with the transactions that were not executed yet.
use std::sync::Arc;
use vstd::prelude::*;

use crate::felt::Felt;
use crate::pending::blocks::{
    is_blank_block, is_empty_block_on, pre_confirmed_header_of, pre_latest_header_of, BlockHeader,
    GatewayBlock, GatewayPreLatestBlock, PreConfirmedBlock, PreLatestBlock, PreLatestData,
    StateUpdate, Status, Transaction, TxnReceiptAndEvents, MAX_BLOCK_NUMBER,
};
use crate::pending::compose::{
    collect_receipt_hashes, compose, composed, find_transaction_in, first_with_hash, partition,
    receipt_hashes, select,
};
use crate::shared::{present, share, share_present};
use crate::state_apply::{class_in, nonce_in, storage_in, FoundStorageValue};
use crate::state_update::{empty_change, StateChange};

verus! {

/// Chain data observed in flight: the pre-confirmed block, an optional pre-latest parent, and any
/// candidate transactions.
#[derive(Debug)]
pub struct PendingBlocks {
    pub pre_confirmed: PreConfirmedBlock,
    pub pre_latest: Option<PreLatestData>,
    pub candidate_transactions: Vec<Arc<Transaction>>,
}

impl PendingBlocks {
    pub fn transactions(&self) -> (r: &Vec<Arc<Transaction>>)
        ensures
            *r == self.pre_confirmed.transactions,
    {
        &self.pre_confirmed.transactions
    }

    pub fn pre_latest_transactions(&self) -> (r: Option<&Vec<Arc<Transaction>>>)
        ensures
            r == match self.pre_latest {
                Some(data) => Some(&data.block.transactions),
                None => None,
            },
    {
        match &self.pre_latest {
            Some(data) => Some(&data.block.transactions),
            None => None,
        }
    }

    pub fn tx_receipts_and_events(&self) -> (r: &Vec<Arc<TxnReceiptAndEvents>>)
        ensures
            *r == self.pre_confirmed.transaction_receipts,
    {
        &self.pre_confirmed.transaction_receipts
    }

    pub fn pre_latest_tx_receipts_and_events(&self) -> (r: Option<&Vec<Arc<TxnReceiptAndEvents>>>)
        ensures
            r == match self.pre_latest {
                Some(data) => Some(&data.block.transaction_receipts),
                None => None,
            },
    {
        match &self.pre_latest {
            Some(data) => Some(&data.block.transaction_receipts),
            None => None,
        }
    }
}

/// Pending blocks with the state changes that they amount to.
#[derive(Debug)]
pub struct PendingData {
    pub blocks: Arc<PendingBlocks>,
    pub state_update: Arc<StateUpdate>,
    pub aggregated_state_update: Arc<StateUpdate>,
    pub number: u64,
}

/// The receipts of a block do not fit its transactions.
#[derive(Clone, Copy, Debug, PartialEq, Eq, Structural)]
pub struct MismatchedReceipts;

impl MismatchedReceipts {
    pub fn message(&self) -> (r: &'static str)
        ensures
            r@ == "Mismatched transaction and receipt count in pre-confirmed block"@,
    {
        "Mismatched transaction and receipt count in pre-confirmed block"
    }
}

/// A settled block from the gateway, with its number and its state changes.
#[derive(Debug)]
pub struct PreLatestReply {
    pub number: u64,
    pub block: GatewayPreLatestBlock,
    pub state_update: StateUpdate,
}

/// The receipts of a block, without the placeholders.
pub open spec fn receipts_of(b: GatewayBlock) -> Seq<Arc<TxnReceiptAndEvents>> {
    present(b.transaction_receipts@)
}

/// The transactions of a block that are executed, or those that are not.
pub open spec fn transactions_of(b: GatewayBlock, executed: bool) -> Seq<Arc<Transaction>> {
    select(b.transactions@, receipt_hashes(receipts_of(b)), executed)
}

/// As many receipts as executed transactions.
pub open spec fn receipts_match(b: GatewayBlock) -> bool {
    receipts_of(b).len() == transactions_of(b, true).len()
}

/// A block taken over from the gateway, but for its transactions and receipts.
pub open spec fn same_frame(p: PreConfirmedBlock, b: GatewayBlock, number: u64) -> bool {
    &&& p.number == number
    &&& p.l1_gas_price == b.l1_gas_price
    &&& p.l1_data_gas_price == b.l1_data_gas_price
    &&& p.l2_gas_price == b.l2_gas_price
    &&& p.sequencer_address == b.sequencer_address
    &&& p.status == Status::PreConfirmed
    &&& p.timestamp == b.timestamp
    &&& p.starknet_version == b.starknet_version
    &&& p.l1_da_mode == b.l1_da_mode
}

/// A settled block taken over from the gateway.
pub open spec fn same_pre_latest(p: PreLatestBlock, number: u64, b: GatewayPreLatestBlock) -> bool {
    &&& p.number == number
    &&& p.parent_hash == b.parent_hash
    &&& p.l1_gas_price == b.l1_gas_price
    &&& p.l1_data_gas_price == b.l1_data_gas_price
    &&& p.l2_gas_price == b.l2_gas_price
    &&& p.sequencer_address == b.sequencer_address
    &&& p.status == Status::Pending
    &&& p.timestamp == b.timestamp
    &&& p.starknet_version == b.starknet_version
    &&& p.l1_da_mode == b.l1_da_mode
    &&& p.transactions == b.transactions
    &&& p.transaction_receipts == b.transaction_receipts
}

/// An update of which only the changes are known.
pub open spec fn bare_update(u: StateUpdate, change: StateChange) -> bool {
    &&& u.block_hash == Felt::zero()
    &&& u.parent_state_commitment == Felt::zero()
    &&& u.state_commitment == Felt::zero()
    &&& u.data@ == change
}

/// What the pending data for blocks from the gateway is.
pub open spec fn is_pending_data_for(
    d: PendingData,
    b: GatewayBlock,
    number: u64,
    pre_latest: Option<PreLatestReply>,
) -> bool {
    &&& d.number == number
    &&& same_frame(d.blocks.pre_confirmed, b, number)
    &&& d.blocks.pre_confirmed.transactions@ == transactions_of(b, true)
    &&& d.blocks.pre_confirmed.transaction_receipts@ == receipts_of(b)
    &&& d.blocks.candidate_transactions@ == transactions_of(b, false)
    &&& bare_update(*d.state_update, composed(present(b.transaction_state_diffs@)))
    &&& match pre_latest {
        None => {
            &&& d.blocks.pre_latest is None
            &&& bare_update(*d.aggregated_state_update, d.state_update.data@)
        },
        Some(reply) => {
            &&& d.blocks.pre_latest matches Some(data) && {
                &&& same_pre_latest(*data.block, reply.number, reply.block)
                &&& *data.state_update == reply.state_update
            }
            &&& d.aggregated_state_update.block_hash == Felt::zero()
            &&& d.aggregated_state_update.state_commitment == Felt::zero()
            &&& d.aggregated_state_update.parent_state_commitment
                == reply.state_update.parent_state_commitment
            &&& d.aggregated_state_update.data@ == reply.state_update.data@.then_change(
                d.state_update.data@,
            )
        },
    }
}

impl PendingData {
    pub fn from_parts(
        blocks: PendingBlocks,
        state_update: StateUpdate,
        aggregated_state_update: StateUpdate,
        number: u64,
    ) -> (r: Self)
        ensures
            *r.blocks == blocks,
            *r.state_update == state_update,
            *r.aggregated_state_update == aggregated_state_update,
            r.number == number,
    {
        PendingData {
            blocks: Arc::new(blocks),
            state_update: Arc::new(state_update),
            aggregated_state_update: Arc::new(aggregated_state_update),
            number,
        }
    }

    /// Converts a pre-confirmed block from the gateway into pending data. Candidate transactions are
    /// filtered out; the state update is composed from the per-transaction diffs.
    pub fn try_from_pre_confirmed_block(block: GatewayBlock, number: u64) -> (r: Result<
        Self,
        MismatchedReceipts,
    >)
        ensures
            r is Ok <==> receipts_match(block),
            r matches Ok(d) ==> is_pending_data_for(d, block, number, None),
    {
        PendingData::try_from_pre_confirmed_and_pre_latest(block, number, None)
    }

    /// Converts a pre-confirmed block with an optional pre-latest parent. When there is one, the
    /// pre-confirmed block must be its child.
    pub fn try_from_pre_confirmed_and_pre_latest(
        block: GatewayBlock,
        number: u64,
        pre_latest: Option<PreLatestReply>,
    ) -> (r: Result<Self, MismatchedReceipts>)
        requires
            receipts_match(block) ==> (pre_latest matches Some(reply) ==> reply.number + 1
                == number),
        ensures
            r is Ok <==> receipts_match(block),
            r matches Ok(d) ==> is_pending_data_for(d, block, number, pre_latest),
    {
        let transaction_receipts = share_present(&block.transaction_receipts);
        let hashes = collect_receipt_hashes(&transaction_receipts);
        let (transactions, candidate_transactions) = partition(&block.transactions, &hashes);
        if transaction_receipts.len() != transactions.len() {
            return Err(MismatchedReceipts);
        }
        let state_update = StateUpdate::from_data(compose(&block.transaction_state_diffs));
        let pre_confirmed = PreConfirmedBlock {
            number,
            l1_gas_price: block.l1_gas_price,
            l1_data_gas_price: block.l1_data_gas_price,
            l2_gas_price: block.l2_gas_price,
            sequencer_address: block.sequencer_address,
            status: Status::PreConfirmed,
            timestamp: block.timestamp,
            starknet_version: block.starknet_version,
            l1_da_mode: block.l1_da_mode,
            transactions,
            transaction_receipts,
        };
        match pre_latest {
            None => {
                let aggregated = StateUpdate::default().apply(&state_update);
                proof {
                    crate::state_apply::lemma_nothing_then(state_update.data@);
                }
                Ok(
                    PendingData {
                        blocks: Arc::new(
                            PendingBlocks {
                                pre_confirmed,
                                pre_latest: None,
                                candidate_transactions,
                            },
                        ),
                        state_update: Arc::new(state_update),
                        aggregated_state_update: Arc::new(aggregated),
                        number,
                    },
                )
            },
            Some(reply) => {
                let aggregated = reply.state_update.apply(&state_update);
                let settled = reply.block;
                let pre_latest_block = PreLatestBlock {
                    number: reply.number,
                    parent_hash: settled.parent_hash,
                    l1_gas_price: settled.l1_gas_price,
                    l1_data_gas_price: settled.l1_data_gas_price,
                    l2_gas_price: settled.l2_gas_price,
                    sequencer_address: settled.sequencer_address,
                    status: Status::Pending,
                    timestamp: settled.timestamp,
                    starknet_version: settled.starknet_version,
                    l1_da_mode: settled.l1_da_mode,
                    transactions: settled.transactions,
                    transaction_receipts: settled.transaction_receipts,
                };
                let data = PreLatestData {
                    block: Arc::new(pre_latest_block),
                    state_update: Arc::new(reply.state_update),
                };
                Ok(
                    PendingData {
                        blocks: Arc::new(
                            PendingBlocks {
                                pre_confirmed,
                                pre_latest: Some(data),
                                candidate_transactions,
                            },
                        ),
                        state_update: Arc::new(state_update),
                        aggregated_state_update: Arc::new(aggregated),
                        number,
                    },
                )
            },
        }
    }

    /// An empty pending block synthesised from the latest finalised header.
    pub fn empty(latest: &BlockHeader) -> (r: Self)
        requires
            latest.number < MAX_BLOCK_NUMBER,
        ensures
            r.number == latest.number + 1,
            is_empty_block_on(r.blocks.pre_confirmed, *latest),
            r.blocks.pre_latest is None,
            r.blocks.candidate_transactions@.len() == 0,
            r.state_update.block_hash == Felt::zero(),
            r.state_update.state_commitment == Felt::zero(),
            r.state_update.parent_state_commitment == latest.state_commitment,
            r.state_update.data@ == empty_change(),
            r.aggregated_state_update == r.state_update,
    {
        let state_update: Arc<StateUpdate> = Arc::new(
            StateUpdate::default().with_parent_state_commitment(latest.state_commitment),
        );
        PendingData {
            blocks: Arc::new(
                PendingBlocks {
                    pre_confirmed: PreConfirmedBlock::empty(latest),
                    pre_latest: None,
                    candidate_transactions: Vec::new(),
                },
            ),
            state_update: share(&state_update),
            aggregated_state_update: state_update,
            number: latest.number + 1,
        }
    }

    pub fn pre_confirmed_block_number(&self) -> (r: u64)
        ensures
            r == self.number,
    {
        self.number
    }

    pub fn pre_latest_block_number(&self) -> (r: Option<u64>)
        ensures
            r == match self.blocks.pre_latest {
                Some(data) => Some(data.block.number),
                None => None,
            },
    {
        match &self.blocks.pre_latest {
            Some(data) => Some(data.block.number),
            None => None,
        }
    }

    pub fn pre_confirmed_block_number_mut(&mut self) -> (r: &mut u64)
        ensures
            *r == old(self).number,
            *final(self) == (PendingData { number: *final(r), ..*old(self) }),
    {
        &mut self.number
    }

    /// Synthesise a header from the pre-confirmed block. Fields that the pre-confirmed block does
    /// not yet know (hash, commitments) are left blank.
    pub fn pre_confirmed_header(&self) -> (r: BlockHeader)
        ensures
            r == pre_confirmed_header_of(self.blocks.pre_confirmed, self.number),
    {
        self.blocks.pre_confirmed.header(self.number)
    }

    /// Synthesise a header from the pre-latest block, if it exists.
    pub fn pre_latest_header(&self) -> (r: Option<BlockHeader>)
        ensures
            r == match self.blocks.pre_latest {
                Some(data) => Some(pre_latest_header_of(*data.block)),
                None => None,
            },
    {
        match &self.blocks.pre_latest {
            Some(data) => Some(data.block.header()),
            None => None,
        }
    }

    pub fn pending_block(&self) -> (r: Arc<PendingBlocks>)
        ensures
            r == self.blocks,
    {
        share(&self.blocks)
    }

    pub fn pre_latest_block(&self) -> (r: Option<Arc<PreLatestBlock>>)
        ensures
            r == match self.blocks.pre_latest {
                Some(data) => Some(data.block),
                None => None,
            },
    {
        match &self.blocks.pre_latest {
            Some(data) => Some(share(&data.block)),
            None => None,
        }
    }

    pub fn pre_confirmed_state_update(&self) -> (r: Arc<StateUpdate>)
        ensures
            r == self.state_update,
    {
        share(&self.state_update)
    }

    /// Combined state update from pre-latest (if any) and pre-confirmed.
    pub fn aggregated_state_update(&self) -> (r: Arc<StateUpdate>)
        ensures
            r == self.aggregated_state_update,
    {
        share(&self.aggregated_state_update)
    }

    pub fn pre_confirmed_transactions(&self) -> (r: &Vec<Arc<Transaction>>)
        ensures
            *r == self.blocks.pre_confirmed.transactions,
    {
        self.blocks.transactions()
    }

    pub fn pre_latest_transactions(&self) -> (r: Option<&Vec<Arc<Transaction>>>)
        ensures
            r == match self.blocks.pre_latest {
                Some(data) => Some(&data.block.transactions),
                None => None,
            },
    {
        self.blocks.pre_latest_transactions()
    }

    pub fn pre_confirmed_tx_receipts_and_events(&self) -> (r: &Vec<Arc<TxnReceiptAndEvents>>)
        ensures
            *r == self.blocks.pre_confirmed.transaction_receipts,
    {
        self.blocks.tx_receipts_and_events()
    }

    pub fn pre_latest_tx_receipts_and_events(&self) -> (r: Option<&Vec<Arc<TxnReceiptAndEvents>>>)
        ensures
            r == match self.blocks.pre_latest {
                Some(data) => Some(&data.block.transaction_receipts),
                None => None,
            },
    {
        self.blocks.pre_latest_tx_receipts_and_events()
    }

    pub fn candidate_transactions(&self) -> (r: &Vec<Arc<Transaction>>)
        ensures
            *r == self.blocks.candidate_transactions,
    {
        &self.blocks.candidate_transactions
    }

    /// Look up a contract nonce across the aggregated pending state.
    pub fn find_nonce(&self, contract_address: Felt) -> (r: Option<Felt>)
        ensures
            r == nonce_in(self.aggregated_state_update.data@, contract_address),
    {
        self.aggregated_state_update.data.contract_nonce(contract_address)
    }

    /// Look up a storage value across the aggregated pending state.
    pub fn find_storage_value(&self, contract_address: Felt, storage_address: Felt) -> (r: Option<
        FoundStorageValue,
    >)
        ensures
            r == storage_in(
                self.aggregated_state_update.data@,
                contract_address,
                storage_address,
            ),
    {
        self.aggregated_state_update.data.storage_value_with_provenance(
            contract_address,
            storage_address,
        )
    }

    /// Look up a transaction by hash across pre-confirmed, candidate, and pre-latest, in that order.
    pub fn find_transaction(&self, tx_hash: Felt) -> (r: Option<Arc<Transaction>>)
        ensures
            r == found_transaction(*self.blocks, tx_hash),
    {
        let executed: &Vec<Arc<Transaction>> = self.pre_confirmed_transactions();
        match find_transaction_in(executed, tx_hash) {
            Some(i) => {
                return Some(share(&executed[i]));
            },
            None => {},
        }
        let candidates: &Vec<Arc<Transaction>> = self.candidate_transactions();
        match find_transaction_in(candidates, tx_hash) {
            Some(i) => {
                return Some(share(&candidates[i]));
            },
            None => {},
        }
        match self.pre_latest_transactions() {
            None => None,
            Some(settled) => match find_transaction_in(settled, tx_hash) {
                Some(i) => Some(share(&settled[i])),
                None => None,
            },
        }
    }

    /// Look up the class hash of a contract across pending state.
    pub fn find_contract_class(&self, contract_address: Felt) -> (r: Option<Felt>)
        ensures
            r == class_in(self.aggregated_state_update.data@, contract_address),
    {
        self.aggregated_state_update.data.contract_class(contract_address)
    }

    /// True if the given class hash is declared in pending state.
    pub fn class_is_declared(&self, class_hash: Felt) -> (r: bool)
        ensures
            r == (self.aggregated_state_update.data@.cairo.contains(class_hash)
                || self.aggregated_state_update.data@.sierra.contains_key(class_hash)),
    {
        self.aggregated_state_update.data.class_is_declared(class_hash)
    }

    /// True if `block` matches the pre-latest or pre-confirmed block number.
    pub fn is_pre_latest_or_pre_confirmed(&self, block: u64) -> (r: bool)
        ensures
            r == (self.number == block || (self.blocks.pre_latest matches Some(data)
                && data.block.number == block)),
    {
        match self.pre_latest_block_number() {
            Some(n) => n == block || self.number == block,
            None => self.number == block,
        }
    }
}

/// The transaction with a hash: one of the pre-confirmed block before a candidate, and that before
/// one of the pre-latest block.
pub open spec fn found_transaction(b: PendingBlocks, hash: Felt) -> Option<Arc<Transaction>> {
    let executed = b.pre_confirmed.transactions@;
    let candidates = b.candidate_transactions@;
    match first_with_hash(executed, hash) {
        Some(i) => Some(executed[i]),
        None => match first_with_hash(candidates, hash) {
            Some(i) => Some(candidates[i]),
            None => match b.pre_latest {
                None => None,
                Some(data) => match first_with_hash(data.block.transactions@, hash) {
                    Some(i) => Some(data.block.transactions@[i]),
                    None => None,
                },
            },
        },
    }
}

impl Default for PendingData {
    fn default() -> (r: Self)
        ensures
            r.number == 0,
            is_blank_block(r.blocks.pre_confirmed),
            r.blocks.pre_latest is None,
            r.blocks.candidate_transactions@.len() == 0,
            bare_update(*r.state_update, empty_change()),
            bare_update(*r.aggregated_state_update, empty_change()),
    {
        PendingData {
            blocks: Arc::new(
                PendingBlocks {
                    pre_confirmed: PreConfirmedBlock::default(),
                    pre_latest: None,
                    candidate_transactions: Vec::new(),
                },
            ),
            state_update: Arc::new(StateUpdate::default()),
            aggregated_state_update: Arc::new(StateUpdate::default()),
            number: 0,
        }
    }
}

/// In converted data every transaction of the gateway's block is found by its hash, be it executed
/// or not, and a transaction counts as executed exactly when it has a receipt.
pub proof fn law_no_transaction_is_lost(
    d: PendingData,
    b: GatewayBlock,
    number: u64,
    pre_latest: Option<PreLatestReply>,
    i: int,
)
    requires
        is_pending_data_for(d, b, number, pre_latest),
        0 <= i < b.transactions@.len(),
    ensures
        ({
            let tx = b.transactions@[i];
            &&& found_transaction(*d.blocks, tx.hash) matches Some(found) && found.hash == tx.hash
            &&& d.blocks.pre_confirmed.transactions@.contains(tx) <==> receipt_hashes(
                receipts_of(b),
            ).contains(tx.hash)
            &&& d.blocks.candidate_transactions@.contains(tx) <==> !receipt_hashes(
                receipts_of(b),
            ).contains(tx.hash)
        }),
{
    let hashes = receipt_hashes(receipts_of(b));
    let tx = b.transactions@[i];
    lemma_selected(b.transactions@, hashes, true, tx);
    lemma_selected(b.transactions@, hashes, false, tx);
    assert(b.transactions@.contains(tx));
    let executed = d.blocks.pre_confirmed.transactions@;
    let candidates = d.blocks.candidate_transactions@;
    crate::pending::compose::lemma_first_with_hash(executed, tx.hash);
    crate::pending::compose::lemma_first_with_hash(candidates, tx.hash);
    if hashes.contains(tx.hash) {
        let j = choose|j: int| 0 <= j < executed.len() && executed[j] == tx;
        assert(executed[j].hash == tx.hash);
    } else {
        let j = choose|j: int| 0 <= j < candidates.len() && candidates[j] == tx;
        assert(candidates[j].hash == tx.hash);
    }
}

pub proof fn lemma_selected(
    txs: Seq<Arc<Transaction>>,
    hashes: Set<Felt>,
    inside: bool,
    tx: Arc<Transaction>,
)
    ensures
        select(txs, hashes, inside).contains(tx) <==> txs.contains(tx) && hashes.contains(tx.hash)
            == inside,
    decreases txs.len(),
{
    if txs.len() > 0 {
        let front = txs.drop_last();
        lemma_selected(front, hashes, inside, tx);
        let a = select(front, hashes, inside);
        let b = select(txs, hashes, inside);
        if a.contains(tx) {
            let j = choose|j: int| 0 <= j < a.len() && a[j] == tx;
            assert(b[j] == tx);
        }
        if front.contains(tx) {
            let j = choose|j: int| 0 <= j < front.len() && front[j] == tx;
            assert(txs[j] == tx);
        }
        if txs.contains(tx) && !front.contains(tx) {
            let j = choose|j: int| 0 <= j < txs.len() && txs[j] == tx;
            if j < front.len() {
                assert(front[j] == tx);
            }
            assert(txs.last() == tx);
            if hashes.contains(tx.hash) == inside {
                assert(b[b.len() - 1] == tx);
            }
        }
        if b.contains(tx) && !a.contains(tx) {
            let j = choose|j: int| 0 <= j < b.len() && b[j] == tx;
            if j < a.len() {
                assert(a[j] == tx);
            }
            assert(txs.last() == tx);
            assert(txs[txs.len() - 1] == tx);
        }
    }
}

} // verus!
