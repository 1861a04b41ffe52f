//! The chain data observed in flight, of executed transactions alone.
use std::sync::Arc;
use vstd::prelude::*;
use vstd::string::*;

use crate::felt::Felt;
use crate::pending::blocks::{
    is_blank_block, is_empty_block_on, BlockHeader, GatewayBlock, PreConfirmedBlock,
    PreLatestBlock, PreLatestData, StateUpdate, Status, Transaction, TxnReceiptAndEvents,
    MAX_BLOCK_NUMBER,
};
use crate::pending::compose::{
    collect_receipt_hashes, compose, composed, find_receipt_in, find_transaction_in, first_receipt,
    first_with_hash, lemma_first_receipt, lemma_first_with_hash, receipt_hashes,
};
use crate::pending::pre_confirmed::{bare_update, same_frame};
use crate::shared::{present, share, share_all, share_present};
use crate::state_update::empty_change;
use crate::text::{hex_of, push_hex};

verus! {

/// The pre-confirmed block, and an optional pre-latest parent.
#[derive(Debug)]
pub struct PendingBlocks {
    pub pre_confirmed: Arc<PreConfirmedBlock>,
    pub pre_latest: Option<PreLatestData>,
}

/// Pending blocks with the state changes that they amount to.
#[derive(Debug)]
pub struct PendingData {
    pub blocks: Arc<PendingBlocks>,
    pub state_update: Arc<StateUpdate>,
    pub aggregated_state_update: Arc<StateUpdate>,
    pub number: u64,
}

/// Why a block from the gateway is not taken over.
#[derive(Clone, Copy, Debug, PartialEq, Eq, Structural)]
pub enum ConversionError {
    /// A transaction has no receipt: it was not executed yet.
    MissingReceipt(Felt),
    /// There are more receipts than transactions.
    MismatchedCount,
}

/// The text of a conversion error.
pub open spec fn conversion_error_text(e: ConversionError) -> Seq<char> {
    match e {
        ConversionError::MissingReceipt(hash) => "Missing transaction receipt for tx (0x"@ + hex_of(
            hash@,
        ) + ")"@,
        ConversionError::MismatchedCount =>
            "Mismatched transaction and receipt count in pre-confirmed block"@,
    }
}

impl ConversionError {
    pub fn message(&self) -> (r: String)
        ensures
            r@ == conversion_error_text(*self),
    {
        match self {
            ConversionError::MissingReceipt(hash) => {
                let mut s = String::from_str("Missing transaction receipt for tx (0x");
                let bytes = hash.to_be_bytes();
                push_hex(&mut s, bytes.as_slice());
                s.append(")");
                s
            },
            ConversionError::MismatchedCount => String::from_str(
                "Mismatched transaction and receipt count in pre-confirmed block",
            ),
        }
    }
}

/// The first transaction whose hash is not among some.
pub open spec fn first_outside(txs: Seq<Arc<Transaction>>, hashes: Set<Felt>) -> Option<int>
    decreases txs.len(),
{
    if txs.len() == 0 {
        None
    } else {
        match first_outside(txs.drop_last(), hashes) {
            Some(i) => Some(i),
            None => if hashes.contains(txs.last().hash) {
                None
            } else {
                Some(txs.len() - 1)
            },
        }
    }
}

/// Before the first transaction outside, all hashes are inside.
pub proof fn lemma_first_outside(txs: Seq<Arc<Transaction>>, hashes: Set<Felt>)
    ensures
        match first_outside(txs, hashes) {
            Some(i) => 0 <= i < txs.len() && !hashes.contains(txs[i].hash) && forall|j: int|
                0 <= j < i ==> hashes.contains((#[trigger] txs[j]).hash),
            None => forall|j: int| 0 <= j < txs.len() ==> hashes.contains((#[trigger] txs[j]).hash),
        },
    decreases txs.len(),
{
    if txs.len() > 0 {
        let front = txs.drop_last();
        lemma_first_outside(front, hashes);
        assert(forall|j: int| 0 <= j < front.len() ==> front[j] == txs[j]);
    }
}

/// What is wrong with the receipts of a block, if anything.
pub open spec fn receipts_flaw(b: GatewayBlock) -> Option<ConversionError> {
    let receipts = present(b.transaction_receipts@);
    match first_outside(b.transactions@, receipt_hashes(receipts)) {
        Some(i) => Some(ConversionError::MissingReceipt(b.transactions@[i].hash)),
        None => if receipts.len() != b.transactions@.len() {
            Some(ConversionError::MismatchedCount)
        } else {
            None
        },
    }
}

/// The receipts of a block, where they fit its transactions.
fn checked_receipts(b: &GatewayBlock) -> (r: Result<
    Vec<Arc<TxnReceiptAndEvents>>,
    ConversionError,
>)
    ensures
        match receipts_flaw(*b) {
            Some(e) => r == Err::<Vec<Arc<TxnReceiptAndEvents>>, ConversionError>(e),
            None => r matches Ok(receipts) && receipts@ == present(b.transaction_receipts@),
        },
{
    let receipts = share_present(&b.transaction_receipts);
    let hashes = collect_receipt_hashes(&receipts);
    proof {
        lemma_first_outside(b.transactions@, hashes@);
    }
    let ghost first = first_outside(b.transactions@, hashes@);
    let mut i: usize = 0;
    while i < b.transactions.len()
        invariant
            i <= b.transactions@.len(),
            hashes@ == receipt_hashes(present(b.transaction_receipts@)),
            first == first_outside(b.transactions@, hashes@),
            forall|j: int| 0 <= j < i ==> hashes@.contains((#[trigger] b.transactions@[j]).hash),
            match first {
                Some(i) => 0 <= i < b.transactions@.len() && !hashes@.contains(
                    b.transactions@[i].hash,
                ) && forall|j: int|
                    0 <= j < i ==> hashes@.contains((#[trigger] b.transactions@[j]).hash),
                None => forall|j: int|
                    0 <= j < b.transactions@.len() ==> hashes@.contains(
                        (#[trigger] b.transactions@[j]).hash,
                    ),
            },
        decreases b.transactions@.len() - i,
    {
        let hash: Felt = b.transactions[i].hash;
        if !hashes.contains(hash) {
            assert(!hashes@.contains(b.transactions@[i as int].hash));
            return Err(ConversionError::MissingReceipt(hash));
        }
        i = i + 1;
    }
    if receipts.len() != b.transactions.len() {
        return Err(ConversionError::MismatchedCount);
    }
    Ok(receipts)
}

/// A settled block from the gateway, with its number and the hash of its parent.
#[derive(Debug)]
pub struct PreLatestReply {
    pub number: u64,
    pub block: Arc<GatewayBlock>,
    pub parent_hash: Felt,
}

/// A settled block taken over from the gateway.
pub open spec fn is_pre_latest_for(data: PreLatestData, reply: PreLatestReply) -> bool {
    let p = *data.block;
    let b = *reply.block;
    &&& p.number == reply.number
    &&& p.parent_hash == reply.parent_hash
    &&& p.l1_gas_price == b.l1_gas_price
    &&& p.l1_data_gas_price == b.l1_data_gas_price
    &&& p.l2_gas_price == b.l2_gas_price
    &&& p.sequencer_address == b.sequencer_address
    &&& p.status == Status::Pending
    &&& p.timestamp == b.timestamp
    &&& p.starknet_version == b.starknet_version
    &&& p.l1_da_mode == b.l1_da_mode
    &&& p.transactions@ == b.transactions@
    &&& p.transaction_receipts@ == present(b.transaction_receipts@)
    &&& bare_update(*data.state_update, composed(present(b.transaction_state_diffs@)))
}

/// What the pending data for blocks from the gateway is.
pub open spec fn is_pending_data_for(
    d: PendingData,
    b: GatewayBlock,
    number: u64,
    pre_latest: Option<PreLatestReply>,
) -> bool {
    &&& d.number == number
    &&& same_frame(*d.blocks.pre_confirmed, b, number)
    &&& d.blocks.pre_confirmed.transactions@ == b.transactions@
    &&& d.blocks.pre_confirmed.transaction_receipts@ == present(b.transaction_receipts@)
    &&& bare_update(*d.state_update, composed(present(b.transaction_state_diffs@)))
    &&& match pre_latest {
        None => {
            &&& d.blocks.pre_latest is None
            &&& bare_update(*d.aggregated_state_update, d.state_update.data@)
        },
        Some(reply) => {
            &&& d.blocks.pre_latest matches Some(data) && {
                &&& is_pre_latest_for(data, reply)
                &&& bare_update(
                    *d.aggregated_state_update,
                    data.state_update.data@.then_change(d.state_update.data@),
                )
            }
        },
    }
}

/// What is wrong with blocks from the gateway: the pre-confirmed block is looked at first.
pub open spec fn conversion_flaw(b: GatewayBlock, pre_latest: Option<PreLatestReply>) -> Option<
    ConversionError,
> {
    match receipts_flaw(b) {
        Some(e) => Some(e),
        None => match pre_latest {
            Some(reply) => receipts_flaw(*reply.block),
            None => None,
        },
    }
}

impl PendingData {
    pub fn from_parts(
        blocks: PendingBlocks,
        state_update: StateUpdate,
        aggregated_state_update: StateUpdate,
        number: u64,
    ) -> (r: Self)
        ensures
            *r.blocks == blocks,
            *r.state_update == state_update,
            *r.aggregated_state_update == aggregated_state_update,
            r.number == number,
    {
        PendingData {
            blocks: Arc::new(blocks),
            state_update: Arc::new(state_update),
            aggregated_state_update: Arc::new(aggregated_state_update),
            number,
        }
    }

    /// Converts a pre-confirmed block from the gateway into pending data; the state update is
    /// composed from the per-transaction diffs.
    pub fn try_from_pre_confirmed_block(block: &GatewayBlock, number: u64) -> (r: Result<
        Self,
        ConversionError,
    >)
        ensures
            match receipts_flaw(*block) {
                Some(e) => r == Err::<PendingData, ConversionError>(e),
                None => r matches Ok(d) && is_pending_data_for(d, *block, number, None),
            },
    {
        PendingData::try_from_pre_confirmed_and_pre_latest(block, number, None)
    }

    /// Converts a pre-confirmed block with an optional pre-latest parent. When there is one, the
    /// pre-confirmed block must be its child.
    pub fn try_from_pre_confirmed_and_pre_latest(
        block: &GatewayBlock,
        number: u64,
        pre_latest: Option<PreLatestReply>,
    ) -> (r: Result<Self, ConversionError>)
        requires
            conversion_flaw(*block, pre_latest) is None ==> (pre_latest matches Some(reply)
                ==> reply.number + 1 == number),
        ensures
            match conversion_flaw(*block, pre_latest) {
                Some(e) => r == Err::<PendingData, ConversionError>(e),
                None => r matches Ok(d) && is_pending_data_for(d, *block, number, pre_latest),
            },
    {
        let receipts: Vec<Arc<TxnReceiptAndEvents>> = match checked_receipts(block) {
            Ok(receipts) => receipts,
            Err(e) => {
                return Err(e);
            },
        };
        let state_update = StateUpdate::from_data(compose(&block.transaction_state_diffs));
        let pre_confirmed = PreConfirmedBlock {
            number,
            l1_gas_price: block.l1_gas_price,
            l1_data_gas_price: block.l1_data_gas_price,
            l2_gas_price: block.l2_gas_price,
            sequencer_address: block.sequencer_address,
            status: Status::PreConfirmed,
            timestamp: block.timestamp,
            starknet_version: block.starknet_version,
            l1_da_mode: block.l1_da_mode,
            transactions: share_all(&block.transactions),
            transaction_receipts: receipts,
        };
        match pre_latest {
            None => {
                let aggregated = StateUpdate::default().apply(&state_update);
                proof {
                    crate::state_apply::lemma_nothing_then(state_update.data@);
                }
                Ok(
                    PendingData {
                        blocks: Arc::new(
                            PendingBlocks { pre_confirmed: Arc::new(pre_confirmed), pre_latest: None },
                        ),
                        state_update: Arc::new(state_update),
                        aggregated_state_update: Arc::new(aggregated),
                        number,
                    },
                )
            },
            Some(reply) => {
                let settled: &GatewayBlock = &reply.block;
                let settled_receipts: Vec<Arc<TxnReceiptAndEvents>> = match checked_receipts(
                    settled,
                ) {
                    Ok(receipts) => receipts,
                    Err(e) => {
                        return Err(e);
                    },
                };
                let settled_update = StateUpdate::from_data(
                    compose(&settled.transaction_state_diffs),
                );
                let aggregated = settled_update.apply(&state_update);
                let pre_latest_block = PreLatestBlock {
                    number: reply.number,
                    parent_hash: reply.parent_hash,
                    l1_gas_price: settled.l1_gas_price,
                    l1_data_gas_price: settled.l1_data_gas_price,
                    l2_gas_price: settled.l2_gas_price,
                    sequencer_address: settled.sequencer_address,
                    status: Status::Pending,
                    timestamp: settled.timestamp,
                    starknet_version: settled.starknet_version,
                    l1_da_mode: settled.l1_da_mode,
                    transactions: share_all(&settled.transactions),
                    transaction_receipts: settled_receipts,
                };
                let data = PreLatestData {
                    block: Arc::new(pre_latest_block),
                    state_update: Arc::new(settled_update),
                };
                Ok(
                    PendingData {
                        blocks: Arc::new(
                            PendingBlocks {
                                pre_confirmed: Arc::new(pre_confirmed),
                                pre_latest: Some(data),
                            },
                        ),
                        state_update: Arc::new(state_update),
                        aggregated_state_update: Arc::new(aggregated),
                        number,
                    },
                )
            },
        }
    }

    /// An empty pending block synthesised from the latest finalised header.
    pub fn empty(latest: &BlockHeader) -> (r: Self)
        requires
            latest.number < MAX_BLOCK_NUMBER,
        ensures
            is_empty_pending(r, *latest),
    {
        let state_update: Arc<StateUpdate> = Arc::new(
            StateUpdate::default().with_parent_state_commitment(latest.state_commitment),
        );
        PendingData {
            blocks: Arc::new(
                PendingBlocks {
                    pre_confirmed: Arc::new(PreConfirmedBlock::empty(latest)),
                    pre_latest: None,
                },
            ),
            state_update: share(&state_update),
            aggregated_state_update: state_update,
            number: latest.number + 1,
        }
    }

    /// The same data, shared.
    pub fn copy(&self) -> (r: Self)
        ensures
            r == *self,
    {
        PendingData {
            blocks: share(&self.blocks),
            state_update: share(&self.state_update),
            aggregated_state_update: share(&self.aggregated_state_update),
            number: self.number,
        }
    }

    pub fn pre_confirmed_block_number(&self) -> (r: u64)
        ensures
            r == self.number,
    {
        self.number
    }

    pub fn pre_latest_block_number(&self) -> (r: Option<u64>)
        ensures
            r == match self.blocks.pre_latest {
                Some(data) => Some(data.block.number),
                None => None,
            },
    {
        match &self.blocks.pre_latest {
            Some(data) => Some(data.block.number),
            None => None,
        }
    }

    pub fn pre_confirmed_transactions(&self) -> (r: &Vec<Arc<Transaction>>)
        ensures
            *r == self.blocks.pre_confirmed.transactions,
    {
        &self.blocks.pre_confirmed.transactions
    }

    pub fn pre_latest_block(&self) -> (r: Option<Arc<PreLatestBlock>>)
        ensures
            r == match self.blocks.pre_latest {
                Some(data) => Some(data.block),
                None => None,
            },
    {
        match &self.blocks.pre_latest {
            Some(data) => Some(share(&data.block)),
            None => None,
        }
    }
}

/// Empty pending data on top of a block.
pub open spec fn is_empty_pending(d: PendingData, latest: BlockHeader) -> bool {
    &&& d.number == latest.number + 1
    &&& is_empty_block_on(*d.blocks.pre_confirmed, latest)
    &&& d.blocks.pre_latest is None
    &&& d.state_update.block_hash == Felt::zero()
    &&& d.state_update.state_commitment == Felt::zero()
    &&& d.state_update.parent_state_commitment == latest.state_commitment
    &&& d.state_update.data@ == empty_change()
    &&& d.aggregated_state_update == d.state_update
}

impl Default for PendingData {
    fn default() -> (r: Self)
        ensures
            r.number == 0,
            is_blank_block(*r.blocks.pre_confirmed),
            r.blocks.pre_latest is None,
            bare_update(*r.state_update, empty_change()),
            bare_update(*r.aggregated_state_update, empty_change()),
    {
        PendingData {
            blocks: Arc::new(
                PendingBlocks {
                    pre_confirmed: Arc::new(PreConfirmedBlock::default()),
                    pre_latest: None,
                },
            ),
            state_update: Arc::new(StateUpdate::default()),
            aggregated_state_update: Arc::new(StateUpdate::default()),
            number: 0,
        }
    }
}

/// How final a transaction is.
#[derive(Clone, Copy, Debug, PartialEq, Eq, Structural)]
pub enum TxnFinalityStatus {
    PreConfirmed,
    AcceptedOnL2,
    AcceptedOnL1,
}

/// A finalized transaction along with its receipt, events, status and the block number it was
/// included in.
#[derive(Debug)]
pub struct FinalizedTxData {
    pub block_number: u64,
    pub transaction: Arc<Transaction>,
    pub receipt_and_events: Arc<TxnReceiptAndEvents>,
    pub finality_status: TxnFinalityStatus,
}

/// Every transaction with this hash has a receipt.
pub open spec fn receipted(
    txs: Seq<Arc<Transaction>>,
    receipts: Seq<Arc<TxnReceiptAndEvents>>,
    hash: Felt,
) -> bool {
    first_with_hash(txs, hash) is Some ==> first_receipt(receipts, hash) is Some
}

/// The transaction with a hash and its receipt, of one block.
pub open spec fn finalized_in(
    number: u64,
    txs: Seq<Arc<Transaction>>,
    receipts: Seq<Arc<TxnReceiptAndEvents>>,
    hash: Felt,
) -> Option<FinalizedTxData> {
    match first_with_hash(txs, hash) {
        None => None,
        Some(i) => Some(
            FinalizedTxData {
                block_number: number,
                transaction: txs[i],
                receipt_and_events: receipts[first_receipt(receipts, hash)->0],
                finality_status: TxnFinalityStatus::PreConfirmed,
            },
        ),
    }
}

/// The transaction with a hash and its receipt: one of the pre-confirmed block before one of the
/// pre-latest block.
pub open spec fn finalized(d: PendingData, hash: Felt) -> Option<FinalizedTxData> {
    let p = d.blocks.pre_confirmed;
    match finalized_in(d.number, p.transactions@, p.transaction_receipts@, hash) {
        Some(found) => Some(found),
        None => match d.blocks.pre_latest {
            None => None,
            Some(data) => finalized_in(
                data.block.number,
                data.block.transactions@,
                data.block.transaction_receipts@,
                hash,
            ),
        },
    }
}

/// A transaction with this hash has a receipt, in the block in which it is found.
pub open spec fn has_receipt(d: PendingData, hash: Felt) -> bool {
    let p = d.blocks.pre_confirmed;
    &&& receipted(p.transactions@, p.transaction_receipts@, hash)
    &&& first_with_hash(p.transactions@, hash) is None ==> (d.blocks.pre_latest matches Some(data)
        ==> receipted(data.block.transactions@, data.block.transaction_receipts@, hash))
}

fn find_in(
    number: u64,
    txs: &Vec<Arc<Transaction>>,
    receipts: &Vec<Arc<TxnReceiptAndEvents>>,
    hash: Felt,
) -> (r: Option<FinalizedTxData>)
    requires
        receipted(txs@, receipts@, hash),
    ensures
        r == finalized_in(number, txs@, receipts@, hash),
{
    match find_transaction_in(txs, hash) {
        None => None,
        Some(i) => match find_receipt_in(receipts, hash) {
            None => None,
            Some(j) => Some(
                FinalizedTxData {
                    block_number: number,
                    transaction: share(&txs[i]),
                    receipt_and_events: share(&receipts[j]),
                    finality_status: TxnFinalityStatus::PreConfirmed,
                },
            ),
        },
    }
}

/// Find a transaction-with-receipt in the pre-confirmed or pre-latest block, in that order.
pub fn find_finalized_tx_data(pending: &PendingData, tx_hash: Felt) -> (r: Option<FinalizedTxData>)
    requires
        has_receipt(*pending, tx_hash),
    ensures
        r == finalized(*pending, tx_hash),
{
    let p: &PreConfirmedBlock = &pending.blocks.pre_confirmed;
    match find_in(pending.number, &p.transactions, &p.transaction_receipts, tx_hash) {
        Some(found) => Some(found),
        None => match &pending.blocks.pre_latest {
            None => None,
            Some(data) => find_in(
                data.block.number,
                &data.block.transactions,
                &data.block.transaction_receipts,
                tx_hash,
            ),
        },
    }
}

proof fn lemma_receipted(b: &GatewayBlock, hash: Felt)
    requires
        receipts_flaw(*b) is None,
    ensures
        receipted(b.transactions@, present(b.transaction_receipts@), hash),
{
    let receipts = present(b.transaction_receipts@);
    lemma_first_outside(b.transactions@, receipt_hashes(receipts));
    lemma_first_with_hash(b.transactions@, hash);
    lemma_first_receipt(receipts, hash);
}

/// In data converted from the gateway every transaction has its receipt, so that any hash can be
/// looked up.
pub proof fn law_converted_data_has_receipts(
    d: PendingData,
    b: GatewayBlock,
    number: u64,
    pre_latest: Option<PreLatestReply>,
    hash: Felt,
)
    requires
        conversion_flaw(b, pre_latest) is None,
        is_pending_data_for(d, b, number, pre_latest),
    ensures
        has_receipt(d, hash),
{
    lemma_receipted(&b, hash);
    if pre_latest is Some {
        lemma_receipted(&pre_latest->0.block, hash);
    }
}

/// In empty data any hash can be looked up, and none is found.
pub proof fn law_empty_data_has_no_transactions(d: PendingData, latest: BlockHeader, hash: Felt)
    requires
        is_empty_pending(d, latest),
    ensures
        has_receipt(d, hash),
        finalized(d, hash) is None,
{
    lemma_first_with_hash(d.blocks.pre_confirmed.transactions@, hash);
}

/// What is found for a hash has that hash, and so has its receipt. Both are of one block, the
/// pre-confirmed one where it has such a transaction, and the pre-latest one otherwise; and they are
/// said to be in that block. Nothing is found only where neither block has such a transaction.
pub proof fn law_found_transaction_has_its_receipt(d: PendingData, hash: Felt)
    requires
        has_receipt(d, hash),
    ensures
        finalized(d, hash) matches Some(found) ==> {
            let p = *d.blocks.pre_confirmed;
            &&& found.transaction.hash == hash
            &&& found.receipt_and_events.receipt.transaction_hash == hash
            &&& found.finality_status == TxnFinalityStatus::PreConfirmed
            &&& {
                ||| found.block_number == d.number && p.transactions@.contains(found.transaction)
                    && p.transaction_receipts@.contains(found.receipt_and_events)
                ||| d.blocks.pre_latest matches Some(data) && found.block_number
                    == data.block.number && data.block.transactions@.contains(found.transaction)
                    && data.block.transaction_receipts@.contains(found.receipt_and_events) && (
                forall|i: int|
                    0 <= i < p.transactions@.len() ==> (#[trigger] p.transactions@[i]).hash != hash)
            }
        },
        finalized(d, hash) is None ==> {
            &&& forall|i: int|
                0 <= i < d.blocks.pre_confirmed.transactions@.len() ==> (
                #[trigger] d.blocks.pre_confirmed.transactions@[i]).hash != hash
            &&& d.blocks.pre_latest matches Some(data) ==> forall|i: int|
                0 <= i < data.block.transactions@.len() ==> (
                #[trigger] data.block.transactions@[i]).hash != hash
        },
{
    let p = *d.blocks.pre_confirmed;
    lemma_first_with_hash(p.transactions@, hash);
    lemma_first_receipt(p.transaction_receipts@, hash);
    if let Some(data) = d.blocks.pre_latest {
        lemma_first_with_hash(data.block.transactions@, hash);
        lemma_first_receipt(data.block.transaction_receipts@, hash);
    }
}

/// In data converted from the gateway, a transaction of the pre-confirmed block is found under its
/// hash, and one of the pre-latest block where the other has none of that hash.
pub proof fn law_converted_transactions_are_found(
    d: PendingData,
    b: GatewayBlock,
    number: u64,
    pre_latest: Option<PreLatestReply>,
    hash: Felt,
)
    requires
        conversion_flaw(b, pre_latest) is None,
        is_pending_data_for(d, b, number, pre_latest),
    ensures
        (exists|i: int| 0 <= i < b.transactions@.len() && (#[trigger] b.transactions@[i]).hash == hash)
            ==> (finalized(d, hash) matches Some(found) && found.block_number == number
            && b.transactions@.contains(found.transaction)),
        (forall|i: int| 0 <= i < b.transactions@.len() ==> (#[trigger] b.transactions@[i]).hash != hash)
            && (pre_latest matches Some(reply) && (exists|i: int|
            0 <= i < reply.block.transactions@.len() && (#[trigger] reply.block.transactions@[i]).hash
                == hash)) ==> (finalized(d, hash) matches Some(found) && found.block_number
            == pre_latest->0.number && pre_latest->0.block.transactions@.contains(found.transaction)),
{
    law_converted_data_has_receipts(d, b, number, pre_latest, hash);
    law_found_transaction_has_its_receipt(d, hash);
}

} // verus!
