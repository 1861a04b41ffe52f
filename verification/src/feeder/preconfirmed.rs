//! A stored block dressed up as one that is being built.
use std::sync::Arc;
use vstd::prelude::*;

use crate::felt::Felt;
use crate::pending::blocks::{
    BlockHeader, GasPrices, L1DataAvailabilityMode, StarknetVersion, Status, Transaction,
    TxnReceiptAndEvents,
};
use crate::shared::share;

verus! {

/// A block as the gateway hands it out while it is being built.
#[derive(Debug)]
pub struct PreConfirmedPollResponse {
    pub status: Status,
    pub starknet_version: StarknetVersion,
    pub l1_da_mode: L1DataAvailabilityMode,
    pub l1_gas_price: GasPrices,
    pub l1_data_gas_price: GasPrices,
    pub l2_gas_price: Option<GasPrices>,
    pub timestamp: u64,
    pub sequencer_address: Option<Felt>,
    pub transactions: Vec<Arc<Transaction>>,
    pub transaction_receipts: Vec<Arc<TxnReceiptAndEvents>>,
    pub block_number: u64,
    pub block_identifier: String,
    pub changed: bool,
}

/// Why a stored block cannot be handed out.
#[derive(Clone, Copy, Debug, PartialEq, Eq, Structural)]
pub enum ResolveError {
    HeaderMissing,
    TransactionDataMissing,
}

impl ResolveError {
    pub fn message(&self) -> (r: &'static str)
        ensures
            r@ == match self {
                ResolveError::HeaderMissing => "Block header missing"@,
                ResolveError::TransactionDataMissing => "Transaction data missing"@,
            },
    {
        match self {
            ResolveError::HeaderMissing => "Block header missing",
            ResolveError::TransactionDataMissing => "Transaction data missing",
        }
    }
}

/// A transaction of a stored block with its receipt and events.
pub type StoredTransaction = (Arc<Transaction>, Arc<TxnReceiptAndEvents>);

/// The response for a stored block.
pub open spec fn is_response_for(
    r: PreConfirmedPollResponse,
    h: BlockHeader,
    data: Seq<StoredTransaction>,
    identifier: String,
) -> bool {
    &&& r.status == Status::PreConfirmed
    &&& r.starknet_version == h.starknet_version
    &&& r.l1_da_mode == h.l1_da_mode
    &&& r.l1_gas_price == GasPrices {
        price_in_wei: h.eth_l1_gas_price,
        price_in_fri: h.strk_l1_gas_price,
    }
    &&& r.l1_data_gas_price == GasPrices {
        price_in_wei: h.eth_l1_data_gas_price,
        price_in_fri: h.strk_l1_data_gas_price,
    }
    &&& r.l2_gas_price == Some(
        GasPrices { price_in_wei: h.eth_l2_gas_price, price_in_fri: h.strk_l2_gas_price },
    )
    &&& r.timestamp == h.timestamp
    &&& r.sequencer_address == Some(h.sequencer_address)
    &&& r.transactions@ == data.map_values(|t: StoredTransaction| t.0)
    &&& r.transaction_receipts@ == data.map_values(|t: StoredTransaction| t.1)
    &&& r.block_number == h.number
    &&& r.block_identifier == identifier
    &&& r.changed
}

/// The response for a block, given what is stored of it.
pub fn resolve_preconfirmed_response(
    header: Option<BlockHeader>,
    data: Option<Vec<StoredTransaction>>,
    identifier: String,
) -> (r: Result<PreConfirmedPollResponse, ResolveError>)
    ensures
        match header {
            None => r == Err::<PreConfirmedPollResponse, ResolveError>(ResolveError::HeaderMissing),
            Some(h) => match data {
                None => r == Err::<PreConfirmedPollResponse, ResolveError>(
                    ResolveError::TransactionDataMissing,
                ),
                Some(list) => r matches Ok(response) && is_response_for(
                    response,
                    h,
                    list@,
                    identifier,
                ),
            },
        },
{
    let header: BlockHeader = match header {
        Some(h) => h,
        None => {
            return Err(ResolveError::HeaderMissing);
        },
    };
    let data: Vec<StoredTransaction> = match data {
        Some(d) => d,
        None => {
            return Err(ResolveError::TransactionDataMissing);
        },
    };
    let mut transactions: Vec<Arc<Transaction>> = Vec::new();
    let mut transaction_receipts: Vec<Arc<TxnReceiptAndEvents>> = Vec::new();
    let ghost txs = data@.map_values(|t: StoredTransaction| t.0);
    let ghost receipts = data@.map_values(|t: StoredTransaction| t.1);
    let mut i: usize = 0;
    while i < data.len()
        invariant
            i <= data@.len(),
            txs == data@.map_values(|t: StoredTransaction| t.0),
            receipts == data@.map_values(|t: StoredTransaction| t.1),
            transactions@ == txs.subrange(0, i as int),
            transaction_receipts@ == receipts.subrange(0, i as int),
        decreases data@.len() - i,
    {
        transactions.push(share(&data[i].0));
        transaction_receipts.push(share(&data[i].1));
        i = i + 1;
        assert(transactions@ =~= txs.subrange(0, i as int));
        assert(transaction_receipts@ =~= receipts.subrange(0, i as int));
    }
    assert(transactions@ =~= txs);
    assert(transaction_receipts@ =~= receipts);
    Ok(
        PreConfirmedPollResponse {
            status: Status::PreConfirmed,
            starknet_version: header.starknet_version,
            l1_da_mode: header.l1_da_mode,
            l1_gas_price: GasPrices {
                price_in_wei: header.eth_l1_gas_price,
                price_in_fri: header.strk_l1_gas_price,
            },
            l1_data_gas_price: GasPrices {
                price_in_wei: header.eth_l1_data_gas_price,
                price_in_fri: header.strk_l1_data_gas_price,
            },
            l2_gas_price: Some(
                GasPrices {
                    price_in_wei: header.eth_l2_gas_price,
                    price_in_fri: header.strk_l2_gas_price,
                },
            ),
            timestamp: header.timestamp,
            sequencer_address: Some(header.sequencer_address),
            transactions,
            transaction_receipts,
            block_number: header.number,
            block_identifier: identifier,
            changed: true,
        },
    )
}

} // verus!
