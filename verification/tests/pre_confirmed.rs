//! The cache of pre-confirmed data, and the data that it holds.
use std::sync::Arc;

use pathfinder::felt::Felt;
use pathfinder::pending::blocks::{
    BlockHeader, GasPrices, GatewayBlock, GatewayPreLatestBlock, L1DataAvailabilityMode, Receipt,
    StarknetVersion, StateUpdate, Status, Transaction, TxnReceiptAndEvents,
};
use pathfinder::pending::cache::{
    PreConfirmedCache, ReadFailure, ReadStep, WaitEvent, DEFAULT_COLD_START_TIMEOUT,
};
use pathfinder::pending::pre_confirmed::{PendingData, PreLatestReply};
use pathfinder::state_apply::FoundStorageValue;
use pathfinder::state_update::{ContractClassUpdate, StateUpdateData};

fn free() -> GasPrices {
    GasPrices { price_in_wei: 0, price_in_fri: 0 }
}

fn tx(hash: u64) -> Arc<Transaction> {
    Arc::new(Transaction { hash: Felt::from_u64(hash), content: vec![hash as u8] })
}

fn receipt(hash: u64) -> Arc<TxnReceiptAndEvents> {
    Arc::new(TxnReceiptAndEvents {
        receipt: Receipt {
            transaction_hash: Felt::from_u64(hash),
            transaction_index: 0,
            content: vec![],
        },
        events: vec![],
    })
}

fn block(transactions: &[u64], receipts: &[Option<u64>]) -> GatewayBlock {
    GatewayBlock {
        l1_gas_price: GasPrices { price_in_wei: 1, price_in_fri: 2 },
        l1_data_gas_price: free(),
        l2_gas_price: free(),
        sequencer_address: Felt::from_u64(4),
        status: Status::PreConfirmed,
        timestamp: 99,
        starknet_version: StarknetVersion::new(0, 14, 0, 0),
        l1_da_mode: L1DataAvailabilityMode::Blob,
        transactions: transactions.iter().map(|h| tx(*h)).collect(),
        transaction_receipts: receipts.iter().map(|h| h.map(receipt)).collect(),
        transaction_state_diffs: vec![],
    }
}

fn settled(transactions: &[u64]) -> GatewayPreLatestBlock {
    GatewayPreLatestBlock {
        parent_hash: Felt::from_u64(6),
        l1_gas_price: free(),
        l1_data_gas_price: free(),
        l2_gas_price: free(),
        sequencer_address: Felt::from_u64(5),
        timestamp: 88,
        starknet_version: StarknetVersion::new(0, 14, 0, 0),
        l1_da_mode: L1DataAvailabilityMode::Calldata,
        transactions: transactions.iter().map(|h| tx(*h)).collect(),
        transaction_receipts: transactions.iter().map(|h| receipt(*h)).collect(),
    }
}

#[test]
fn transactions_without_receipts_are_candidates() {
    let data = PendingData::try_from_pre_confirmed_block(
        block(&[1, 2, 3], &[Some(1), None, Some(3)]),
        7,
    )
    .unwrap();
    let hashes = |list: &Vec<Arc<Transaction>>| -> Vec<Felt> {
        list.iter().map(|t| t.hash).collect()
    };
    assert_eq!(
        hashes(data.pre_confirmed_transactions()),
        vec![Felt::from_u64(1), Felt::from_u64(3)]
    );
    assert_eq!(hashes(data.candidate_transactions()), vec![Felt::from_u64(2)]);
    assert_eq!(data.pre_confirmed_tx_receipts_and_events().len(), 2);
    assert_eq!(data.find_transaction(Felt::from_u64(2)).unwrap().content, vec![2]);
    assert!(data.find_transaction(Felt::from_u64(9)).is_none());
    assert!(data.is_pre_latest_or_pre_confirmed(7));
    assert!(!data.is_pre_latest_or_pre_confirmed(6));
    let header = data.pre_confirmed_header();
    assert_eq!((header.number, header.timestamp, header.eth_l1_gas_price), (7, 99, 1));
    assert!(data.pre_latest_header().is_none());
}

#[test]
fn receipts_without_transactions_are_refused() {
    let e = PendingData::try_from_pre_confirmed_block(block(&[1], &[Some(1), Some(2)]), 7)
        .unwrap_err();
    assert_eq!(
        e.message(),
        "Mismatched transaction and receipt count in pre-confirmed block"
    );
}

fn update(f: impl Fn(&mut StateUpdateData)) -> StateUpdate {
    let mut data = StateUpdateData::new();
    f(&mut data);
    StateUpdate::from_data(data)
}

#[test]
fn the_settled_block_is_looked_up_below_the_pre_confirmed_one() {
    let contract = Felt::from_u64(0xc);
    let lower = update(|d| {
        d.set_nonce(contract, Felt::from_u64(1));
        d.set_storage(contract, Felt::from_u64(2), Felt::from_u64(3));
    });
    let mut upper_data = StateUpdateData::new();
    upper_data.set_nonce(contract, Felt::from_u64(5));
    upper_data.set_class(
        Felt::from_u64(0xd),
        ContractClassUpdate::Deploy(Felt::from_u64(0xe)),
    );
    let mut upper = block(&[1], &[Some(1)]);
    upper.transaction_state_diffs = vec![Some(Arc::new(upper_data))];
    let mut data = PendingData::try_from_pre_confirmed_and_pre_latest(
        upper,
        8,
        Some(PreLatestReply { number: 7, block: settled(&[2]), state_update: lower }),
    )
    .unwrap();
    assert_eq!(data.find_nonce(contract), Some(Felt::from_u64(5)));
    assert!(matches!(
        data.find_storage_value(contract, Felt::from_u64(2)),
        Some(FoundStorageValue::Written(v)) if v == Felt::from_u64(3)
    ));
    // A contract that is deployed here has no other storage.
    assert!(matches!(
        data.find_storage_value(Felt::from_u64(0xd), Felt::from_u64(2)),
        Some(FoundStorageValue::Zero)
    ));
    assert!(data.find_storage_value(contract, Felt::from_u64(9)).is_none());
    assert_eq!(data.find_contract_class(Felt::from_u64(0xd)), Some(Felt::from_u64(0xe)));
    assert!(!data.class_is_declared(Felt::from_u64(0xe)));
    assert_eq!(data.find_transaction(Felt::from_u64(2)).unwrap().content, vec![2]);
    assert_eq!(data.pre_latest_block_number(), Some(7));
    assert_eq!(data.pre_latest_transactions().unwrap().len(), 1);
    assert_eq!(data.pre_latest_tx_receipts_and_events().unwrap().len(), 1);
    assert_eq!(data.pre_latest_block().unwrap().parent_hash, Felt::from_u64(6));
    assert_eq!(data.pre_latest_header().unwrap().timestamp, 88);
    assert_eq!(data.pre_confirmed_state_update().data.contract_updates.len(), 2);
    assert_eq!(data.aggregated_state_update().data.contract_updates.len(), 2);
    assert!(data.pending_block().pre_latest.is_some());
    *data.pre_confirmed_block_number_mut() = 20;
    assert_eq!(data.pre_confirmed_block_number(), 20);
}

fn data_at(number: u64) -> PendingData {
    let header = BlockHeader { number: number - 1, ..BlockHeader::default() };
    PendingData::empty(&header)
}

#[test]
fn a_fresh_cache_is_read_at_once() {
    let mut cache = PreConfirmedCache::new();
    assert_eq!(cache.cold_start_timeout, DEFAULT_COLD_START_TIMEOUT);
    cache.store(data_at(5));
    assert!(!cache.take_read_signal());
    let ReadStep::Ready(data) = cache.begin_read() else {
        panic!("fresh data is read at once");
    };
    assert_eq!(data.number, 5);
    assert!(cache.take_read_signal());
    assert!(!cache.take_read_signal());
    assert_eq!(cache.subscribe().number, 5);
}

#[test]
fn a_stale_cache_is_read_after_the_next_refresh() {
    let mut cache = PreConfirmedCache::with_cold_start_timeout(10);
    cache.store(data_at(5));
    assert!(cache.mark_idle());
    assert!(!cache.mark_idle());
    let ReadStep::Wait(since) = cache.begin_read() else {
        panic!("stale data is waited for");
    };
    assert!(matches!(
        cache.continue_read(since, WaitEvent::Changed),
        Ok(ReadStep::Wait(s)) if s == since
    ));
    cache.refresh();
    assert!(matches!(
        cache.continue_read(since, WaitEvent::Changed),
        Ok(ReadStep::Ready(data)) if data.number == 5
    ));
    // Stale again before the reader looked: the refresh still counts.
    cache.mark_idle();
    assert!(matches!(
        cache.continue_read(since, WaitEvent::Changed),
        Ok(ReadStep::Ready(_))
    ));
    assert!(matches!(
        cache.continue_read(since, WaitEvent::TimedOut),
        Err(ReadFailure::TimedOut)
    ));
    assert!(matches!(
        cache.continue_read(since, WaitEvent::Disconnected),
        Err(ReadFailure::Disconnected)
    ));
}
