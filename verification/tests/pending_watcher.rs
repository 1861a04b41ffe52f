//! Pending data held against the latest stored block, and blocks taken over from the gateway.
use std::sync::Arc;

use pathfinder::felt::Felt;
use pathfinder::pending::blocks::{
    BlockHeader, GasPrices, GatewayBlock, L1DataAvailabilityMode, PreConfirmedBlock,
    PreLatestBlock, PreLatestData, Receipt, StarknetVersion, StateUpdate, Status, Transaction,
    TxnReceiptAndEvents,
};
use pathfinder::pending::data::{
    find_finalized_tx_data, PendingBlocks, PendingData, PreLatestReply, TxnFinalityStatus,
};
use pathfinder::pending::watcher::{uses_pre_confirmed, PendingWatcher, RpcVersion};
use pathfinder::state_update::StateUpdateData;

fn felt(bytes: &[u8]) -> Felt {
    Felt::from_be_slice(bytes).unwrap()
}

fn free() -> GasPrices {
    GasPrices { price_in_wei: 0, price_in_fri: 0 }
}

fn sample_tx(hash: Felt) -> Arc<Transaction> {
    Arc::new(Transaction { hash, content: vec![] })
}

fn sample_receipt(hash: Felt) -> Arc<TxnReceiptAndEvents> {
    Arc::new(TxnReceiptAndEvents {
        receipt: Receipt { transaction_hash: hash, transaction_index: 0, content: vec![] },
        events: vec![],
    })
}

fn nonce_update(address: &[u8], nonce: &[u8]) -> StateUpdate {
    let mut data = StateUpdateData::new();
    data.set_nonce(felt(address), felt(nonce));
    StateUpdate::from_data(data)
}

fn latest_block() -> BlockHeader {
    BlockHeader {
        hash: felt(b"latest hash"),
        eth_l1_gas_price: 1234,
        strk_l1_gas_price: 3377,
        timestamp: 6777,
        ..BlockHeader::default()
    }
}

fn parent_block(hash: &[u8]) -> BlockHeader {
    BlockHeader { hash: felt(hash), number: 12, ..BlockHeader::default() }
}

fn child_of(parent: &BlockHeader, hash: &[u8]) -> BlockHeader {
    BlockHeader {
        hash: felt(hash),
        parent_hash: parent.hash,
        number: parent.number + 1,
        eth_l1_gas_price: 1234,
        strk_l1_gas_price: 3377,
        eth_l1_data_gas_price: 9999,
        strk_l1_data_gas_price: 8888,
        l1_da_mode: L1DataAvailabilityMode::Blob,
        timestamp: 6777,
        sequencer_address: Felt::from_u64(0xffff),
        ..BlockHeader::default()
    }
}

fn pre_confirmed_block(
    number: u64,
    transactions: Vec<Arc<Transaction>>,
    transaction_receipts: Vec<Arc<TxnReceiptAndEvents>>,
) -> PreConfirmedBlock {
    PreConfirmedBlock {
        number,
        l1_gas_price: free(),
        l1_data_gas_price: free(),
        l2_gas_price: free(),
        sequencer_address: Felt::from_u64(0x1234),
        status: Status::PreConfirmed,
        timestamp: 112233,
        starknet_version: StarknetVersion::new(0, 14, 0, 0),
        l1_da_mode: L1DataAvailabilityMode::Blob,
        transactions,
        transaction_receipts,
    }
}

fn valid_pre_confirmed_block(latest: &BlockHeader) -> PendingData {
    let state_update = Arc::new(nonce_update(b"contract address", b"nonce"));
    PendingData {
        blocks: Arc::new(PendingBlocks {
            pre_confirmed: Arc::new(pre_confirmed_block(latest.number + 1, vec![], vec![])),
            pre_latest: None,
        }),
        state_update: Arc::clone(&state_update),
        aggregated_state_update: state_update,
        number: latest.number + 1,
    }
}

fn valid_pre_confirmed_block_with_pre_latest(latest: &BlockHeader) -> PendingData {
    let zero = Felt::new_zero();
    let pre_latest_block = PreLatestBlock {
        number: latest.number + 1,
        parent_hash: latest.hash,
        l1_gas_price: free(),
        l1_data_gas_price: free(),
        l2_gas_price: free(),
        sequencer_address: Felt::from_u64(0x1234),
        status: Status::Pending,
        timestamp: 112233,
        starknet_version: StarknetVersion::new(0, 14, 0, 0),
        l1_da_mode: L1DataAvailabilityMode::Blob,
        transactions: vec![sample_tx(zero)],
        transaction_receipts: vec![sample_receipt(zero)],
    };
    let pre_latest_state_update = nonce_update(b"pre latest contract address", b"pre latest nonce");
    let pre_confirmed_state_update = nonce_update(b"contract address", b"nonce");
    let aggregated_state_update = pre_latest_state_update.apply(&pre_confirmed_state_update);

    PendingData {
        blocks: Arc::new(PendingBlocks {
            pre_confirmed: Arc::new(pre_confirmed_block(
                latest.number + 2,
                vec![sample_tx(zero)],
                vec![sample_receipt(zero)],
            )),
            pre_latest: Some(PreLatestData {
                block: Arc::new(pre_latest_block),
                state_update: Arc::new(pre_latest_state_update),
            }),
        }),
        state_update: Arc::new(pre_confirmed_state_update),
        aggregated_state_update: Arc::new(aggregated_state_update),
        number: latest.number + 2,
    }
}

fn watcher(pending: &PendingData) -> PendingWatcher {
    PendingWatcher::new(Arc::new(pending.copy()))
}

/// Every part of the data is written out in it.
fn written(data: &PendingData) -> String {
    format!("{data:?}")
}

#[test]
fn valid_pre_confirmed() {
    let latest = latest_block();
    let pending = valid_pre_confirmed_block(&latest);
    let result = watcher(&pending).get(Some(latest), RpcVersion::V09);
    assert_eq!(written(&result), written(&pending));
}

#[test]
fn valid_pre_confirmed_with_pre_latest() {
    let parent = parent_block(b"parent hash");
    let latest = child_of(&parent, b"latest hash");

    // The pre-latest block is `latest + 1`, which is valid.
    let pending = valid_pre_confirmed_block_with_pre_latest(&latest);
    let result = watcher(&pending).get(Some(latest), RpcVersion::V09);
    assert_eq!(written(&result), written(&pending));

    // The pre-latest block is `latest`, which is valid too, but not pending any more.
    let pending = valid_pre_confirmed_block_with_pre_latest(&parent);
    let result = watcher(&pending).get(Some(latest), RpcVersion::V09);
    assert!(!result.pre_confirmed_transactions().is_empty());
    assert!(result.pre_latest_block().is_none());
}

#[test]
fn valid_pre_confirmed_is_not_used_for_old_rpc_versions() {
    let latest = latest_block();
    let pending = valid_pre_confirmed_block(&latest);
    let uut = watcher(&pending);
    let expected_empty_pending_data = PendingData::empty(&latest);

    let result = uut.get(Some(latest), RpcVersion::V06);
    assert_eq!(written(&result), written(&expected_empty_pending_data));
    let result = uut.get(Some(latest), RpcVersion::V07);
    assert_eq!(written(&result), written(&expected_empty_pending_data));
    let result = uut.get(Some(latest), RpcVersion::V08);
    assert_eq!(written(&result), written(&expected_empty_pending_data));
}

#[test]
fn valid_pre_confirmed_with_pre_latest_is_not_used_for_old_rpc_versions() {
    let latest = latest_block();
    let pending = valid_pre_confirmed_block_with_pre_latest(&latest);
    let uut = watcher(&pending);
    let expected_empty_pending_data = PendingData::empty(&latest);

    let result = uut.get(Some(latest), RpcVersion::V06);
    assert_eq!(written(&result), written(&expected_empty_pending_data));
    let result = uut.get(Some(latest), RpcVersion::V07);
    assert_eq!(written(&result), written(&expected_empty_pending_data));
    let result = uut.get(Some(latest), RpcVersion::V08);
    assert_eq!(written(&result), written(&expected_empty_pending_data));
}

#[test]
fn invalid_pending_defaults_to_latest_in_storage() {
    let parent = parent_block(b"parent hash");
    let latest = child_of(&parent, b"latest hash");

    let result = watcher(&PendingData::default()).get(Some(latest), RpcVersion::V09);
    assert_eq!(written(&result), written(&PendingData::empty(&latest)));
}

fn empty_pre_confirmed_block(latest: &BlockHeader) -> PendingData {
    let pre_confirmed = PreConfirmedBlock {
        number: latest.number + 1,
        l1_gas_price: GasPrices {
            price_in_wei: latest.eth_l1_gas_price,
            price_in_fri: latest.strk_l1_gas_price,
        },
        l1_data_gas_price: GasPrices {
            price_in_wei: latest.eth_l1_data_gas_price,
            price_in_fri: latest.strk_l1_data_gas_price,
        },
        l2_gas_price: GasPrices {
            price_in_wei: latest.eth_l2_gas_price,
            price_in_fri: latest.strk_l2_gas_price,
        },
        sequencer_address: latest.sequencer_address,
        status: Status::PreConfirmed,
        timestamp: latest.timestamp,
        starknet_version: latest.starknet_version,
        l1_da_mode: latest.l1_da_mode,
        transactions: vec![],
        transaction_receipts: vec![],
    };
    PendingData::from_parts(
        PendingBlocks { pre_confirmed: Arc::new(pre_confirmed), pre_latest: None },
        StateUpdate::default(),
        StateUpdate::default(),
        latest.number + 1,
    )
}

#[test]
fn invalid_pre_confirmed_defaults_to_latest_in_storage() {
    let parent = parent_block(b"parent hash");
    let latest = child_of(&parent, b"latest hash");

    let pending = valid_pre_confirmed_block(&parent);
    let result = watcher(&pending).get(Some(latest), RpcVersion::V09);
    assert_eq!(written(&result), written(&empty_pre_confirmed_block(&latest)));
}

#[test]
fn invalid_pre_confirmed_with_pre_latest_defaults_to_latest_in_storage() {
    let parent1 = parent_block(b"parent1 hash");
    let parent2 = child_of(&parent1, b"paren2 hash");
    let latest = child_of(&parent2, b"latest hash");

    // The pre-latest block is behind the latest one.
    let pending = valid_pre_confirmed_block_with_pre_latest(&parent1);
    let result = watcher(&pending).get(Some(latest), RpcVersion::V09);
    assert_eq!(written(&result), written(&empty_pre_confirmed_block(&latest)));
}

#[test]
fn the_lowest_update_starts_from_the_latest_state() {
    let mut latest = latest_block();
    latest.state_commitment = Felt::from_u64(77);
    let pending = valid_pre_confirmed_block_with_pre_latest(&latest);
    let uut = watcher(&pending);
    let result = uut.get(Some(latest), RpcVersion::V10);
    let pre_latest = result.blocks.pre_latest.as_ref().unwrap();
    assert_eq!(pre_latest.state_update.parent_state_commitment, Felt::from_u64(77));
    assert_eq!(result.state_update.parent_state_commitment, Felt::new_zero());
    assert!(Arc::ptr_eq(&uut.subscribe().blocks, &pending.blocks));
    // Without any stored block the first one is empty.
    let result = watcher(&PendingData::default()).get(None, RpcVersion::V06);
    assert_eq!(result.number, 1);
    assert!(uses_pre_confirmed(RpcVersion::PathfinderV01));
}

fn gateway_block(
    transactions: Vec<Arc<Transaction>>,
    receipts: Vec<Arc<TxnReceiptAndEvents>>,
) -> GatewayBlock {
    let len = transactions.len().max(receipts.len());
    GatewayBlock {
        l1_gas_price: free(),
        l1_data_gas_price: free(),
        l2_gas_price: free(),
        sequencer_address: Felt::new_zero(),
        status: Status::NotReceived,
        timestamp: 0,
        starknet_version: StarknetVersion::new(0, 0, 0, 0),
        l1_da_mode: L1DataAvailabilityMode::Calldata,
        transactions,
        transaction_receipts: receipts.into_iter().map(Some).collect(),
        transaction_state_diffs: vec![None; len],
    }
}

fn unwrap_pre_confirmed_err(
    transactions: Vec<Arc<Transaction>>,
    receipts: Vec<Arc<TxnReceiptAndEvents>>,
) -> String {
    PendingData::try_from_pre_confirmed_block(&gateway_block(transactions, receipts), 1)
        .unwrap_err()
        .message()
}

/// A hash as text: all of its digits, in upper case.
fn text_of(hash: Felt) -> String {
    let digits: Vec<String> = hash.to_be_bytes().iter().map(|b| format!("{b:02X}")).collect();
    format!("0x{}", digits.concat())
}

#[test]
fn pre_confirmed_block_with_tx_missing_receipt() {
    let tx_hash = felt(b"tx a");
    let err =
        unwrap_pre_confirmed_err(vec![sample_tx(tx_hash)], vec![sample_receipt(felt(b"tx b"))]);
    assert_eq!(err, format!("Missing transaction receipt for tx ({})", text_of(tx_hash)));
}

#[test]
fn pre_confirmed_block_with_more_txs_than_receipts() {
    let tx_b_hash = felt(b"tx b");
    let err = unwrap_pre_confirmed_err(
        vec![sample_tx(felt(b"tx a")), sample_tx(tx_b_hash)],
        vec![sample_receipt(felt(b"tx a"))],
    );
    assert_eq!(err, format!("Missing transaction receipt for tx ({})", text_of(tx_b_hash)));
}

#[test]
fn pre_confirmed_block_with_more_receipts_than_txs() {
    let err = unwrap_pre_confirmed_err(
        vec![sample_tx(felt(b"tx a"))],
        vec![sample_receipt(felt(b"tx a")), sample_receipt(felt(b"tx b"))],
    );
    assert_eq!(err, "Mismatched transaction and receipt count in pre-confirmed block");
}

#[test]
fn converted_transactions_are_found_with_their_receipts() {
    let (a, b) = (felt(b"tx a"), felt(b"tx b"));
    let upper = gateway_block(vec![sample_tx(a)], vec![sample_receipt(a)]);
    let lower = gateway_block(vec![sample_tx(b)], vec![sample_receipt(b)]);
    let data = PendingData::try_from_pre_confirmed_and_pre_latest(
        &upper,
        9,
        Some(PreLatestReply {
            number: 8,
            block: Arc::new(lower),
            parent_hash: Felt::from_u64(3),
        }),
    )
    .unwrap();
    assert_eq!(data.pre_confirmed_block_number(), 9);
    assert_eq!(data.pre_latest_block_number(), Some(8));
    let found = find_finalized_tx_data(&data, a).unwrap();
    assert_eq!((found.block_number, found.transaction.hash), (9, a));
    assert_eq!(found.receipt_and_events.receipt.transaction_hash, a);
    assert_eq!(found.finality_status, TxnFinalityStatus::PreConfirmed);
    let found = find_finalized_tx_data(&data, b).unwrap();
    assert_eq!(found.block_number, 8);
    assert!(find_finalized_tx_data(&data, felt(b"tx c")).is_none());
    let empty = PendingData::empty(&latest_block());
    assert!(find_finalized_tx_data(&empty, a).is_none());
}

#[test]
fn state_changes_of_transactions_are_composed_in_order() {
    let diff = |nonce: u64| {
        let mut data = StateUpdateData::new();
        data.set_nonce(Felt::from_u64(1), Felt::from_u64(nonce));
        Some(Arc::new(data))
    };
    let a = felt(b"tx a");
    let mut block = gateway_block(vec![sample_tx(a)], vec![sample_receipt(a)]);
    block.transaction_state_diffs = vec![diff(5), None, diff(6)];
    let data = PendingData::try_from_pre_confirmed_block(&block, 4).unwrap();
    assert_eq!(data.state_update.data.contract_nonce(Felt::from_u64(1)), Some(Felt::from_u64(6)));
    assert_eq!(
        data.aggregated_state_update.data.contract_nonce(Felt::from_u64(1)),
        Some(Felt::from_u64(6))
    );
}
