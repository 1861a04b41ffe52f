//! Polling the gateway for the block that is being built.
use std::sync::Arc;

use pathfinder::felt::Felt;
use pathfinder::pending::blocks::{
    GasPrices, GatewayBlock, L1DataAvailabilityMode, Receipt, StarknetVersion, Status,
    Transaction, TxnReceiptAndEvents,
};
use pathfinder::pending::data::PendingData;
use pathfinder::pending::poll::{
    apply, delta_cursor, plan_poll, resolve_poll, should_suspend, HeldView, PollAction, PollPlan,
    PreConfirmedPollResponse,
};

const IN_SYNC: u64 = 6;

fn sample_tx(i: usize) -> Arc<Transaction> {
    let hash = match i {
        0 => Felt::from_u64(0x1),
        1 => Felt::from_u64(0x2),
        _ => Felt::from_u64(0x3),
    };
    Arc::new(Transaction { hash, content: vec![] })
}

fn sample_receipt(hash: Felt, index: u64) -> Option<Arc<TxnReceiptAndEvents>> {
    Some(Arc::new(TxnReceiptAndEvents {
        receipt: Receipt { transaction_hash: hash, transaction_index: index, content: vec![] },
        events: vec![],
    }))
}

/// A pre-confirmed block with `n` receipted transactions.
fn pre_confirmed(n: usize) -> GatewayBlock {
    let free = GasPrices { price_in_wei: 0, price_in_fri: 0 };
    let transactions: Vec<_> = (0..n).map(sample_tx).collect();
    let transaction_receipts = transactions
        .iter()
        .enumerate()
        .map(|(i, t)| sample_receipt(t.hash, i as u64))
        .collect();
    GatewayBlock {
        l1_gas_price: free,
        l1_data_gas_price: free,
        l2_gas_price: free,
        sequencer_address: Felt::new_zero(),
        status: Status::PreConfirmed,
        timestamp: 0,
        starknet_version: StarknetVersion::new(0, 0, 0, 0),
        l1_da_mode: L1DataAvailabilityMode::Calldata,
        transactions,
        transaction_receipts,
        transaction_state_diffs: vec![None; n],
    }
}

fn full(block: GatewayBlock) -> PreConfirmedPollResponse {
    PreConfirmedPollResponse::Full { identifier: "id".into(), block_number: None, block }
}

fn published(action: PollAction) -> PendingData {
    match action {
        PollAction::Publish(data) => data,
        PollAction::MarkFresh => panic!("a view should be published"),
    }
}

fn committed_hash() -> Felt {
    Felt::from_u64(0xc0)
}

#[test]
fn stores_chained_view_when_pre_latest_present() {
    let mut held = None;
    let stored = published(resolve_poll(
        &mut held,
        100,
        committed_hash(),
        Some(full(pre_confirmed(1))),
        Some(full(pre_confirmed(2))),
    ));
    assert_eq!(stored.pre_confirmed_block_number(), 102);
    assert_eq!(stored.pre_latest_block_number(), Some(101));
    assert_eq!(stored.pre_confirmed_transactions().len(), 2);
    assert_eq!(stored.pre_latest_block().unwrap().parent_hash, committed_hash());
}

#[test]
fn serves_pre_latest_alone_when_nothing_above_it() {
    let mut held = None;
    let stored = published(resolve_poll(
        &mut held,
        100,
        committed_hash(),
        Some(full(pre_confirmed(1))),
        None,
    ));
    assert_eq!(stored.pre_confirmed_block_number(), 101);
    assert_eq!(stored.pre_latest_block_number(), None);
}

#[test]
fn retains_last_good_view_on_fetch_failure() {
    let mut held = None;
    let first = published(resolve_poll(
        &mut held,
        100,
        committed_hash(),
        Some(full(pre_confirmed(1))),
        Some(full(pre_confirmed(2))),
    ));
    assert_eq!(first.pre_confirmed_block_number(), 102);

    // The settled block cannot be fetched any more: the view stays, and counts as fresh.
    for _ in 0..3 {
        let action = resolve_poll(
            &mut held,
            100,
            committed_hash(),
            None,
            Some(full(pre_confirmed(2))),
        );
        assert!(matches!(action, PollAction::MarkFresh));
    }
    assert_eq!(held.unwrap().number, 102);
}

#[test]
fn marks_syncing_when_far_behind_head() {
    // Our head is genesis; the chain head is well past the in-sync threshold.
    assert!(matches!(plan_poll(&None, 0, 100, IN_SYNC), PollPlan::Syncing));
    assert!(matches!(plan_poll(&None, 0, 7, IN_SYNC), PollPlan::Syncing));
    assert!(matches!(
        plan_poll(&None, 0, 6, IN_SYNC),
        PollPlan::Fetch {
            pre_latest_height: 1,
            pre_confirmed_height: 2,
            cursor_id: None,
            cursor_count: 0
        }
    ));
}

fn held_at(height: u64) -> Option<HeldView> {
    Some(HeldView { number: height, identifier: "id".into(), block: pre_confirmed(1) })
}

fn delta(identifier: &str) -> PreConfirmedPollResponse {
    let second = sample_tx(1);
    PreConfirmedPollResponse::Delta {
        identifier: identifier.into(),
        new_transactions: vec![second.clone()],
        new_receipts: vec![sample_receipt(second.hash, 1)],
        new_state_diffs: vec![None],
    }
}

#[test]
fn delta_appends_to_the_tracked_block() {
    let height = 102;

    // We already hold a block with one transaction.
    let mut held = held_at(height);

    // A delta with a second transaction, tagged with the same identifier.
    let republished = apply(&mut held, height, delta("id"));

    assert!(republished, "a delta with new transactions refreshes the view");
    assert_eq!(held.unwrap().block.transactions.len(), 2);
}

#[test]
fn a_delta_for_another_view_is_ignored() {
    let mut held = held_at(102);
    assert!(!apply(&mut held, 102, delta("other")));
    assert!(!apply(&mut held, 103, delta("id")));
    assert!(!apply(&mut held, 102, PreConfirmedPollResponse::Unchanged));
    assert_eq!(held.unwrap().block.transactions.len(), 1);
    let mut nothing = None;
    assert!(!apply(&mut nothing, 102, delta("id")));
    assert!(nothing.is_none());
}

#[test]
fn a_repeated_full_view_is_no_change() {
    let mut held = held_at(102);
    assert!(!apply(&mut held, 102, full(pre_confirmed(1))));
    assert!(apply(&mut held, 102, full(pre_confirmed(2))));
    assert!(apply(&mut held, 103, full(pre_confirmed(1))));
    assert_eq!(held.unwrap().number, 103);
}

#[test]
fn only_what_is_new_is_asked_for() {
    let held = held_at(102);
    assert_eq!(delta_cursor(&held, 102), (Some("id".to_string()), 1));
    assert_eq!(delta_cursor(&held, 103), (None, 0));
    assert_eq!(delta_cursor(&None, 102), (None, 0));
    assert!(matches!(
        plan_poll(&held, 100, 100, IN_SYNC),
        PollPlan::Fetch { pre_confirmed_height: 102, cursor_id: Some(id), cursor_count: 1, .. }
            if id == "id"
    ));
}

#[test]
fn a_view_with_unexecuted_transactions_is_not_published() {
    let mut candidates = pre_confirmed(2);
    candidates.transaction_receipts[1] = None;
    let mut held = None;
    let action = resolve_poll(
        &mut held,
        100,
        committed_hash(),
        Some(full(pre_confirmed(1))),
        Some(full(candidates)),
    );
    assert!(matches!(action, PollAction::MarkFresh));
}

#[test]
fn polling_is_suspended_while_nobody_reads() {
    assert!(should_suspend(true, 0));
    assert!(!should_suspend(true, 1));
    assert!(!should_suspend(false, 0));
}
