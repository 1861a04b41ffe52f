//! Dropping old blocks and what later ones make obsolete.
use pathfinder::felt::Felt;
use pathfinder::state_update::{ContractClassUpdate, StateUpdateData};
use pathfinder::storage::columns::{Column, KeyValues};
use pathfinder::storage::keys::{nonce_entry_key, storage_entry_key};
use pathfinder::storage::runs::seek_run;
use pathfinder::storage::store::Batch;
use pathfinder::storage::transaction::{Transaction, TriePruneMode};

const RANGE_LEN: u64 = 8192;

fn count_prefix(column: &KeyValues, prefix: &[u8]) -> usize {
    let mut i = column.seek(prefix);
    let mut n = 0;
    while i < column.len() {
        if !column.key_at(i).starts_with(prefix) {
            break;
        }
        n += 1;
        i += 1;
    }
    n
}

#[test]
fn prune_block_removes_rocksdb_nonce_and_storage_entries() {
    let mut tx = Transaction::in_memory_with_trie_pruning(TriePruneMode::Archive);
    let contract = Felt::from_u64(0xc);
    let storage_key = Felt::from_u64(0x2);

    // Two blocks that change the same entry, so that the older one becomes prunable.
    let mut last = StateUpdateData::new();
    for (n, val) in [(1u64, 0x10u64), (2, 0x20)] {
        tx.blocks.block_headers.push(n);
        let mut update = StateUpdateData::new();
        update.set_storage(contract, storage_key, Felt::from_u64(val));
        update.set_nonce(contract, Felt::from_u64(1));
        let mut batch = Batch::new();
        batch.put(
            Column::StorageUpdates,
            storage_entry_key(n, &contract, &storage_key),
            Felt::from_u64(val).to_be_bytes(),
        );
        batch.put(
            Column::NonceUpdates,
            nonce_entry_key(n, &contract),
            Felt::from_u64(1).to_be_bytes(),
        );
        tx.store.write(&batch);
        last = update;
    }

    let prefix = contract.to_be_bytes();
    let storage_before = count_prefix(tx.store.column(Column::StorageUpdates), &prefix);
    let nonce_before = count_prefix(tx.store.column(Column::NonceUpdates), &prefix);
    assert!(storage_before >= 2, "storage entries before pruning: {storage_before}");
    assert!(nonce_before >= 2, "nonce entries before pruning: {nonce_before}");

    // Prune block 1.
    tx.prune_block(1, Some(&last), RANGE_LEN);
    tx.flush_rocksdb_batch();

    let storage_after = count_prefix(tx.store.column(Column::StorageUpdates), &prefix);
    let nonce_after = count_prefix(tx.store.column(Column::NonceUpdates), &prefix);
    assert_eq!(storage_after, storage_before - 1, "block 1 storage entry not pruned");
    assert_eq!(nonce_after, nonce_before - 1, "block 1 nonce entry not pruned");
    assert_eq!(tx.blocks.block_headers, vec![2]);
}

#[test]
fn entries_that_no_later_block_changes_stay() {
    let mut tx = Transaction::in_memory_with_trie_pruning(TriePruneMode::Archive);
    let contract = Felt::from_u64(3);
    let other = Felt::from_u64(4);
    let mut batch = Batch::new();
    batch.put(Column::NonceUpdates, nonce_entry_key(1, &contract), vec![1]);
    batch.put(Column::NonceUpdates, nonce_entry_key(1, &other), vec![1]);
    tx.store.write(&batch);
    let mut next = StateUpdateData::new();
    next.set_nonce(contract, Felt::from_u64(2));
    next.set_class(other, ContractClassUpdate::Deploy(Felt::from_u64(9)));
    tx.prune_block(1, Some(&next), RANGE_LEN);
    tx.flush_rocksdb_batch();
    assert!(tx.store.column(Column::NonceUpdates).get(&nonce_entry_key(1, &contract)).is_none());
    assert!(tx.store.column(Column::NonceUpdates).get(&nonce_entry_key(1, &other)).is_some());
}

#[test]
fn filters_and_class_changes_are_pruned_with_their_block() {
    let mut tx = Transaction::in_memory_with_trie_pruning(TriePruneMode::Archive);
    let a = Felt::from_u64(1);
    let b = Felt::from_u64(2);
    tx.blocks.event_filters = vec![9, 19];
    tx.blocks.contract_updates = vec![(a, 3), (b, 4), (a, 10), (a, 12)];
    tx.prune_block(8, None, 10);
    assert_eq!(tx.blocks.event_filters, vec![9, 19]);
    tx.prune_block(9, None, 10);
    assert_eq!(tx.blocks.event_filters, vec![19]);
    assert_eq!(tx.blocks.contract_updates, vec![(b, 4), (a, 10), (a, 12)]);
    assert_eq!(tx.batch.ops.len(), 0);
}

#[test]
fn a_run_starts_at_its_first_key() {
    let mut column = KeyValues::new();
    column.put(vec![1, 5], vec![]);
    column.put(vec![2, 1], vec![]);
    column.put(vec![2, 7], vec![]);
    assert_eq!(seek_run(&column, &[2, 0], &[2]), Some(1));
    assert_eq!(seek_run(&column, &[2, 2], &[2]), Some(2));
    assert_eq!(seek_run(&column, &[2, 8], &[2]), None);
    assert_eq!(seek_run(&column, &[1, 6], &[1]), None);
    column.delete(&[2, 1]);
    column.delete_range(&[1, 0], &[2, 0]);
    assert_eq!(column.len(), 1);
    assert_eq!(column.key_at(0), &vec![2, 7]);
    let copy = column.copy();
    assert_eq!(copy.value_at(0), &Vec::<u8>::new());
}
