//! Bringing the key-value store back to what the relational store confirms.
use pathfinder::felt::Felt;
use pathfinder::state_update::StateUpdateData;
use pathfinder::storage::codec::{StoredNode, TrieStorageIndex};
use pathfinder::storage::columns::Column;
use pathfinder::storage::keys::{nonce_entry_key, storage_entry_key};
use pathfinder::storage::reconcile::{
    highest_block, orphaned_blocks, read_trie_next_index, reconcile_rocksdb_with_sqlite,
    reconciliation, FoundTrie, NextIndices, OrphanedBlock, ReconcileError, RootRows,
};
use pathfinder::storage::store::{Batch, Store};
use pathfinder::storage::tail_search::{
    decode_stored_node_with_hash, dfs_confirmed_tail, EntryError,
};
use pathfinder::storage::transaction::{Transaction, TriePruneMode};
use pathfinder::storage::trie::{Node, TrieColumn, TrieUpdate, TRIE_CLASS_COLUMN};

const TRIES: [TrieColumn; 3] = [TrieColumn::Class, TrieColumn::Contract, TrieColumn::Storage];

fn index(value: u64) -> TrieStorageIndex {
    TrieStorageIndex::new(value).unwrap()
}

fn put(store: &mut Store, column: Column, key: &[u8], value: &[u8]) {
    let mut batch = Batch::new();
    batch.put(column, key.to_vec(), value.to_vec());
    store.write(&batch);
}

/// Stores a node behind 32 bytes of hash.
fn write_stored_node(store: &mut Store, t: TrieColumn, idx: u64, node: &StoredNode) {
    let mut value = vec![0u8; 32];
    value.extend(node.to_bytes());
    put(store, t.column(), &idx.to_be_bytes(), &value);
}

fn seed_trie_next_index(store: &mut Store, t: TrieColumn, value: u64) {
    put(store, Column::TrieNextIndex, &t.next_index_key(), &value.to_be_bytes());
}

fn disk_counter(store: &Store, t: TrieColumn) -> u64 {
    let raw = store.column(Column::TrieNextIndex).get(&t.next_index_key());
    read_trie_next_index(raw, t).unwrap().expect("counter present")
}

fn memory_counter(next: &NextIndices, t: TrieColumn) -> u64 {
    next.get(t)
}

fn present(store: &Store, t: TrieColumn, idx: u64) -> bool {
    store.column(t.column()).get(&idx.to_be_bytes()).is_some()
}

fn fresh() -> NextIndices {
    NextIndices { class: 0, contract: 0, storage: 0 }
}

fn no_rows() -> RootRows {
    RootRows { class: None, contract: None, storage: None }
}

fn all_rows(root: i64, block: u64) -> RootRows {
    RootRows {
        class: Some((root, block)),
        contract: Some((root, block)),
        storage: Some((root, block)),
    }
}

#[test]
fn reconcile_rocksdb_purges_orphaned_blocks() {
    let mut store = Store::new();
    // Block 5 is in both stores.
    put(&mut store, Column::StateUpdates, &5u64.to_be_bytes(), b"dummy5");

    // Block 6 is in the key-value store alone.
    let key = 6u64.to_be_bytes();
    put(&mut store, Column::StateUpdates, &key, b"dummy");
    put(&mut store, Column::TransactionsAndReceipts, &key, b"dummy");
    put(&mut store, Column::Events, &key, b"dummy");
    let tx_hash = Felt::from_be_slice(&[0x0a, 0xbc]).unwrap();
    let mut value = [0u8; 10];
    value[..8].copy_from_slice(&key);
    value[8..].copy_from_slice(&0u16.to_be_bytes());
    put(&mut store, Column::TransactionHashes, &tx_hash.to_be_bytes(), &value);

    // The blobs of block 6 cannot be read.
    let orphans = vec![OrphanedBlock { transaction_hashes: None, state_update: None }];
    let mut next = fresh();
    reconcile_rocksdb_with_sqlite(&mut store, Some(5), &orphans, no_rows(), &mut next).unwrap();

    assert!(store.column(Column::StateUpdates).get(&key).is_none());
    assert!(store.column(Column::TransactionsAndReceipts).get(&key).is_none());
    assert!(store.column(Column::Events).get(&key).is_none());
    assert!(store.column(Column::StateUpdates).get(&5u64.to_be_bytes()).is_some());
    // The hashes are not known, so their entries stay.
    assert!(store.column(Column::TransactionHashes).get(&tx_hash.to_be_bytes()).is_some());
}

#[test]
fn readable_orphaned_blocks_are_purged_with_their_entries() {
    let mut store = Store::new();
    let contract = Felt::from_u64(7);
    let key = Felt::from_u64(8);
    let tx_hash = Felt::from_u64(9);
    let mut update = StateUpdateData::new();
    update.set_nonce(contract, Felt::from_u64(1));
    update.set_storage(contract, key, Felt::from_u64(2));
    put(&mut store, Column::StateUpdates, &0u64.to_be_bytes(), b"blob");
    put(&mut store, Column::TransactionHashes, &tx_hash.to_be_bytes(), b"where");
    put(&mut store, Column::NonceUpdates, &nonce_entry_key(0, &contract), b"n");
    put(&mut store, Column::StorageUpdates, &storage_entry_key(0, &contract, &key), b"s");
    let other = nonce_entry_key(1, &contract);
    put(&mut store, Column::NonceUpdates, &other, b"kept");

    let orphans = vec![OrphanedBlock {
        transaction_hashes: Some(vec![tx_hash]),
        state_update: Some(update),
    }];
    let mut next = fresh();
    reconcile_rocksdb_with_sqlite(&mut store, None, &orphans, no_rows(), &mut next).unwrap();

    assert_eq!(store.column(Column::StateUpdates).len(), 0);
    assert_eq!(store.column(Column::TransactionHashes).len(), 0);
    assert_eq!(store.column(Column::StorageUpdates).len(), 0);
    assert_eq!(store.column(Column::NonceUpdates).len(), 1);
    assert!(store.column(Column::NonceUpdates).get(&other).is_some());
}

fn crashed_store(root_k: u64) -> Store {
    let child_k = root_k + 1;
    let mut store = Store::new();
    for t in TRIES {
        write_stored_node(
            &mut store,
            t,
            root_k,
            &StoredNode::Binary { left: index(child_k), right: index(child_k) },
        );
        write_stored_node(&mut store, t, child_k, &StoredNode::LeafBinary);
        // Nodes of a batch that was never confirmed.
        for i in 0..3u64 {
            write_stored_node(&mut store, t, root_k + 2 + i, &StoredNode::LeafBinary);
        }
        seed_trie_next_index(&mut store, t, root_k + 5);
    }
    store
}

fn assert_crash_reconciled(store: &Store, next: &NextIndices, root_k: u64) {
    let child_k = root_k + 1;
    for t in TRIES {
        assert!(present(store, t, root_k));
        assert!(present(store, t, child_k));
        for i in 0..3u64 {
            assert!(!present(store, t, root_k + 2 + i));
        }
        assert_eq!(disk_counter(store, t), child_k + 1);
        assert_eq!(memory_counter(next, t), child_k + 1);
    }
}

#[test]
fn reconciles_orphan_trie_indices_across_all_three_cfs() {
    let root_k: u64 = 10;
    let mut store = crashed_store(root_k);
    let mut next = fresh();
    reconcile_rocksdb_with_sqlite(&mut store, Some(5), &vec![], all_rows(10, 5), &mut next)
        .unwrap();
    assert_crash_reconciled(&store, &next, root_k);
}

#[test]
fn idempotent_across_double_run() {
    let root_k: u64 = 10;
    let mut store = crashed_store(root_k);
    let mut next = fresh();
    reconcile_rocksdb_with_sqlite(&mut store, Some(5), &vec![], all_rows(10, 5), &mut next)
        .unwrap();
    reconcile_rocksdb_with_sqlite(&mut store, Some(5), &vec![], all_rows(10, 5), &mut next)
        .unwrap();
    assert_crash_reconciled(&store, &next, root_k);
}

#[test]
fn crash_affects_only_one_cf() {
    let mut store = Store::new();
    let clean_root = 10u64;
    for t in [TrieColumn::Class, TrieColumn::Contract] {
        write_stored_node(&mut store, t, clean_root, &StoredNode::LeafBinary);
        seed_trie_next_index(&mut store, t, clean_root + 1);
    }

    // Storage: confirmed at 10, orphans at 11, 12 and 13.
    write_stored_node(&mut store, TrieColumn::Storage, clean_root, &StoredNode::LeafBinary);
    for i in 0..3u64 {
        write_stored_node(&mut store, TrieColumn::Storage, 11 + i, &StoredNode::LeafBinary);
    }
    seed_trie_next_index(&mut store, TrieColumn::Storage, 14);

    let mut next = fresh();
    reconcile_rocksdb_with_sqlite(&mut store, Some(5), &vec![], all_rows(10, 5), &mut next)
        .unwrap();

    for t in [TrieColumn::Class, TrieColumn::Contract] {
        assert!(present(&store, t, clean_root));
        assert_eq!(disk_counter(&store, t), clean_root + 1);
        assert_eq!(memory_counter(&next, t), clean_root + 1);
    }
    assert!(present(&store, TrieColumn::Storage, clean_root));
    for i in 0..3u64 {
        assert!(!present(&store, TrieColumn::Storage, 11 + i));
    }
    assert_eq!(disk_counter(&store, TrieColumn::Storage), 11);
    assert_eq!(memory_counter(&next, TrieColumn::Storage), 11);
}

#[test]
fn clean_shutdown_dfs_finds_aligned_tail() {
    let mut store = Store::new();
    let root = 42u64;
    for t in TRIES {
        write_stored_node(
            &mut store,
            t,
            root,
            &StoredNode::Edge { child: index(root + 1), path: vec![true, false, true] },
        );
        write_stored_node(&mut store, t, root + 1, &StoredNode::LeafBinary);
        seed_trie_next_index(&mut store, t, root + 2);
    }
    put(&mut store, Column::StateUpdates, &5u64.to_be_bytes(), b"dummy5");

    let mut next = fresh();
    reconcile_rocksdb_with_sqlite(&mut store, Some(5), &vec![], all_rows(42, 5), &mut next)
        .unwrap();

    for t in TRIES {
        assert!(present(&store, t, root));
        assert!(present(&store, t, root + 1));
        assert_eq!(disk_counter(&store, t), root + 2);
        assert_eq!(memory_counter(&next, t), root + 2);
    }
}

#[test]
fn reorg_crash_reconciles_orphans() {
    let mut store = Store::new();
    // Headers up to block 10, state updates up to block 5.
    for b in 0..=5u64 {
        put(&mut store, Column::StateUpdates, &b.to_be_bytes(), b"dummy");
    }

    let k = 100u64;
    for t in TRIES {
        write_stored_node(&mut store, t, k, &StoredNode::LeafBinary);
        for i in 0..3u64 {
            write_stored_node(&mut store, t, k + 1 + i, &StoredNode::LeafBinary);
        }
        seed_trie_next_index(&mut store, t, k + 4);
    }

    let mut next = fresh();
    reconcile_rocksdb_with_sqlite(&mut store, Some(10), &vec![], all_rows(100, 10), &mut next)
        .unwrap();

    for t in TRIES {
        assert!(present(&store, t, k));
        for i in 0..3u64 {
            assert!(!present(&store, t, k + 1 + i));
        }
        assert_eq!(disk_counter(&store, t), k + 1);
        assert_eq!(memory_counter(&next, t), k + 1);
    }
}

#[test]
fn null_max_root_falls_back_safely() {
    let mut store = Store::new();
    for i in 1..3u64 {
        write_stored_node(&mut store, TrieColumn::Class, i, &StoredNode::LeafBinary);
    }
    seed_trie_next_index(&mut store, TrieColumn::Class, 3);

    // The one recorded root is that of an empty trie, so no row has an index.
    let mut next = fresh();
    reconcile_rocksdb_with_sqlite(&mut store, Some(5), &vec![], no_rows(), &mut next).unwrap();

    for i in 1..3u64 {
        assert!(present(&store, TrieColumn::Class, i));
    }
    assert_eq!(disk_counter(&store, TrieColumn::Class), 3);
    assert_eq!(memory_counter(&next, TrieColumn::Class), 3);
}

#[test]
fn corrupt_node_aborts_dfs_safely() {
    let rows = RootRows { class: Some((10, 5)), contract: None, storage: None };

    // No node at the root.
    let mut store = Store::new();
    seed_trie_next_index(&mut store, TrieColumn::Class, 15);
    write_stored_node(&mut store, TrieColumn::Class, 12, &StoredNode::LeafBinary);
    let mut next = fresh();
    reconcile_rocksdb_with_sqlite(&mut store, Some(5), &vec![], rows, &mut next).unwrap();
    assert!(!present(&store, TrieColumn::Class, 10));
    assert!(present(&store, TrieColumn::Class, 12));
    assert_eq!(disk_counter(&store, TrieColumn::Class), 15);
    assert_eq!(memory_counter(&next, TrieColumn::Class), 15);

    // An entry at the root that is shorter than a hash.
    let mut store = Store::new();
    seed_trie_next_index(&mut store, TrieColumn::Class, 15);
    put(&mut store, TRIE_CLASS_COLUMN, &10u64.to_be_bytes(), &[0u8; 20]);
    let mut next = fresh();
    reconcile_rocksdb_with_sqlite(&mut store, Some(5), &vec![], rows, &mut next).unwrap();
    assert!(present(&store, TrieColumn::Class, 10));
    assert_eq!(disk_counter(&store, TrieColumn::Class), 15);
    assert_eq!(memory_counter(&next, TrieColumn::Class), 15);
}

#[test]
fn genesis_window_empty_roots_non_zero_counter() {
    let mut store = Store::new();
    seed_trie_next_index(&mut store, TrieColumn::Class, 5);
    for i in 0..5u64 {
        write_stored_node(&mut store, TrieColumn::Class, i, &StoredNode::LeafBinary);
    }

    let mut next = fresh();
    reconcile_rocksdb_with_sqlite(&mut store, None, &vec![], no_rows(), &mut next).unwrap();

    for i in 0..5u64 {
        assert!(present(&store, TrieColumn::Class, i));
    }
    assert_eq!(disk_counter(&store, TrieColumn::Class), 5);
    assert_eq!(memory_counter(&next, TrieColumn::Class), 5);
}

#[test]
fn end_to_end_via_real_insert_trie() {
    let mut tx = Transaction::in_memory_with_trie_pruning(TriePruneMode::Archive);
    for b in 0..3u64 {
        let update = TrieUpdate {
            nodes_added: vec![(Felt::from_u64(1), Node::LeafBinary)],
            nodes_removed: vec![],
            root_commitment: Felt::from_u64(1),
        };
        let root_update = tx.insert_class_trie(&update, b).unwrap();
        tx.insert_class_root(b, root_update);
        tx.flush_rocksdb_batch();
    }
    let post_counter = disk_counter(&tx.store, TrieColumn::Class);
    assert!(post_counter >= 3, "post-insert counter must be >= 3, got {post_counter}");
    let root = tx.class_root_index(2).unwrap().unwrap();

    // A crashed batch: three nodes above the counter, and the counter bumped.
    for i in 0..3u64 {
        write_stored_node(
            &mut tx.store,
            TrieColumn::Class,
            post_counter + i,
            &StoredNode::LeafBinary,
        );
    }
    seed_trie_next_index(&mut tx.store, TrieColumn::Class, post_counter + 3);

    let rows = RootRows { class: Some((root.to_i64(), 2)), contract: None, storage: None };
    let mut next = tx.next;
    reconcile_rocksdb_with_sqlite(&mut tx.store, Some(2), &vec![], rows, &mut next).unwrap();

    for i in 0..3u64 {
        assert!(!present(&tx.store, TrieColumn::Class, post_counter + i));
    }
    assert_eq!(disk_counter(&tx.store, TrieColumn::Class), post_counter);
    assert_eq!(memory_counter(&next, TrieColumn::Class), post_counter);
}

#[test]
fn empty_rocksdb_and_empty_sqlite_are_noop() {
    let mut store = Store::new();
    let mut next = fresh();
    reconcile_rocksdb_with_sqlite(&mut store, None, &vec![], no_rows(), &mut next).unwrap();
    for t in TRIES {
        assert_eq!(memory_counter(&next, t), 0);
        assert_eq!(store.column(t.column()).len(), 0);
    }
    assert_eq!(store.column(Column::TrieNextIndex).len(), 0);
}

#[test]
fn stale_atomic_refreshed_after_migration_write() {
    let mut store = Store::new();
    let batch_base = 1229u64;
    let batch_size = 5u64;
    let t = TrieColumn::Class;

    write_stored_node(&mut store, t, 1229, &StoredNode::LeafBinary);
    write_stored_node(&mut store, t, 1230, &StoredNode::LeafBinary);
    write_stored_node(
        &mut store,
        t,
        1231,
        &StoredNode::Edge { child: index(1229), path: vec![true] },
    );
    write_stored_node(
        &mut store,
        t,
        1232,
        &StoredNode::Edge { child: index(1230), path: vec![false] },
    );
    write_stored_node(
        &mut store,
        t,
        1233,
        &StoredNode::Binary { left: index(1231), right: index(1232) },
    );
    seed_trie_next_index(&mut store, t, batch_base + batch_size);

    // The counter in memory is stale.
    let mut next = fresh();
    let rows = RootRows { class: Some((1233, 5)), contract: None, storage: None };
    reconcile_rocksdb_with_sqlite(&mut store, Some(5), &vec![], rows, &mut next).unwrap();

    for i in 0..batch_size {
        assert!(present(&store, t, batch_base + i));
    }
    assert_eq!(disk_counter(&store, t), batch_base + batch_size);
    assert_eq!(memory_counter(&next, t), batch_base + batch_size);
}

#[test]
fn a_root_far_below_the_highest_block_is_not_relied_on() {
    let mut store = crashed_store(10);
    let mut next = fresh();
    reconcile_rocksdb_with_sqlite(&mut store, Some(106), &vec![], all_rows(10, 5), &mut next)
        .unwrap();
    assert!(present(&store, TrieColumn::Class, 12));
    assert_eq!(next.class, 15);
    // One block nearer, it is.
    reconcile_rocksdb_with_sqlite(&mut store, Some(105), &vec![], all_rows(10, 5), &mut next)
        .unwrap();
    assert_crash_reconciled(&store, &next, 10);
}

#[test]
fn malformed_counters_and_keys_are_errors() {
    let mut store = Store::new();
    put(&mut store, Column::TrieNextIndex, &TrieColumn::Contract.next_index_key(), &[1, 2, 3]);
    let mut next = NextIndices { class: 4, contract: 5, storage: 6 };
    assert_eq!(
        reconcile_rocksdb_with_sqlite(&mut store, None, &vec![], no_rows(), &mut next),
        Err(ReconcileError::CounterLength(TrieColumn::Contract, 3))
    );
    assert_eq!(next, NextIndices { class: 0, contract: 5, storage: 6 });

    let mut store = Store::new();
    put(&mut store, Column::StateUpdates, b"short", b"blob");
    assert_eq!(
        reconcile_rocksdb_with_sqlite(&mut store, None, &vec![], no_rows(), &mut next),
        Err(ReconcileError::StateUpdateKeyLength)
    );
    assert_eq!(
        highest_block(store.column(Column::StateUpdates)),
        Err(ReconcileError::StateUpdateKeyLength)
    );
}

#[test]
fn orphaned_blocks_lie_above_the_highest_confirmed_one() {
    assert_eq!(orphaned_blocks(Some(5), Some(7)), Some((6, 7)));
    assert_eq!(orphaned_blocks(Some(5), Some(5)), None);
    assert_eq!(orphaned_blocks(Some(6), Some(5)), None);
    assert_eq!(orphaned_blocks(None, Some(2)), Some((0, 2)));
    assert_eq!(orphaned_blocks(Some(3), None), None);
    assert_eq!(orphaned_blocks(None, None), None);
}

#[test]
fn the_tail_is_the_highest_index_reached() {
    let mut store = Store::new();
    let t = TrieColumn::Storage;
    write_stored_node(
        &mut store,
        t,
        3,
        &StoredNode::Binary { left: index(9), right: index(4) },
    );
    write_stored_node(&mut store, t, 4, &StoredNode::LeafEdge { path: vec![true] });
    write_stored_node(&mut store, t, 9, &StoredNode::LeafBinary);
    let nodes = store.column(t.column());
    assert_eq!(dfs_confirmed_tail(nodes, index(3), 20).map(|i| i.get()), Some(9));
    assert_eq!(dfs_confirmed_tail(nodes, index(5), 20).map(|i| i.get()), None);
}

#[test]
fn an_entry_holds_a_hash_and_a_node() {
    assert!(matches!(decode_stored_node_with_hash(&[0u8; 31]), Err(EntryError::TooShort(31))));
    assert!(matches!(decode_stored_node_with_hash(&[0u8; 32]), Err(EntryError::Decoding(_))));
    let mut entry = vec![0u8; 32];
    entry.extend(StoredNode::LeafBinary.to_bytes());
    assert!(matches!(decode_stored_node_with_hash(&entry), Ok(StoredNode::LeafBinary)));
}

#[test]
fn a_reconciliation_follows_from_what_was_found() {
    let root_k: u64 = 10;
    let mut store = crashed_store(root_k);
    for block in 5..8u64 {
        put(&mut store, Column::StateUpdates, &block.to_be_bytes(), b"blob");
    }
    let unreadable = || OrphanedBlock { transaction_hashes: None, state_update: None };
    let orphans = vec![unreadable(), unreadable()];
    let found = FoundTrie { counter: root_k + 5, tail: Some(index(root_k + 1)) };
    let (batch, next) = reconciliation(Some(5), Some(7), &orphans, found, found, found);
    assert_eq!(next, NextIndices { class: 12, contract: 12, storage: 12 });

    let mut direct = crashed_store(root_k);
    for block in 5..8u64 {
        put(&mut direct, Column::StateUpdates, &block.to_be_bytes(), b"blob");
    }
    let mut direct_next = fresh();
    reconcile_rocksdb_with_sqlite(
        &mut direct,
        Some(5),
        &orphans,
        all_rows(10, 5),
        &mut direct_next,
    )
    .unwrap();
    store.write(&batch);
    assert_eq!(next, direct_next);
    for s in [&store, &direct] {
        assert_crash_reconciled(s, &next, root_k);
        assert_eq!(s.column(Column::StateUpdates).len(), 1);
        assert!(s.column(Column::StateUpdates).get(&5u64.to_be_bytes()).is_some());
    }
}

#[test]
fn nothing_is_given_up_where_no_tail_is_confirmed() {
    let found = FoundTrie { counter: 4, tail: None };
    let aligned = FoundTrie { counter: 4, tail: Some(index(3)) };
    let (batch, next) = reconciliation(Some(5), Some(5), &vec![], found, aligned, found);
    assert!(batch.ops.is_empty());
    assert_eq!(next, NextIndices { class: 4, contract: 4, storage: 4 });
}
