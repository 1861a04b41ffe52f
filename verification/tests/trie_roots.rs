//! Recorded roots, contract state hashes and how old ones are pruned.
use pathfinder::felt::Felt;
use pathfinder::storage::codec::TrieStorageIndex;
use pathfinder::storage::transaction::{Transaction, TransactionError, TriePruneMode};
use pathfinder::storage::trie::{Node, RootIndexUpdate, TrieUpdate};

fn archive() -> Transaction {
    Transaction::in_memory_with_trie_pruning(TriePruneMode::Archive)
}

fn pruning(num_blocks_kept: u64) -> Transaction {
    Transaction::in_memory_with_trie_pruning(TriePruneMode::Prune { num_blocks_kept })
}

fn felt(bytes: &[u8]) -> Felt {
    Felt::from_be_slice(bytes).unwrap()
}

fn index(value: u64) -> TrieStorageIndex {
    TrieStorageIndex::new(value).unwrap()
}

fn updated(value: u64) -> RootIndexUpdate {
    RootIndexUpdate::Updated(index(value))
}

fn leaf_update(hash: Felt) -> TrieUpdate {
    TrieUpdate {
        nodes_added: vec![(hash, Node::LeafBinary)],
        nodes_removed: vec![],
        root_commitment: Felt::new_zero(),
    }
}

#[test]
fn class_roots() {
    let mut tx = archive();
    assert_eq!(tx.class_root_index(0).unwrap(), None);

    tx.insert_class_root(0, updated(123));
    assert_eq!(tx.class_root_index(0).unwrap(), Some(index(123)));

    tx.insert_class_root(1, updated(456));
    assert_eq!(tx.class_root_index(0).unwrap(), Some(index(123)));
    assert_eq!(tx.class_root_index(1).unwrap(), Some(index(456)));
    assert_eq!(tx.class_root_index(2).unwrap(), Some(index(456)));

    tx.insert_class_root(10, updated(789));
    assert_eq!(tx.class_root_index(9).unwrap(), Some(index(456)));
    assert_eq!(tx.class_root_index(10).unwrap(), Some(index(789)));
    assert_eq!(tx.class_root_index(11).unwrap(), Some(index(789)));

    tx.insert_class_root(12, RootIndexUpdate::TrieEmpty);
    assert_eq!(tx.class_root_index(12).unwrap(), None);
    assert_eq!(tx.class_root_index(13).unwrap(), None);
}

#[test]
fn storage_roots() {
    let mut tx = archive();
    assert_eq!(tx.storage_root_index(0).unwrap(), None);

    tx.insert_storage_root(0, updated(123));
    assert_eq!(tx.storage_root_index(0).unwrap(), Some(index(123)));

    tx.insert_storage_root(1, updated(456));
    assert_eq!(tx.storage_root_index(0).unwrap(), Some(index(123)));
    assert_eq!(tx.storage_root_index(1).unwrap(), Some(index(456)));
    assert_eq!(tx.storage_root_index(2).unwrap(), Some(index(456)));

    tx.insert_storage_root(10, updated(789));
    assert_eq!(tx.storage_root_index(9).unwrap(), Some(index(456)));
    assert_eq!(tx.storage_root_index(10).unwrap(), Some(index(789)));
    assert_eq!(tx.storage_root_index(11).unwrap(), Some(index(789)));

    tx.insert_storage_root(12, RootIndexUpdate::TrieEmpty);
    assert_eq!(tx.storage_root_index(12).unwrap(), None);
    assert_eq!(tx.storage_root_index(13).unwrap(), None);
}

#[test]
fn an_unchanged_root_records_nothing() {
    let mut tx = archive();
    tx.insert_class_root(0, updated(5));
    tx.insert_class_root(1, RootIndexUpdate::Unchanged);
    assert!(!tx.class_root_exists(1));
    assert_eq!(tx.class_root_index(1).unwrap(), Some(index(5)));
}

#[test]
fn class_root_reads_the_hash_of_the_root_node() {
    let mut tx = archive();
    let root = felt(b"class root");
    let update = tx.insert_class_trie(&leaf_update(root), 0).unwrap();
    tx.flush_rocksdb_batch();
    tx.insert_class_root(3, update);
    assert_eq!(tx.class_root(2).unwrap(), None);
    assert_eq!(tx.class_root(3).unwrap(), Some(root));
}

#[test]
fn contract_roots() {
    let mut tx = archive();
    let c1 = felt(b"first");
    let c2 = felt(b"second");

    // The simplest trie that has a root hash.
    let root0 = felt(b"root 0");
    let idx0_update = tx.insert_contract_trie(&leaf_update(root0), 0).unwrap();
    tx.flush_rocksdb_batch();
    let RootIndexUpdate::Updated(idx0) = idx0_update else {
        panic!("Expected the root index to be updated");
    };

    assert_eq!(tx.contract_root_index(0, &c1).unwrap(), None);

    tx.insert_contract_root(0, c1, idx0_update);
    assert_eq!(tx.contract_root_index(0, &c1).unwrap(), Some(idx0));
    assert_eq!(tx.contract_root_index(0, &c2).unwrap(), None);
    assert_eq!(tx.contract_root(0, &c1).unwrap(), Some(root0));
    assert_eq!(tx.contract_root(0, &c2).unwrap(), None);

    let root1 = felt(b"root 1");
    let idx1_update = tx.insert_contract_trie(&leaf_update(root1), 1).unwrap();
    tx.flush_rocksdb_batch();
    let RootIndexUpdate::Updated(idx1) = idx1_update else {
        panic!("Expected the root index to be updated");
    };

    tx.insert_contract_root(1, c1, idx1_update);
    tx.insert_contract_root(1, c2, updated(888));
    assert_eq!(tx.contract_root_index(0, &c1).unwrap(), Some(idx0));
    assert_eq!(tx.contract_root_index(0, &c2).unwrap(), None);
    assert_eq!(tx.contract_root(0, &c1).unwrap(), Some(root0));
    assert_eq!(tx.contract_root_index(1, &c1).unwrap(), Some(idx1));
    assert_eq!(tx.contract_root_index(1, &c2).unwrap(), Some(index(888)));
    assert_eq!(tx.contract_root(1, &c1).unwrap(), Some(root1));
    assert_eq!(tx.contract_root_index(2, &c1).unwrap(), Some(idx1));
    assert_eq!(tx.contract_root_index(2, &c2).unwrap(), Some(index(888)));
    assert_eq!(tx.contract_root(2, &c1).unwrap(), Some(root1));

    let root2 = felt(b"root 2");
    let idx2_update = tx.insert_contract_trie(&leaf_update(root2), 10).unwrap();
    tx.flush_rocksdb_batch();
    let RootIndexUpdate::Updated(idx2) = idx2_update else {
        panic!("Expected the root index to be updated");
    };

    tx.insert_contract_root(10, c1, idx2_update);
    tx.insert_contract_root(11, c2, updated(999));
    assert_eq!(tx.contract_root_index(9, &c1).unwrap(), Some(idx1));
    assert_eq!(tx.contract_root_index(9, &c2).unwrap(), Some(index(888)));
    assert_eq!(tx.contract_root(9, &c1).unwrap(), Some(root1));
    assert_eq!(tx.contract_root_index(10, &c1).unwrap(), Some(idx2));
    assert_eq!(tx.contract_root_index(10, &c2).unwrap(), Some(index(888)));
    assert_eq!(tx.contract_root(10, &c1).unwrap(), Some(root2));
    assert_eq!(tx.contract_root_index(11, &c2).unwrap(), Some(index(999)));
    assert_eq!(tx.contract_root(11, &c1).unwrap(), Some(root2));

    tx.insert_contract_root(12, c1, RootIndexUpdate::TrieEmpty);
    assert_eq!(tx.contract_root_index(10, &c1).unwrap(), Some(idx2));
    assert_eq!(tx.contract_root(10, &c1).unwrap(), Some(root2));
    assert_eq!(tx.contract_root_index(12, &c1).unwrap(), None);
    assert_eq!(tx.contract_root(12, &c1).unwrap(), None);
}

#[test]
fn contract_root_and_contract_root_index_agree_on_out_of_range() {
    let mut tx = archive();
    let raw_index: i64 = (i64::MAX as u64 + 42) as i64;
    let contract = felt(b"raw-contract");
    let mut table = pathfinder::storage::roots::BlockTable::new();
    table.insert_or_replace(0, Some(raw_index));
    tx.contract_roots.insert(contract, table);

    assert!(tx.contract_root(0, &contract).is_err());
    assert!(tx.contract_root_index(0, &contract).is_err());
    assert!(matches!(
        tx.contract_root_index(0, &contract),
        Err(TransactionError::RootIndexOutOfRange(v)) if v == raw_index
    ));
}

#[test]
fn contract_root_and_contract_root_index_agree_on_normal_read() {
    let mut tx = archive();
    let contract = felt(b"smoke-contract");
    let root_hash = felt(b"smoke-root-hash");

    let idx_update = tx.insert_contract_trie(&leaf_update(root_hash), 0).unwrap();
    tx.flush_rocksdb_batch();
    let RootIndexUpdate::Updated(idx) = idx_update else {
        panic!("Expected root index to be updated");
    };
    tx.insert_contract_root(0, contract, idx_update);

    assert_eq!(tx.contract_root_index(0, &contract).unwrap(), Some(idx));
    assert_eq!(tx.contract_root(0, &contract).unwrap(), Some(root_hash));
}

#[test]
fn contract_state_hash() {
    let mut tx = archive();
    let contract = felt(b"address");
    let state_hash = felt(b"state hash");

    tx.insert_contract_state_hash(2, contract, state_hash);
    tx.flush_rocksdb_batch();

    assert!(tx.contract_state_hash(0, contract).unwrap().is_none());
    assert_eq!(tx.contract_state_hash(2, contract).unwrap(), Some(state_hash));
    assert_eq!(tx.contract_state_hash(10, contract).unwrap(), Some(state_hash));
    assert!(tx.contract_state_hash(2, felt(b"missing")).unwrap().is_none());
}

#[test]
fn contract_state_hash_rejects_block_greater_than_target() {
    let mut tx = archive();
    let contract = felt(b"address");
    let state_hash = felt(b"state hash");

    // Only entry: block 10.
    tx.insert_contract_state_hash(10, contract, state_hash);
    tx.flush_rocksdb_batch();

    // No entry at or below block 5.
    assert_eq!(tx.contract_state_hash(5, contract).unwrap(), None);
    assert_eq!(tx.contract_state_hash(10, contract).unwrap(), Some(state_hash));
    assert_eq!(tx.contract_state_hash(20, contract).unwrap(), Some(state_hash));
}

#[test]
fn class_root_insert_should_prune_old_roots() {
    let mut tx = pruning(1);
    tx.insert_class_root(0, updated(1));
    tx.insert_class_root(1, updated(2));
    // no root inserted for block 2
    tx.insert_class_root(3, updated(3));

    assert!(!tx.class_root_exists(0));
    // The root at block 1 is still required for reconstructing the state at block 2.
    assert!(tx.class_root_exists(1));
    assert!(tx.class_root_exists(3));
}

#[test]
fn class_root_insert_should_prune_old_roots_in_no_history_mode() {
    let mut tx = pruning(0);
    tx.insert_class_root(0, updated(1));
    tx.insert_class_root(1, updated(2));

    assert!(!tx.class_root_exists(0));
    assert!(tx.class_root_exists(1));
}

#[test]
fn contract_state_hash_insert_should_prune_old_state_hashes() {
    let mut tx = pruning(1);
    let contract = felt(&[0xde, 0xad, 0xbe, 0xef]);
    tx.insert_contract_state_hash(0, contract, felt(&[1]));
    tx.flush_rocksdb_batch();
    tx.insert_contract_state_hash(1, contract, felt(&[2]));
    tx.flush_rocksdb_batch();
    // no new state hash for block 2
    tx.insert_contract_state_hash(3, contract, felt(&[3]));
    tx.flush_rocksdb_batch();

    assert_eq!(tx.contract_state_hash(0, contract).unwrap(), None);
    assert_eq!(tx.contract_state_hash(2, contract).unwrap(), Some(felt(&[2])));
    assert_eq!(tx.contract_state_hash(3, contract).unwrap(), Some(felt(&[3])));
}

#[test]
fn contract_state_hash_insert_should_prune_all_old_state_in_no_history_mode() {
    let mut tx = pruning(0);
    let contract = felt(&[0xde, 0xad, 0xbe, 0xef]);
    tx.insert_contract_state_hash(0, contract, felt(&[1]));
    tx.flush_rocksdb_batch();
    tx.insert_contract_state_hash(1, contract, felt(&[2]));
    tx.flush_rocksdb_batch();

    assert_eq!(tx.contract_state_hash(0, contract).unwrap(), None);
    assert_eq!(tx.contract_state_hash(1, contract).unwrap(), Some(felt(&[2])));
}

#[test]
fn storage_root_insert_should_prune_old_roots() {
    let mut tx = pruning(1);
    tx.insert_storage_root(0, updated(1));
    tx.insert_storage_root(1, updated(2));
    // no new root index for block 2
    tx.insert_storage_root(3, updated(3));

    assert!(!tx.storage_root_exists(0));
    assert!(tx.storage_root_exists(1));
    assert!(tx.storage_root_exists(3));
}

#[test]
fn storage_root_insert_should_prune_all_old_roots_in_no_history_mode() {
    let mut tx = pruning(0);
    tx.insert_storage_root(0, updated(1));
    tx.insert_storage_root(1, updated(2));

    assert!(!tx.storage_root_exists(0));
    assert!(tx.storage_root_exists(1));
}

#[test]
fn contract_root_insert_should_prune_old_state_hashes() {
    let mut tx = pruning(1);
    let contract = felt(&[0xde, 0xad, 0xbe, 0xef]);
    tx.insert_contract_root(0, contract, updated(1));
    tx.insert_contract_root(1, contract, updated(2));
    // no new root for block 2
    tx.insert_contract_root(3, contract, updated(3));

    assert_eq!(tx.contract_root_index(0, &contract).unwrap(), None);
    assert_eq!(tx.contract_root_index(2, &contract).unwrap(), Some(index(2)));
    assert_eq!(tx.contract_root_index(3, &contract).unwrap(), Some(index(3)));
}

#[test]
fn contract_root_insert_should_prune_all_old_roots_in_no_history_mode() {
    let mut tx = pruning(0);
    let contract = felt(&[0xde, 0xad, 0xbe, 0xef]);
    tx.insert_contract_root(0, contract, updated(1));
    tx.insert_contract_root(1, contract, updated(2));

    assert_eq!(tx.contract_root_index(0, &contract).unwrap(), None);
    assert_eq!(tx.contract_root_index(1, &contract).unwrap(), Some(index(2)));
}
