//! Storing trie nodes, reading them back, and dropping those that were removed.
use pathfinder::felt::Felt;
use pathfinder::storage::codec::{CodecError, EncodeError, StoredNode, TrieStorageIndex};
use pathfinder::storage::store::Batch;
use pathfinder::storage::transaction::{RemovalRow, Transaction, TransactionError, TriePruneMode};
use pathfinder::storage::trie_shape::is_acyclic;
use pathfinder::storage::trie::{
    Node, NodeRef, RootIndexUpdate, TrieColumn, TrieError, TrieUpdate, TRIE_CLASS_COLUMN,
    TRIE_CONTRACT_COLUMN, TRIE_STORAGE_COLUMN,
};

fn index(value: u64) -> TrieStorageIndex {
    TrieStorageIndex::new(value).unwrap()
}

fn pruning(num_blocks_kept: u64) -> Transaction {
    Transaction::in_memory_with_trie_pruning(TriePruneMode::Prune { num_blocks_kept })
}

fn three_nodes(hashes: [u64; 3], nodes_removed: Vec<TrieStorageIndex>) -> TrieUpdate {
    TrieUpdate {
        nodes_added: vec![
            (
                Felt::from_u64(hashes[0]),
                Node::Binary { left: NodeRef::Index(1), right: NodeRef::Index(2) },
            ),
            (Felt::from_u64(hashes[1]), Node::LeafBinary),
            (Felt::from_u64(hashes[2]), Node::LeafBinary),
        ],
        nodes_removed,
        root_commitment: Felt::new_zero(),
    }
}

#[test]
fn trie_storage_index_new_rejects_over_i64_max() {
    assert!(TrieStorageIndex::new(i64::MAX as u64 + 1).is_none());
    assert_eq!(
        TrieStorageIndex::new(i64::MAX as u64).map(|s| s.get()),
        Some(i64::MAX as u64),
    );
}

#[test]
fn trie_storage_index_decode_rejects_out_of_range() {
    let encoded = bincode::encode_to_vec(u64::MAX, bincode::config::standard())
        .expect("u64::MAX must encode");
    match TrieStorageIndex::decode(&encoded) {
        Err(e) => assert_eq!(e.message(), "TrieStorageIndex out of range"),
        Ok((v, _)) => panic!("Expected decode failure, got {v:?}"),
    }
}

#[test]
fn an_index_is_read_back_from_its_encoding() {
    for value in [0u64, 250, 251, 65_535, 65_536, u32::MAX as u64, 1 << 40, i64::MAX as u64] {
        let bytes = index(value).encode();
        assert_eq!(
            bytes,
            bincode::encode_to_vec(value, bincode::config::standard()).unwrap()
        );
        let (decoded, used) = TrieStorageIndex::decode(&bytes).unwrap();
        assert_eq!(decoded.get(), value);
        assert_eq!(used, bytes.len());
    }
    assert!(TrieStorageIndex::decode(&[]).is_err());
    assert_eq!(index(7).to_i64(), 7);
    assert_eq!(TrieStorageIndex::default().get(), 0);
}

fn same_node(a: &StoredNode, b: &StoredNode) -> bool {
    match (a, b) {
        (
            StoredNode::Binary { left: l1, right: r1 },
            StoredNode::Binary { left: l2, right: r2 },
        ) => l1 == l2 && r1 == r2,
        (StoredNode::Edge { child: c1, path: p1 }, StoredNode::Edge { child: c2, path: p2 }) => {
            c1 == c2 && p1 == p2
        }
        (StoredNode::LeafBinary, StoredNode::LeafBinary) => true,
        (StoredNode::LeafEdge { path: p1 }, StoredNode::LeafEdge { path: p2 }) => p1 == p2,
        _ => false,
    }
}

fn assert_serde(node: StoredNode) {
    let mut buffer = vec![0; 256];
    let length = node.encode(&mut buffer).unwrap();
    let result = StoredNode::decode(&buffer[..length]).unwrap();
    assert!(same_node(&result, &node));
}

fn mixed_path() -> Vec<bool> {
    [1, 0, 0, 1, 0, 1, 0, 0, 0, 0, 0, 1, 1, 1, 1].iter().map(|b| *b == 1).collect()
}

#[test]
fn serde() {
    assert_serde(StoredNode::Binary { left: index(12), right: index(34) });
    assert_serde(StoredNode::Edge { child: index(123), path: mixed_path() });
    assert_serde(StoredNode::LeafBinary);
    assert_serde(StoredNode::LeafEdge { path: mixed_path() });
    assert_serde(StoredNode::Edge { child: index(123), path: vec![true; 251] });
    assert_serde(StoredNode::Edge { child: index(123), path: vec![false] });
}

#[test]
fn encoding_needs_room_in_the_buffer() {
    let node = StoredNode::Binary { left: index(12), right: index(34) };
    let needed = node.to_bytes().len();
    let mut short = vec![0; needed - 1];
    assert_eq!(node.encode(&mut short), Err(EncodeError));
    let mut exact = vec![0; needed];
    assert_eq!(node.encode(&mut exact), Ok(needed));
    assert_eq!(exact, node.to_bytes());
}

#[test]
fn no_node_is_read_from_an_unknown_tag() {
    assert!(matches!(StoredNode::decode(&[]), Err(CodecError::Integer(_))));
    assert!(matches!(StoredNode::decode(&[9]), Err(CodecError::UnexpectedVariant(9))));
    assert_eq!(StoredNode::decode(&[9]).unwrap_err().message(), "Unexpected variant");
}

#[test]
fn class_trie_pruning() {
    let mut tx = pruning(2);
    tx.insert_class_trie(&three_nodes([0x0, 0x1, 0x2], vec![]), 0).unwrap();
    tx.insert_class_trie(&three_nodes([0x3, 0x4, 0x5], vec![index(1)]), 1).unwrap();
    tx.insert_class_trie(&three_nodes([0x6, 0x7, 0x8], vec![]), 2).unwrap();
    tx.insert_class_trie(&three_nodes([0x9, 0x10, 0x11], vec![]), 3).unwrap();
    tx.flush_rocksdb_batch();

    // Index 1 is still there.
    assert!(tx.class_trie_node(index(1)).unwrap().is_some());

    tx.insert_class_trie(&three_nodes([0x12, 0x13, 0x14], vec![]), 4).unwrap();
    tx.flush_rocksdb_batch();

    // Index 1 is no longer there.
    assert!(tx.class_trie_node(index(1)).unwrap().is_none());
}

#[test]
fn class_trie_pruning_change_config() {
    let mut tx = pruning(100);
    tx.insert_class_trie(&three_nodes([0x0, 0x1, 0x2], vec![]), 0).unwrap();
    tx.insert_class_trie(&three_nodes([0x3, 0x4, 0x5], vec![index(1)]), 1).unwrap();
    tx.insert_class_trie(&three_nodes([0x6, 0x7, 0x8], vec![]), 2).unwrap();
    tx.insert_class_trie(&three_nodes([0x9, 0x10, 0x11], vec![]), 3).unwrap();
    tx.insert_class_trie(&three_nodes([0x12, 0x13, 0x14], vec![]), 4).unwrap();
    tx.flush_rocksdb_batch();

    // Nothing was pruned.
    assert!(tx.class_trie_node(index(1)).unwrap().is_some());

    // A configuration change.
    tx.trie_prune_mode = TriePruneMode::Prune { num_blocks_kept: 2 };
    tx.latest_block = Some(4);
    tx.prune_tries().unwrap();
    tx.flush_rocksdb_batch();

    // The class trie was pruned.
    assert!(tx.class_trie_node(index(1)).unwrap().is_none());
}

#[test]
fn class_trie_pruning_keep_zero_blocks() {
    let mut tx = pruning(0);
    tx.insert_class_trie(&three_nodes([0x0, 0x1, 0x2], vec![]), 0).unwrap();
    tx.insert_class_trie(&three_nodes([0x3, 0x4, 0x5], vec![]), 0).unwrap();
    tx.insert_class_trie(&three_nodes([0x6, 0x7, 0x8], vec![]), 0).unwrap();
    tx.flush_rocksdb_batch();

    // Only the nodes that the last one reaches are stored, here the last one itself: three inserts
    // take the indices 0, 1 and 2.
    assert!(tx.class_trie_node(index(0)).unwrap().is_some());
    assert!(tx.class_trie_node(index(1)).unwrap().is_some());
    assert!(tx.class_trie_node(index(2)).unwrap().is_some());

    tx.insert_class_trie(
        &three_nodes([0x3, 0x4, 0x5], vec![index(0), index(1), index(2)]),
        1,
    )
    .unwrap();
    tx.insert_class_trie(&three_nodes([0x6, 0x7, 0x8], vec![]), 2).unwrap();
    tx.flush_rocksdb_batch();

    assert!(tx.class_trie_node(index(0)).unwrap().is_none());
    assert!(tx.class_trie_node(index(1)).unwrap().is_none());
    assert!(tx.class_trie_node(index(2)).unwrap().is_none());
}

#[test]
fn class_trie_root_updates() {
    let mut tx = pruning(0);
    let root_update = tx.insert_class_trie(&three_nodes([0x0, 0x1, 0x2], vec![]), 0).unwrap();
    assert_eq!(root_update, RootIndexUpdate::Updated(index(0)));
}

#[test]
fn coalesced_removals_are_pruned_together() {
    let mut tx = pruning(2);
    tx.insert_storage_trie(&three_nodes([0, 1, 2], vec![]), 0).unwrap();
    tx.insert_storage_trie(&three_nodes([3, 4, 5], vec![index(0)]), 9).unwrap();
    tx.flush_rocksdb_batch();
    // Blocks from 3 on are dropped: the removal counts as one of block 2.
    tx.coalesce_trie_removals(2);
    tx.insert_storage_trie(&three_nodes([6, 7, 8], vec![]), 4).unwrap();
    tx.flush_rocksdb_batch();
    assert!(tx.storage_trie_node(index(0)).unwrap().is_some());
    tx.insert_storage_trie(&three_nodes([6, 7, 8], vec![]), 5).unwrap();
    tx.flush_rocksdb_batch();
    assert!(tx.storage_trie_node(index(0)).unwrap().is_none());
}

#[test]
fn nodes_are_stored_below_their_root() {
    let mut tx = Transaction::in_memory_with_trie_pruning(TriePruneMode::Archive);
    let update = TrieUpdate {
        nodes_added: vec![
            (Felt::from_u64(1), Node::LeafBinary),
            (Felt::from_u64(2), Node::LeafEdge { path: vec![true, false] }),
            (
                Felt::from_u64(3),
                Node::Binary { left: NodeRef::Index(0), right: NodeRef::Index(1) },
            ),
            (Felt::from_u64(4), Node::Edge { child: NodeRef::Index(2), path: vec![true] }),
        ],
        nodes_removed: vec![],
        root_commitment: Felt::from_u64(4),
    };
    let root = tx.insert_storage_trie(&update, 0).unwrap();
    tx.flush_rocksdb_batch();
    assert_eq!(tx.next.storage, 4);
    let RootIndexUpdate::Updated(root) = root else {
        panic!("Expected the root index to be updated");
    };
    assert_eq!(tx.storage_trie_node_hash(root).unwrap(), Some(Felt::from_u64(4)));
    let StoredNode::Edge { child, path } = tx.storage_trie_node(root).unwrap().unwrap() else {
        panic!("Expected an edge");
    };
    assert_eq!(path, vec![true]);
    let StoredNode::Binary { left, right } = tx.storage_trie_node(child).unwrap().unwrap() else {
        panic!("Expected a binary node");
    };
    assert_eq!(tx.storage_trie_node_hash(left).unwrap(), Some(Felt::from_u64(1)));
    assert_eq!(tx.storage_trie_node_hash(right).unwrap(), Some(Felt::from_u64(2)));
    assert!(tx.contract_trie_node(root).unwrap().is_none());
    assert!(tx.contract_trie_node_hash(root).unwrap().is_none());
}

#[test]
fn an_update_without_nodes_keeps_or_empties_the_trie() {
    let mut tx = Transaction::in_memory_with_trie_pruning(TriePruneMode::Archive);
    let unchanged = TrieUpdate {
        nodes_added: vec![],
        nodes_removed: vec![],
        root_commitment: Felt::from_u64(9),
    };
    assert_eq!(tx.insert_class_trie(&unchanged, 0).unwrap(), RootIndexUpdate::Unchanged);
    let empty = TrieUpdate {
        nodes_added: vec![],
        nodes_removed: vec![index(0)],
        root_commitment: Felt::new_zero(),
    };
    assert_eq!(tx.insert_class_trie(&empty, 0).unwrap(), RootIndexUpdate::TrieEmpty);
}

#[test]
fn a_child_that_is_not_in_the_update_is_an_error() {
    let mut tx = Transaction::in_memory_with_trie_pruning(TriePruneMode::Archive);
    let update = TrieUpdate {
        nodes_added: vec![(
            Felt::from_u64(1),
            Node::Edge { child: NodeRef::Index(7), path: vec![true] },
        )],
        nodes_removed: vec![],
        root_commitment: Felt::from_u64(1),
    };
    let Err(TransactionError::Trie(e)) = tx.insert_class_trie(&update, 0) else {
        panic!("Expected an error");
    };
    assert_eq!(e, TrieError::NodeIndexMissing);
    assert_eq!(e.message(), "Node index missing");
}

#[test]
fn trie_node_helpers_reject_short_blobs() {
    let mut tx = Transaction::in_memory_with_trie_pruning(TriePruneMode::Archive);
    let i = index(7);
    let mut batch = Batch::new();
    batch.put(TRIE_CLASS_COLUMN, i.get().to_be_bytes().to_vec(), vec![0xAAu8; 16]);
    tx.store.write(&batch);

    assert!(tx.class_trie_node(i).is_err());
    assert!(tx.class_trie_node_hash(i).is_err());
}

#[test]
fn an_unreadable_entry_is_an_error() {
    let mut tx = Transaction::in_memory_with_trie_pruning(TriePruneMode::Archive);
    let mut batch = Batch::new();
    batch.put(TRIE_CLASS_COLUMN, 1u64.to_be_bytes().to_vec(), vec![0xFFu8; 40]);
    tx.store.write(&batch);
    assert!(matches!(
        tx.class_trie_node(index(1)),
        Err(TransactionError::DecodingNode(_))
    ));
    assert!(matches!(
        tx.class_trie_node_hash(index(1)),
        Err(TransactionError::DecodingNodeHash)
    ));
}

#[test]
fn trie_column_projections_match_column_constants() {
    assert_eq!(TrieColumn::Class.column(), TRIE_CLASS_COLUMN);
    assert_eq!(TrieColumn::Contract.column(), TRIE_CONTRACT_COLUMN);
    assert_eq!(TrieColumn::Storage.column(), TRIE_STORAGE_COLUMN);
    assert_eq!(TrieColumn::from_column(TRIE_CLASS_COLUMN), Some(TrieColumn::Class));
}

#[test]
fn what_was_staged_before_a_node_that_does_not_fit_stays() {
    let mut tx = Transaction::in_memory_with_trie_pruning(TriePruneMode::Archive);
    let update = TrieUpdate {
        nodes_added: vec![
            (Felt::from_u64(1), Node::LeafEdge { path: vec![true; 2000] }),
            (Felt::from_u64(2), Node::Edge { child: NodeRef::Index(0), path: vec![true] }),
        ],
        nodes_removed: vec![],
        root_commitment: Felt::from_u64(2),
    };
    let Err(TransactionError::Trie(e)) = tx.insert_class_trie(&update, 0) else {
        panic!("Expected an error");
    };
    assert_eq!(e, TrieError::EncodingNode);
    // The root came first, and the next free index is not written.
    assert_eq!(tx.batch.ops.len(), 1);
    assert_eq!(tx.next.class, 2);
}

#[test]
fn what_was_staged_before_an_unreadable_marker_stays() {
    let mut tx = pruning(1);
    // One index, then a list that announces more than it holds.
    tx.class_removals.push(RemovalRow { block: 1, indices: vec![1, 5] });
    tx.class_removals.push(RemovalRow { block: 2, indices: vec![9] });
    let r = tx.prune_trie(10, 1, TrieColumn::Class);
    assert!(matches!(r, Err(TransactionError::DecodingRemovalMarker(_))));
    assert_eq!(tx.batch.ops.len(), 1);
    assert_eq!(tx.class_removals.len(), 2);
}

fn shape(nodes: Vec<Node>) -> Vec<(Felt, Node)> {
    nodes.into_iter().enumerate().map(|(i, n)| (Felt::from_u64(i as u64), n)).collect()
}

fn edge(child: NodeRef) -> Node {
    Node::Edge { child, path: vec![true] }
}

#[test]
fn an_update_whose_nodes_refer_downwards_is_acyclic() {
    assert!(is_acyclic(&vec![]));
    assert!(is_acyclic(&shape(vec![Node::LeafBinary])));
    assert!(is_acyclic(&three_nodes([1, 2, 3], vec![]).nodes_added));
    // References to stored nodes and past the added nodes lead nowhere.
    assert!(is_acyclic(&shape(vec![edge(NodeRef::StorageIndex(index(0)))])));
    assert!(is_acyclic(&shape(vec![edge(NodeRef::Index(9))])));
    // A node that is met twice is not below itself.
    assert!(is_acyclic(&shape(vec![
        Node::LeafEdge { path: vec![false] },
        edge(NodeRef::Index(0)),
        Node::Binary { left: NodeRef::Index(0), right: NodeRef::Index(1) },
    ])));
    // The order of the nodes does not matter.
    assert!(is_acyclic(&shape(vec![
        edge(NodeRef::Index(1)),
        edge(NodeRef::Index(2)),
        Node::LeafBinary,
        Node::Binary { left: NodeRef::Index(0), right: NodeRef::Index(2) },
    ])));
}

#[test]
fn an_update_with_a_node_below_itself_is_not_acyclic() {
    assert!(!is_acyclic(&shape(vec![edge(NodeRef::Index(0))])));
    assert!(!is_acyclic(&shape(vec![
        edge(NodeRef::Index(1)),
        edge(NodeRef::Index(0)),
        Node::Binary { left: NodeRef::Index(1), right: NodeRef::StorageIndex(index(5)) },
    ])));
    // One that the root does not lead to does no harm.
    assert!(is_acyclic(&shape(vec![edge(NodeRef::Index(0)), Node::LeafBinary])));
}
