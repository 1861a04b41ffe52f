//! Moving tables into the key-value store.
use pathfinder::felt::Felt;
use pathfinder::state_update::{ContractClassUpdate, StateUpdateData};
use pathfinder::storage::codec::TrieStorageIndex;
use pathfinder::storage::columns::Column;
use pathfinder::storage::migrations::{
    create_next_index, migrate_contract_state_hashes, migrate_events, migrate_nonce_updates,
    migrate_storage_updates, migrate_transaction_hashes, migrate_transactions_and_receipts,
    migrate_trie, migrate_tries, next_index, nonce_update_key, storage_update_key,
    store_state_updates, Batcher, EventsRow, NodeTooLarge, NonceUpdateRow, StateHashRow,
    StateUpdateRow, StorageUpdateRow, TransactionHashRow, TransactionsRow, TrieRow, TrieTables,
};
use pathfinder::storage::state_merge::{
    migrate_state_updates, ContractRow, DeclaredRow, LeftOver, MergeError, MigratedRow, NonceRow,
    Part, Places, RedeclaredRow, StateMerger, StateTables, StorageRow, Table,
};
use pathfinder::storage::store::{BatchOp, Store};
use pathfinder::storage::transaction::{Transaction, TriePruneMode};
use pathfinder::storage::trie::{TrieColumn, TRIE_CONTRACT_COLUMN};

fn felt(bytes: &[u8]) -> Felt {
    Felt::from_be_slice(bytes).unwrap()
}

fn padded(bytes: &[u8]) -> Vec<u8> {
    felt(bytes).to_be_bytes()
}

fn no_rows() -> StateTables {
    StateTables {
        nonces: vec![],
        storages: vec![],
        declareds: vec![],
        redeclareds: vec![],
        migrateds: vec![],
        contracts: vec![],
    }
}

fn trie_tables(class: Vec<TrieRow>, storage: Vec<TrieRow>, contract: Vec<TrieRow>) -> TrieTables {
    TrieTables { class, storage, contract, state_hashes: vec![] }
}

#[test]
fn contract_trie_migration_copies_rows_one_to_one() {
    let rows = [
        (0u64, [0xAAu8; 32], b"node-A".to_vec()),
        (1, [0xBBu8; 32], b"node-B".to_vec()),
        (2, [0xCCu8; 32], b"node-C".to_vec()),
    ];
    let contract: Vec<TrieRow> = rows
        .iter()
        .map(|(idx, hash, data)| TrieRow { idx: *idx, hash: *hash, data: data.clone() })
        .collect();

    let mut store = Store::new();
    migrate_tries(&trie_tables(vec![], vec![], contract), &mut store).unwrap();

    let column = store.column(TRIE_CONTRACT_COLUMN);
    for (idx, hash, data) in rows {
        let value = column.get(&idx.to_be_bytes()).unwrap();
        assert_eq!(&value[..32], &hash, "hash mismatch for idx {idx}");
        assert_eq!(&value[32..], data, "data mismatch for idx {idx}");
    }

    let next_index_bytes = store
        .column(Column::TrieNextIndex)
        .get(&TrieColumn::Contract.next_index_key())
        .expect("next index of the contract trie");
    let next = u64::from_be_bytes(<[u8; 8]>::try_from(next_index_bytes.as_slice()).unwrap());
    assert_eq!(next, 3, "next_index should be MAX(idx) + 1 = 3");
}

#[test]
fn a_node_that_is_too_large_stops_the_migration() {
    let row = TrieRow { idx: 4, hash: [1; 32], data: vec![0; 225] };
    let mut store = Store::new();
    assert_eq!(
        migrate_trie(&vec![row], TrieColumn::Storage, &mut store),
        Err(NodeTooLarge { trie: TrieColumn::Storage, idx: 4, size: 225 })
    );
    let row = TrieRow { idx: 4, hash: [1; 32], data: vec![0; 224] };
    assert_eq!(migrate_trie(&vec![row], TrieColumn::Storage, &mut store), Ok(()));
    assert_eq!(store.column(Column::TrieStorage).len(), 1);
}

#[test]
fn the_next_index_follows_the_highest_one() {
    assert_eq!(next_index(None), 0);
    assert_eq!(next_index(Some(41)), 42);
    let mut store = Store::new();
    let rows = vec![
        TrieRow { idx: 7, hash: [0; 32], data: vec![] },
        TrieRow { idx: 3, hash: [0; 32], data: vec![] },
    ];
    create_next_index(&rows, TrieColumn::Class, &mut store);
    assert_eq!(
        store.column(Column::TrieNextIndex).get(&TrieColumn::Class.next_index_key()),
        Some(&8u64.to_be_bytes().to_vec())
    );
}

#[test]
fn migrated_state_hashes_are_read_by_a_transaction() {
    let contract = felt(b"contract");
    let hash = felt(b"state");
    let row = StateHashRow {
        block_number: 5,
        contract_address: contract.to_be_bytes().try_into().unwrap(),
        state_hash: hash.to_be_bytes().try_into().unwrap(),
    };
    let mut tx = Transaction::in_memory_with_trie_pruning(TriePruneMode::Archive);
    migrate_contract_state_hashes(&vec![row], &mut tx.store);
    assert_eq!(tx.contract_state_hash(4, contract).unwrap(), None);
    assert_eq!(tx.contract_state_hash(5, contract).unwrap(), Some(hash));
    assert_eq!(tx.contract_state_hash(9, contract).unwrap(), Some(hash));
}

#[test]
fn migrated_trie_nodes_are_read_by_a_transaction() {
    let mut tx = Transaction::in_memory_with_trie_pruning(TriePruneMode::Archive);
    let node = pathfinder::storage::codec::StoredNode::LeafBinary;
    let mut hash = [0u8; 32];
    hash[31] = 9;
    let rows = vec![TrieRow { idx: 6, hash, data: node.to_bytes() }];
    migrate_tries(&trie_tables(rows, vec![], vec![]), &mut tx.store).unwrap();
    let index = TrieStorageIndex::new(6).unwrap();
    assert!(tx.class_trie_node(index).unwrap().is_some());
    assert_eq!(tx.class_trie_node_hash(index).unwrap(), Some(Felt::from_u64(9)));
}

#[test]
fn migrate_transaction_hashes_targets_transaction_hashes_column() {
    let hash = padded(&[0xde, 0xad, 0xbe, 0xef]);
    let rows = vec![TransactionHashRow { hash: hash.clone(), block_number: 7, idx: 3 }];
    let mut store = Store::new();
    migrate_transaction_hashes(&rows, &mut store);

    let value = store
        .column(Column::TransactionHashes)
        .get(&hash)
        .expect("hash present among the transaction hashes");
    assert_eq!(value.len(), 10);
    let block_number = u64::from_be_bytes(value[..8].try_into().unwrap());
    let idx = u16::from_be_bytes(value[8..].try_into().unwrap());
    assert_eq!(block_number, 7);
    assert_eq!(idx, 3);
    assert_eq!(store.column(Column::TransactionsAndReceipts).len(), 0);
}

#[test]
fn update_rows_are_keyed_by_address_and_inverted_block() {
    let address = [7u8; 32];
    let key = [8u8; 32];
    let mut expected = address.to_vec();
    expected.extend((u64::MAX - 5).to_be_bytes());
    assert_eq!(nonce_update_key(5, &address), expected);
    let mut expected = address.to_vec();
    expected.extend(key);
    expected.extend((u64::MAX - 5).to_be_bytes());
    assert_eq!(storage_update_key(5, &address, &key), expected);

    let mut store = Store::new();
    migrate_nonce_updates(
        &vec![NonceUpdateRow { block_number: 5, contract_address: address, nonce: vec![1] }],
        &mut store,
    );
    migrate_storage_updates(
        &vec![StorageUpdateRow {
            block_number: 5,
            contract_address: address,
            storage_address: key,
            storage_value: vec![2],
        }],
        &mut store,
    );
    assert_eq!(
        store.column(Column::NonceUpdates).get(&nonce_update_key(5, &address)),
        Some(&vec![1])
    );
    assert_eq!(
        store.column(Column::StorageUpdates).get(&storage_update_key(5, &address, &key)),
        Some(&vec![2])
    );
}

#[test]
fn blobs_are_keyed_by_block_and_absent_events_are_left_out() {
    let mut store = Store::new();
    migrate_transactions_and_receipts(
        &vec![TransactionsRow { block_number: 1, data: vec![9, 9] }],
        &mut store,
    );
    migrate_events(
        &vec![
            EventsRow { block_number: 1, data: None },
            EventsRow { block_number: 2, data: Some(vec![5]) },
        ],
        &mut store,
    );
    store_state_updates(&vec![StateUpdateRow { block_number: 3, data: vec![6] }], &mut store);
    assert_eq!(
        store.column(Column::TransactionsAndReceipts).get(&1u64.to_be_bytes()),
        Some(&vec![9, 9])
    );
    assert_eq!(store.column(Column::Events).len(), 1);
    assert_eq!(store.column(Column::Events).get(&2u64.to_be_bytes()), Some(&vec![5]));
    assert_eq!(store.column(Column::StateUpdates).get(&3u64.to_be_bytes()), Some(&vec![6]));
}

#[test]
fn a_batcher_hands_out_full_batches() {
    let mut batcher = Batcher::new(2);
    let op = || Some(BatchOp::Put { column: Column::Events, key: vec![1], value: vec![2] });
    assert!(batcher.push(op()).is_none());
    let full = batcher.push(op()).unwrap();
    assert_eq!(full.ops.len(), 2);
    assert_eq!(batcher.batch.ops.len(), 0);
    // A row without an entry is counted, and gives no batch up.
    assert!(batcher.push(op()).is_none());
    assert!(batcher.push(None).is_none());
    assert!(batcher.push(op()).is_none());
    assert_eq!(batcher.push(op()).unwrap().ops.len(), 3);
}

#[test]
fn migrate_state_updates_sort_merges_six_sources() {
    let address_a = felt(&[0xA]);
    let address_b = felt(&[0xB]);
    let storage_key = felt(&[0x01, 0x00]);
    let cairo_hash = felt(&[0x0c, 0xa1]);
    let sierra_hash = felt(&[0x05, 0x1e]);
    let casm_hash = felt(&[0xca, 0xfe]);
    let tables = StateTables {
        nonces: vec![NonceRow {
            block_number: 0,
            contract_address: padded(&[0xA]),
            nonce: padded(&[7]),
        }],
        storages: vec![StorageRow {
            block_number: 0,
            contract_address: padded(&[0xA]),
            storage_address: storage_key.to_be_bytes(),
            storage_value: padded(&[0xFF]),
        }],
        declareds: vec![
            DeclaredRow {
                block_number: 0,
                class_hash: cairo_hash.to_be_bytes(),
                casm_hash: None,
            },
            DeclaredRow {
                block_number: 1,
                class_hash: sierra_hash.to_be_bytes(),
                casm_hash: Some(casm_hash.to_be_bytes()),
            },
        ],
        redeclareds: vec![RedeclaredRow {
            block_number: 2,
            class_hash: cairo_hash.to_be_bytes(),
        }],
        migrateds: vec![
            MigratedRow {
                block_number: 1,
                class_hash: sierra_hash.to_be_bytes(),
                casm_hash: casm_hash.to_be_bytes(),
            },
            MigratedRow {
                block_number: 2,
                class_hash: sierra_hash.to_be_bytes(),
                casm_hash: casm_hash.to_be_bytes(),
            },
        ],
        contracts: vec![
            ContractRow {
                block_number: 1,
                contract_address: padded(&[0xB]),
                class_hash: sierra_hash.to_be_bytes(),
            },
            ContractRow {
                block_number: 2,
                contract_address: padded(&[0xB]),
                class_hash: cairo_hash.to_be_bytes(),
            },
        ],
    };

    let updates = migrate_state_updates(&vec![0, 1, 2], &tables).unwrap();
    assert_eq!(updates.iter().map(|(n, _)| *n).collect::<Vec<_>>(), vec![0, 1, 2]);

    let b0 = &updates[0].1;
    assert_eq!(b0.contract_updates.len(), 1);
    let entry_a = b0.contract_updates.get(address_a).unwrap();
    assert_eq!(entry_a.nonce, Some(felt(&[7])));
    assert_eq!(entry_a.storage.len(), 1);
    assert_eq!(entry_a.storage.get(storage_key), Some(&felt(&[0xFF])));
    assert_eq!(entry_a.class, None);
    assert_eq!(b0.system_contract_updates.len(), 0);
    assert_eq!(b0.declared_cairo_classes.len(), 1);
    assert!(b0.declared_cairo_classes.contains(cairo_hash));
    assert_eq!(b0.declared_sierra_classes.len(), 0);
    assert_eq!(b0.migrated_compiled_classes.len(), 0);

    let b1 = &updates[1].1;
    assert_eq!(b1.contract_updates.len(), 1);
    let entry_b = b1.contract_updates.get(address_b).unwrap();
    assert_eq!(entry_b.class, Some(ContractClassUpdate::Deploy(sierra_hash)));
    assert_eq!(entry_b.nonce, None);
    assert_eq!(entry_b.storage.len(), 0);
    assert_eq!(b1.system_contract_updates.len(), 0);
    assert_eq!(b1.declared_cairo_classes.len(), 0);
    assert_eq!(b1.declared_sierra_classes.len(), 1);
    assert_eq!(b1.declared_sierra_classes.get(sierra_hash), Some(&casm_hash));
    assert_eq!(b1.migrated_compiled_classes.len(), 0);

    let b2 = &updates[2].1;
    assert_eq!(b2.contract_updates.len(), 1);
    let entry_b = b2.contract_updates.get(address_b).unwrap();
    assert_eq!(entry_b.class, Some(ContractClassUpdate::Replace(cairo_hash)));
    assert_eq!(entry_b.nonce, None);
    assert_eq!(entry_b.storage.len(), 0);
    assert_eq!(b2.system_contract_updates.len(), 0);
    assert_eq!(b2.declared_cairo_classes.len(), 1);
    assert!(b2.declared_cairo_classes.contains(cairo_hash));
    assert_eq!(b2.declared_sierra_classes.len(), 0);
    assert_eq!(b2.migrated_compiled_classes.len(), 1);
    assert_eq!(b2.migrated_compiled_classes.get(sierra_hash), Some(&casm_hash));
}

#[test]
fn migrate_state_updates_emits_empty_blob_for_block_with_no_changes() {
    let updates = migrate_state_updates(&vec![0], &no_rows()).unwrap();
    assert_eq!(updates.len(), 1);
    let (number, data) = &updates[0];
    assert_eq!(*number, 0);
    assert_eq!(data.contract_updates.len(), 0);
    assert_eq!(data.system_contract_updates.len(), 0);
    assert_eq!(data.declared_cairo_classes.len(), 0);
    assert_eq!(data.declared_sierra_classes.len(), 0);
    assert_eq!(data.migrated_compiled_classes.len(), 0);
}

#[test]
fn migrate_state_updates_classifies_deploy_then_replace() {
    let address = felt(&[0xA]);
    let row = |block_number: u64, class: u8| ContractRow {
        block_number,
        contract_address: padded(&[0xA]),
        class_hash: padded(&[class]),
    };
    // Two rows of one new contract in block 0: both deploy it, and the last one stays.
    let tables = StateTables {
        contracts: vec![row(0, 0xCA), row(0, 0xCB), row(1, 0xCC)],
        ..no_rows()
    };
    let updates = migrate_state_updates(&vec![0, 1], &tables).unwrap();
    assert_eq!(
        updates[0].1.contract_updates.get(address).and_then(|u| u.class.as_ref()),
        Some(&ContractClassUpdate::Deploy(felt(&[0xCB]))),
    );
    assert_eq!(
        updates[1].1.contract_updates.get(address).and_then(|u| u.class.as_ref()),
        Some(&ContractClassUpdate::Replace(felt(&[0xCC]))),
    );
}

#[test]
fn migrate_state_updates_emits_migrated_on_second_casm_row() {
    let sierra_hash = felt(&[0x05, 0x1e]);
    let casm_hash = felt(&[0xca, 0xfe]);
    let row = |block_number: u64| MigratedRow {
        block_number,
        class_hash: sierra_hash.to_be_bytes(),
        casm_hash: casm_hash.to_be_bytes(),
    };
    let tables = StateTables {
        declareds: vec![DeclaredRow {
            block_number: 0,
            class_hash: sierra_hash.to_be_bytes(),
            casm_hash: Some(casm_hash.to_be_bytes()),
        }],
        migrateds: vec![row(0), row(1)],
        ..no_rows()
    };
    let updates = migrate_state_updates(&vec![0, 1], &tables).unwrap();
    assert_eq!(updates[0].1.migrated_compiled_classes.len(), 0);
    assert_eq!(updates[1].1.migrated_compiled_classes.len(), 1);
    assert_eq!(updates[1].1.migrated_compiled_classes.get(sierra_hash), Some(&casm_hash));
}

#[test]
fn a_first_compiled_class_hash_is_no_migration() {
    let tables = StateTables {
        declareds: vec![DeclaredRow {
            block_number: 0,
            class_hash: padded(&[0xC0, 0xFF, 0xEE]),
            casm_hash: None,
        }],
        migrateds: vec![MigratedRow {
            block_number: 0,
            class_hash: padded(&[0x51, 0x11, 0xE1]),
            casm_hash: padded(&[0xCA, 0x51]),
        }],
        ..no_rows()
    };
    let updates = migrate_state_updates(&vec![0], &tables).unwrap();
    let b0 = &updates[0].1;
    assert_eq!(b0.declared_cairo_classes.len(), 1);
    assert!(b0.declared_cairo_classes.contains(felt(&[0xC0, 0xFF, 0xEE])));
    assert_eq!(b0.declared_sierra_classes.len(), 0);
    assert_eq!(b0.migrated_compiled_classes.len(), 0);
}

fn merge_error(tables: StateTables) -> MergeError {
    match migrate_state_updates(&vec![0], &tables) {
        Ok(_) => panic!("Expected an error"),
        Err(e) => e,
    }
}

#[test]
fn rows_past_the_last_block_are_an_error() {
    let e = merge_error(StateTables {
        redeclareds: vec![RedeclaredRow { block_number: 1, class_hash: padded(&[1]) }],
        ..no_rows()
    });
    assert_eq!(e, MergeError::RowsPastLastBlock(Table::RedeclaredClasses));
    assert_eq!(e.message(), "redeclared_classes has rows past the last block_headers row");
}

#[test]
fn rows_that_hold_no_field_element_are_an_error() {
    let nonce = |address: Vec<u8>, nonce: Vec<u8>| StateTables {
        nonces: vec![NonceRow { block_number: 0, contract_address: address, nonce }],
        ..no_rows()
    };
    assert_eq!(
        merge_error(nonce(vec![0xFF; 32], vec![1])),
        MergeError::Parsing(Part::ContractAddress)
    );
    assert_eq!(merge_error(nonce(vec![1], vec![0xFF; 32])), MergeError::Parsing(Part::Nonce));
    let mut wide = vec![0u8; 32];
    wide[0] = 0x08;
    assert_eq!(merge_error(nonce(wide, vec![1])), MergeError::CreatingContractAddress);
    assert_eq!(
        merge_error(StateTables {
            redeclareds: vec![RedeclaredRow { block_number: 0, class_hash: vec![0xFF; 32] }],
            ..no_rows()
        }),
        MergeError::Parsing(Part::ClassHash)
    );
    assert_eq!(MergeError::Parsing(Part::ClassHash).message(), "Parsing class hash felt");
}

#[test]
fn blocks_are_merged_one_by_one() {
    let contract = |block_number: u64, class: u8| ContractRow {
        block_number,
        contract_address: vec![7],
        class_hash: vec![class],
    };
    let rows = |list: Vec<ContractRow>| StateTables { contracts: list, ..no_rows() };
    let class = |data: &StateUpdateData| {
        data.contract_updates.get(Felt::from_u64(7)).and_then(|update| update.class)
    };

    let merger = StateMerger::new();
    let (first, merger) = merger.merge_next(&rows(vec![contract(4, 1)]), 4).unwrap();
    assert_eq!(class(&first), Some(ContractClassUpdate::Deploy(Felt::from_u64(1))));
    // The row behind that of the block is left alone.
    let both = rows(vec![contract(5, 2), contract(6, 3)]);
    let (second, merger, places) = merger.merge_from(&both, Places::front(), 5).unwrap();
    assert_eq!(class(&second), Some(ContractClassUpdate::Replace(Felt::from_u64(2))));
    assert_eq!(places, Places { contracts: 1, ..Places::front() });
    let (third, merger) = merger.merge_next(&rows(vec![]), 6).unwrap();
    assert_eq!(class(&third), None);

    let wide = ContractRow { class_hash: vec![1; 33], ..contract(7, 1) };
    let e = merger.merge_next(&rows(vec![wide]), 7).err().unwrap();
    assert_eq!(e, MergeError::Parsing(Part::ClassHash));
}

#[test]
fn the_first_table_with_rows_left_over_is_named() {
    let none = LeftOver {
        nonces: false,
        storages: false,
        declareds: false,
        redeclareds: false,
        migrateds: false,
        contracts: false,
    };
    assert_eq!(none.check(), Ok(()));
    assert_eq!(
        LeftOver { contracts: true, storages: true, ..none }.check(),
        Err(MergeError::RowsPastLastBlock(Table::StorageUpdates))
    );
    assert_eq!(
        LeftOver { contracts: true, ..none }.check(),
        Err(MergeError::RowsPastLastBlock(Table::ContractUpdates))
    );
}
