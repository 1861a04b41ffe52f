//! How a storage is opened.
use pathfinder::felt::Felt;
use pathfinder::storage::block_pruning::BlockchainHistoryMode;
use pathfinder::storage::columns::Column;
use pathfinder::storage::event_filter::{
    first_running_event_filter_block, genesis_event_filter, rebuild_running_event_filter,
    BlockEvents, FilterStart, FilteredEvent,
};
use pathfinder::storage::fd_limit::effective_limit;
use pathfinder::storage::options::{
    determine_blockchain_history_mode, determine_trie_prune_mode, is_ahead, is_migrated,
    last_block, migrate_database, readonly_modes, resolve_rocksdb_location,
    rocksdb_fetch_next_trie_storage_indices, trie_next_index, HistoryDecision, JournalMode,
    MigrationPlan, MissingTempdir, ModeError, OpenMode, PendingPrune, RevisionError,
    RocksdbLocation, StorageBuilder, TriePruneDecision,
};
use pathfinder::storage::reconcile::{NextIndices, ReconcileError};
use pathfinder::storage::store::{Batch, Store};
use pathfinder::storage::transaction::TriePruneMode;
use pathfinder::storage::trie::TrieColumn;

#[test]
fn full_migration() {
    let base = 40u64;
    let migrations = 43usize;
    let plan = migrate_database(0, base, migrations).unwrap();
    assert_eq!(plan, MigrationPlan { apply_base: true, first: 0, revision: base });
    let version = plan.revision + (migrations - plan.first) as u64;
    let expected = migrations as u64 + base;
    assert_eq!(version, expected);
    assert!(is_migrated(version as i64, expected));
    assert!(!is_migrated(version as i64 - 1, expected));
}

#[test]
fn migration_fails_if_db_is_newer() {
    let e = migrate_database(84, 40, 43).unwrap_err();
    assert_eq!(e, RevisionError::TooNew { current: 84, latest: 83 });
    assert_eq!(
        e.message(),
        "Database version 84 is newer than this application expected 83"
    );
    let e = migrate_database(39, 40, 43).unwrap_err();
    assert_eq!(e, RevisionError::TooOld { current: 39 });
    assert_eq!(e.message(), "Database version 39 too old to migrate");
}

#[test]
fn a_migration_resumes_where_the_database_is() {
    assert_eq!(
        migrate_database(50, 40, 43),
        Ok(MigrationPlan { apply_base: false, first: 10, revision: 50 })
    );
    assert_eq!(
        migrate_database(83, 40, 43),
        Ok(MigrationPlan { apply_base: false, first: 43, revision: 83 })
    );
}

#[test]
fn enabling_merkle_trie_pruning_fails_without_flag() {
    assert_eq!(
        determine_trie_prune_mode(
            Some(TriePruneMode::Prune { num_blocks_kept: 10 }),
            false,
            false
        )
        .unwrap_err()
        .message(),
        "Cannot enable Merkle trie pruning on a database that was not created with it enabled."
    );
}

#[test]
fn a_trie_pruning_mode_is_chosen_once() {
    let prune = Some(TriePruneMode::Prune { num_blocks_kept: 10 });
    let created = determine_trie_prune_mode(prune, false, true).unwrap();
    assert_eq!(
        created,
        TriePruneDecision { mode: TriePruneMode::Prune { num_blocks_kept: 10 }, set_flag: true }
    );
    assert_eq!(
        determine_trie_prune_mode(prune, true, false),
        Ok(TriePruneDecision {
            mode: TriePruneMode::Prune { num_blocks_kept: 10 },
            set_flag: false
        })
    );
    let e = determine_trie_prune_mode(None, true, false).unwrap_err();
    assert_eq!(e, ModeError::CannotDisableTriePruning);
    assert_eq!(
        e.message(),
        "Cannot disable Merkle trie pruning on a database that was created with it enabled."
    );
    assert_eq!(
        determine_trie_prune_mode(None, false, true),
        Ok(TriePruneDecision { mode: TriePruneMode::Archive, set_flag: false })
    );
}

#[test]
fn a_history_mode_is_chosen_once() {
    let prune = |num_blocks_kept: u64| Some(BlockchainHistoryMode::Prune { num_blocks_kept });
    assert_eq!(
        determine_blockchain_history_mode(None, None, true, None),
        Ok(HistoryDecision {
            mode: BlockchainHistoryMode::Archive,
            store: None,
            pending_prune: None
        })
    );
    assert_eq!(
        determine_blockchain_history_mode(prune(5), None, true, None).unwrap().store,
        Some(5)
    );
    // A shorter history leaves the oldest blocks to be pruned.
    let shorter = determine_blockchain_history_mode(prune(3), Some(5), false, Some(10)).unwrap();
    let pending = PendingPrune { oldest: 10, num_blocks_to_remove: 2 };
    assert_eq!(shorter.pending_prune, Some(pending));
    assert_eq!(pending.range(), (10, 12));
    assert_eq!(
        determine_blockchain_history_mode(prune(9), Some(5), false, Some(10))
            .unwrap()
            .pending_prune,
        None
    );
    assert_eq!(
        determine_blockchain_history_mode(prune(3), None, false, Some(10)),
        Err(ModeError::CannotEnableHistoryPruning)
    );
    assert_eq!(
        determine_blockchain_history_mode(None, Some(5), false, Some(10)),
        Err(ModeError::CannotDisableHistoryPruning)
    );
    assert_eq!(
        determine_blockchain_history_mode(prune(u64::MAX), Some(5), false, Some(10)),
        Err(ModeError::HistoryTooLong)
    );
}

#[test]
fn migrate_rejects_in_memory_uri_without_preassigned_tempdir() {
    let uri = "file:memdb_no_tempdir?mode=memory&cache=shared";
    let builder = StorageBuilder::file(uri.to_string());
    let Err(err) = resolve_rocksdb_location(Some(uri), builder.rocksdb_tempdir) else {
        panic!("an in-memory URI needs a preassigned tempdir");
    };
    let message = err.message(OpenMode::Migrate);
    assert!(
        message.contains("preassigned RocksDB tempdir"),
        "error should mention the missing preassigned tempdir, got: {message}"
    );
}

#[test]
fn the_key_value_store_lies_beside_the_database() {
    assert!(matches!(
        resolve_rocksdb_location(Some("/data/mainnet.sqlite"), None),
        Ok(RocksdbLocation::BesideDatabase(None))
    ));
    assert!(matches!(
        resolve_rocksdb_location(None, None),
        Ok(RocksdbLocation::BesideDatabase(None))
    ));
    assert!(matches!(
        resolve_rocksdb_location(Some("file:memdb1?mode=memory"), Some("/tmp/x".to_string())),
        Ok(RocksdbLocation::Tempdir(dir)) if dir == "/tmp/x"
    ));
    assert_eq!(
        MissingTempdir.message(OpenMode::ReadOnly),
        "readonly() does not support in-memory SQLite URIs"
    );
}

#[test]
fn builder_options_replace_one_another() {
    let builder = StorageBuilder::file("db".to_string())
        .journal_mode(JournalMode::Rollback)
        .event_filter_cache_size(4)
        .trie_prune_mode(Some(TriePruneMode::Archive))
        .blockchain_history_mode(Some(BlockchainHistoryMode::Archive))
        .rocksdb_tempdir("dir".to_string());
    assert_eq!(builder.database_path, "db");
    assert_eq!(builder.journal_mode, JournalMode::Rollback);
    assert_eq!(builder.event_filter_cache_size, 4);
    assert_eq!(builder.trie_prune_mode, Some(TriePruneMode::Archive));
    assert_eq!(builder.blockchain_history_mode, Some(BlockchainHistoryMode::Archive));
    assert_eq!(builder.rocksdb_tempdir.as_deref(), Some("dir"));
    let default = StorageBuilder::file("db".to_string());
    assert_eq!(default.journal_mode, JournalMode::WAL);
    assert_eq!(default.event_filter_cache_size, 16);
}

#[test]
fn journal_modes_have_their_pragmas() {
    assert_eq!(JournalMode::Rollback.pragma(), "DELETE");
    assert_eq!(JournalMode::Rollback.size_limit(), None);
    assert_eq!(JournalMode::Rollback.synchronous(), "full");
    assert_eq!(JournalMode::WAL.pragma(), "WAL");
    assert_eq!(JournalMode::WAL.size_limit(), Some(1 << 30));
    assert_eq!(JournalMode::WAL.synchronous(), "normal");
}

#[test]
fn a_readonly_storage_takes_the_modes_of_the_database() {
    assert_eq!(
        readonly_modes(Some(7), true),
        (
            BlockchainHistoryMode::Prune { num_blocks_kept: 7 },
            TriePruneMode::Prune { num_blocks_kept: 20 }
        )
    );
    assert_eq!(
        readonly_modes(None, false),
        (BlockchainHistoryMode::Archive, TriePruneMode::Archive)
    );
}

#[test]
fn a_key_value_store_ahead_of_the_database_is_noticed() {
    assert!(is_ahead(Some(4), Some(5)));
    assert!(is_ahead(None, Some(0)));
    assert!(!is_ahead(Some(5), Some(5)));
    assert!(!is_ahead(Some(5), None));
    assert_eq!(last_block(Some(&9u64.to_be_bytes())), Some(9));
    assert_eq!(last_block(Some(&[1, 2])), None);
    assert_eq!(last_block(None), None);
}

#[test]
fn next_indices_are_read_from_the_store() {
    let mut store = Store::new();
    assert_eq!(
        rocksdb_fetch_next_trie_storage_indices(&store),
        Ok(NextIndices { class: 0, contract: 0, storage: 0 })
    );
    let mut batch = Batch::new();
    batch.put(
        Column::TrieNextIndex,
        TrieColumn::Storage.next_index_key(),
        12u64.to_be_bytes().to_vec(),
    );
    batch.put(Column::TrieNextIndex, TrieColumn::Class.next_index_key(), vec![1]);
    store.write(&batch);
    assert_eq!(trie_next_index(&store, TrieColumn::Storage), Ok(12));
    assert_eq!(
        rocksdb_fetch_next_trie_storage_indices(&store),
        Err(ReconcileError::CounterLength(TrieColumn::Class, 1))
    );
}

#[test]
fn the_running_filter_starts_behind_the_last_complete_one() {
    assert_eq!(first_running_event_filter_block(None, 5, 8), FilterStart::From(0));
    assert_eq!(first_running_event_filter_block(None, 17, 8), FilterStart::From(16));
    assert_eq!(first_running_event_filter_block(Some(7), 7, 8), FilterStart::Empty(8));
    assert_eq!(first_running_event_filter_block(Some(7), 9, 8), FilterStart::From(8));
    let filter = genesis_event_filter();
    assert_eq!((filter.from_block, filter.next_block, filter.blocks.len()), (0, 0, 0));
}

#[test]
fn the_running_filter_is_rebuilt_from_stored_events() {
    let block = |block_number: u64, kept: bool| BlockEvents {
        block_number,
        events: if kept {
            Some(vec![FilteredEvent {
                from_address: Felt::from_u64(block_number),
                keys: vec![Felt::from_u64(0xdeadbeef)],
            }])
        } else {
            None
        },
    };
    let filter = rebuild_running_event_filter(
        FilterStart::From(8),
        11,
        vec![block(8, true), block(9, true), block(10, false), block(11, true)],
    );
    assert_eq!(filter.from_block, 8);
    assert_eq!(filter.next_block, 12);
    assert_eq!(filter.blocks.iter().map(|(n, _)| *n).collect::<Vec<_>>(), vec![8, 9]);
    assert_eq!(filter.blocks[1].1[0].from_address, Felt::from_u64(9));

    let empty = rebuild_running_event_filter(FilterStart::Empty(8), 7, vec![]);
    assert_eq!((empty.from_block, empty.next_block, empty.blocks.len()), (8, 8, 0));
}

#[test]
fn the_raised_limit_counts_where_it_is_known() {
    assert_eq!(effective_limit(Some(1024), true, Some(4096)), Some(4096));
    assert_eq!(effective_limit(Some(1024), true, None), Some(1024));
    assert_eq!(effective_limit(Some(1024), false, Some(4096)), Some(1024));
    assert_eq!(effective_limit(None, true, Some(4096)), None);
}
