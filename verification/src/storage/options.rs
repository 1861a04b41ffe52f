//! How a storage is opened: its options, the pruning modes that it is held to, and the migrations
//! that it needs.
use vstd::prelude::*;
use vstd::string::*;

use crate::bytes::{be_value, u64_from_be_bytes};
use crate::storage::block_pruning::BlockchainHistoryMode;
use crate::storage::columns::Column;
use crate::storage::reconcile::{read_trie_next_index, NextIndices, ReconcileError};
use crate::storage::store::{Contents, Store};
use crate::storage::transaction::TriePruneMode;
use crate::storage::trie::{next_index_key, TrieColumn};
use crate::text::{decimal, has_text_prefix, push_decimal, starts_with_text};

verus! {

/// The journal mode of the relational database.
#[derive(Clone, Copy, Debug, PartialEq, Eq, Structural)]
pub enum JournalMode {
    Rollback,
    WAL,
}

impl JournalMode {
    /// The value of the `journal_mode` pragma.
    pub fn pragma(self) -> (r: &'static str)
        ensures
            r@ == match self {
                JournalMode::Rollback => "DELETE"@,
                JournalMode::WAL => "WAL"@,
            },
    {
        match self {
            JournalMode::Rollback => "DELETE",
            JournalMode::WAL => "WAL",
        }
    }

    /// The value of the `journal_size_limit` pragma, where it is set: 1 GB.
    pub fn size_limit(self) -> (r: Option<u64>)
        ensures
            r == match self {
                JournalMode::Rollback => None::<u64>,
                JournalMode::WAL => Some(1073741824),
            },
    {
        match self {
            JournalMode::Rollback => None,
            JournalMode::WAL => Some(1024 * 1024 * 1024),
        }
    }

    /// The value of the `synchronous` pragma.
    pub fn synchronous(self) -> (r: &'static str)
        ensures
            r@ == match self {
                JournalMode::Rollback => "full"@,
                JournalMode::WAL => "normal"@,
            },
    {
        match self {
            JournalMode::Rollback => "full",
            JournalMode::WAL => "normal",
        }
    }
}

/// The history that a pruned trie keeps where nothing else is known.
pub const DEFAULT_TRIE_HISTORY: u64 = 20;

/// The filters that are cached by default.
pub const DEFAULT_FILTER_CACHE_SIZE: usize = 16;

/// The options that a storage is opened with.
#[derive(Debug)]
pub struct StorageBuilder {
    pub database_path: String,
    pub journal_mode: JournalMode,
    pub event_filter_cache_size: usize,
    pub trie_prune_mode: Option<TriePruneMode>,
    pub blockchain_history_mode: Option<BlockchainHistoryMode>,
    /// The directory that was set aside for the key-value store of an ephemeral storage.
    pub rocksdb_tempdir: Option<String>,
}

impl StorageBuilder {
    pub fn file(database_path: String) -> (r: Self)
        ensures
            r == (StorageBuilder {
                database_path,
                journal_mode: JournalMode::WAL,
                event_filter_cache_size: DEFAULT_FILTER_CACHE_SIZE,
                trie_prune_mode: None,
                blockchain_history_mode: None,
                rocksdb_tempdir: None,
            }),
    {
        StorageBuilder {
            database_path,
            journal_mode: JournalMode::WAL,
            event_filter_cache_size: DEFAULT_FILTER_CACHE_SIZE,
            trie_prune_mode: None,
            blockchain_history_mode: None,
            rocksdb_tempdir: None,
        }
    }

    pub fn journal_mode(self, journal_mode: JournalMode) -> (r: Self)
        ensures
            r == (StorageBuilder { journal_mode, ..self }),
    {
        StorageBuilder { journal_mode, ..self }
    }

    pub fn event_filter_cache_size(self, event_filter_cache_size: usize) -> (r: Self)
        ensures
            r == (StorageBuilder { event_filter_cache_size, ..self }),
    {
        StorageBuilder { event_filter_cache_size, ..self }
    }

    pub fn trie_prune_mode(self, trie_prune_mode: Option<TriePruneMode>) -> (r: Self)
        ensures
            r == (StorageBuilder { trie_prune_mode, ..self }),
    {
        StorageBuilder { trie_prune_mode, ..self }
    }

    pub fn blockchain_history_mode(self, blockchain_history_mode: Option<BlockchainHistoryMode>) -> (r:
        Self)
        ensures
            r == (StorageBuilder { blockchain_history_mode, ..self }),
    {
        StorageBuilder { blockchain_history_mode, ..self }
    }

    pub fn rocksdb_tempdir(self, tempdir: String) -> (r: Self)
        ensures
            r == (StorageBuilder { rocksdb_tempdir: Some(tempdir), ..self }),
    {
        StorageBuilder { rocksdb_tempdir: Some(tempdir), ..self }
    }
}

/// Where the key-value store lies.
#[derive(Debug)]
pub enum RocksdbLocation {
    /// In the directory that was set aside, which holds nothing else.
    Tempdir(String),
    /// Beside the relational database. A directory that was set aside is kept for as long.
    BesideDatabase(Option<String>),
}

/// A relational database in memory needs a directory set aside for the key-value store.
#[derive(Clone, Copy, Debug, PartialEq, Eq, Structural)]
pub struct MissingTempdir;

/// Whether a path names a database in memory. A path that is no text does not.
pub open spec fn is_in_memory(path: Option<Seq<char>>) -> bool {
    path matches Some(p) && starts_with_text(p, "file:memdb"@)
}

/// Picks the place of the key-value store. The path of the database is given where it is text.
pub fn resolve_rocksdb_location(database_path: Option<&str>, tempdir: Option<String>) -> (r: Result<
    RocksdbLocation,
    MissingTempdir,
>)
    ensures
        ({
            let path = match database_path {
                Some(p) => Some(p@),
                None => None,
            };
            r == (if is_in_memory(path) {
                match tempdir {
                    Some(dir) => Ok(RocksdbLocation::Tempdir(dir)),
                    None => Err(MissingTempdir),
                }
            } else {
                Ok(RocksdbLocation::BesideDatabase(tempdir))
            })
        }),
{
    let in_memory: bool = match database_path {
        Some(p) => has_text_prefix(p, "file:memdb"),
        None => false,
    };
    if in_memory {
        match tempdir {
            Some(dir) => Ok(RocksdbLocation::Tempdir(dir)),
            None => Err(MissingTempdir),
        }
    } else {
        Ok(RocksdbLocation::BesideDatabase(tempdir))
    }
}

/// How a storage is opened.
#[derive(Clone, Copy, Debug, PartialEq, Eq, Structural)]
pub enum OpenMode {
    Migrate,
    ReadOnly,
}

impl MissingTempdir {
    pub fn message(&self, mode: OpenMode) -> (r: &'static str)
        ensures
            r@ == match mode {
                OpenMode::Migrate => "in-memory SQLite URI requires a preassigned RocksDB tempdir; use one of the ephemeral constructors on StorageBuilder"@,
                OpenMode::ReadOnly => "readonly() does not support in-memory SQLite URIs"@,
            },
    {
        match mode {
            OpenMode::Migrate => "in-memory SQLite URI requires a preassigned RocksDB tempdir; use one of the ephemeral constructors on StorageBuilder",
            OpenMode::ReadOnly => "readonly() does not support in-memory SQLite URIs",
        }
    }
}

/// Why a requested mode does not fit a database.
#[derive(Clone, Copy, Debug, PartialEq, Eq, Structural)]
pub enum ModeError {
    CannotDisableTriePruning,
    CannotEnableTriePruning,
    CannotDisableHistoryPruning,
    CannotEnableHistoryPruning,
    /// The number of blocks kept does not fit a signed integer.
    HistoryTooLong,
}

impl ModeError {
    pub fn message(&self) -> (r: &'static str)
        ensures
            r@ == match self {
                ModeError::CannotDisableTriePruning => "Cannot disable Merkle trie pruning on a database that was created with it enabled."@,
                ModeError::CannotEnableTriePruning => "Cannot enable Merkle trie pruning on a database that was not created with it enabled."@,
                ModeError::CannotDisableHistoryPruning => "Cannot disable blockchain history pruning on a database that was created with it enabled."@,
                ModeError::CannotEnableHistoryPruning => "Cannot enable blockchain history pruning on a database that was created with it disabled."@,
                ModeError::HistoryTooLong => "The number of blocks kept does not fit a signed integer."@,
            },
    {
        match self {
            ModeError::CannotDisableTriePruning => "Cannot disable Merkle trie pruning on a database that was created with it enabled.",
            ModeError::CannotEnableTriePruning => "Cannot enable Merkle trie pruning on a database that was not created with it enabled.",
            ModeError::CannotDisableHistoryPruning => "Cannot disable blockchain history pruning on a database that was created with it enabled.",
            ModeError::CannotEnableHistoryPruning => "Cannot enable blockchain history pruning on a database that was created with it disabled.",
            ModeError::HistoryTooLong => "The number of blocks kept does not fit a signed integer.",
        }
    }
}

/// The trie pruning mode of a storage.
#[derive(Clone, Copy, Debug, PartialEq, Eq, Structural)]
pub struct TriePruneDecision {
    pub mode: TriePruneMode,
    /// Whether the database is to be flagged as pruned.
    pub set_flag: bool,
}

/// The trie pruning mode for a request, where none stands for archiving.
///
/// Archiving needs a database that is not flagged as pruned, pruning one that is flagged or new. A
/// new database that is to be pruned is flagged.
pub open spec fn trie_prune_decision(
    requested: Option<TriePruneMode>,
    prune_flag_is_set: bool,
    is_new_database: bool,
) -> Result<TriePruneDecision, ModeError> {
    let mode = match requested {
        Some(m) => m,
        None => TriePruneMode::Archive,
    };
    match mode {
        TriePruneMode::Archive => if prune_flag_is_set {
            Err(ModeError::CannotDisableTriePruning)
        } else {
            Ok(TriePruneDecision { mode, set_flag: false })
        },
        TriePruneMode::Prune { .. } => if is_new_database || prune_flag_is_set {
            Ok(TriePruneDecision { mode, set_flag: is_new_database })
        } else {
            Err(ModeError::CannotEnableTriePruning)
        },
    }
}

/// - If there is no explicitly requested configuration, assumes the user wants to archive. If this
///   doesn't match the database setting, errors.
/// - If there's an explicitly requested setting: uses it if it matches the database setting, enables
///   pruning and sets the flag in the database. Otherwise errors.
pub fn determine_trie_prune_mode(
    requested: Option<TriePruneMode>,
    prune_flag_is_set: bool,
    is_new_database: bool,
) -> (r: Result<TriePruneDecision, ModeError>)
    ensures
        r == trie_prune_decision(requested, prune_flag_is_set, is_new_database),
{
    let mode: TriePruneMode = match requested {
        Some(m) => m,
        None => TriePruneMode::Archive,
    };
    match mode {
        TriePruneMode::Archive => if prune_flag_is_set {
            Err(ModeError::CannotDisableTriePruning)
        } else {
            Ok(TriePruneDecision { mode, set_flag: false })
        },
        TriePruneMode::Prune { .. } => if !is_new_database && !prune_flag_is_set {
            Err(ModeError::CannotEnableTriePruning)
        } else {
            Ok(TriePruneDecision { mode, set_flag: is_new_database })
        },
    }
}

/// Blocks to prune once the storage is open: those that a shorter history no longer covers.
#[derive(Clone, Copy, Debug, PartialEq, Eq, Structural)]
pub struct PendingPrune {
    pub oldest: u64,
    pub num_blocks_to_remove: u64,
}

impl PendingPrune {
    /// The first block to prune and the one after the last.
    pub fn range(&self) -> (r: (u64, u64))
        requires
            self.oldest + self.num_blocks_to_remove <= u64::MAX,
        ensures
            r.0 == self.oldest,
            r.1 == self.oldest + self.num_blocks_to_remove,
    {
        (self.oldest, self.oldest + self.num_blocks_to_remove)
    }
}

/// The blockchain history mode of a storage.
#[derive(Clone, Copy, Debug, PartialEq, Eq, Structural)]
pub struct HistoryDecision {
    pub mode: BlockchainHistoryMode,
    /// The number of blocks kept that the database is to remember.
    pub store: Option<u64>,
    pub pending_prune: Option<PendingPrune>,
}

/// The decision for a history mode, given the number of blocks that the database remembers and its
/// oldest block.
pub open spec fn history_decision(
    mode: BlockchainHistoryMode,
    stored: Option<u64>,
    is_new_database: bool,
    oldest: Option<u64>,
) -> Result<HistoryDecision, ModeError> {
    match mode {
        BlockchainHistoryMode::Archive => if stored is Some {
            Err(ModeError::CannotDisableHistoryPruning)
        } else {
            Ok(HistoryDecision { mode, store: None, pending_prune: None })
        },
        BlockchainHistoryMode::Prune { num_blocks_kept } => if stored is None && !is_new_database {
            Err(ModeError::CannotEnableHistoryPruning)
        } else if num_blocks_kept > i64::MAX {
            Err(ModeError::HistoryTooLong)
        } else {
            Ok(
                HistoryDecision {
                    mode,
                    store: Some(num_blocks_kept),
                    pending_prune: match (stored, oldest) {
                        (Some(before), Some(oldest)) => if !is_new_database && before
                            > num_blocks_kept {
                            Some(
                                PendingPrune {
                                    oldest,
                                    num_blocks_to_remove: (before - num_blocks_kept) as u64,
                                },
                            )
                        } else {
                            None
                        },
                        _ => None,
                    },
                },
            )
        },
    }
}

/// Holds a history mode against what the database was created with. Where the history got shorter,
/// the oldest blocks are to be pruned; where it got longer, nothing needs doing, since the gap is
/// filled as new blocks come in.
pub fn validate_mode_and_update_db(
    mode: BlockchainHistoryMode,
    init_num_blocks_kept: Option<u64>,
    is_new_database: bool,
    oldest: Option<u64>,
) -> (r: Result<HistoryDecision, ModeError>)
    ensures
        r == history_decision(mode, init_num_blocks_kept, is_new_database, oldest),
{
    match mode {
        BlockchainHistoryMode::Archive => {
            if init_num_blocks_kept.is_some() {
                return Err(ModeError::CannotDisableHistoryPruning);
            }
            Ok(HistoryDecision { mode, store: None, pending_prune: None })
        },
        BlockchainHistoryMode::Prune { num_blocks_kept } => {
            let before: u64 = match init_num_blocks_kept {
                Some(before) => before,
                None => {
                    if is_new_database {
                        num_blocks_kept
                    } else {
                        return Err(ModeError::CannotEnableHistoryPruning);
                    }
                },
            };
            if num_blocks_kept > 0x7fff_ffff_ffff_ffff {
                return Err(ModeError::HistoryTooLong);
            }
            if is_new_database || before <= num_blocks_kept {
                return Ok(
                    HistoryDecision { mode, store: Some(num_blocks_kept), pending_prune: None },
                );
            }
            let pending_prune: Option<PendingPrune> = match oldest {
                Some(oldest) => Some(
                    PendingPrune { oldest, num_blocks_to_remove: before - num_blocks_kept },
                ),
                None => None,
            };
            Ok(HistoryDecision { mode, store: Some(num_blocks_kept), pending_prune })
        },
    }
}

/// The blockchain history mode for a request, where none stands for archiving.
///
/// - If there is no explicitly requested configuration, assumes the user wants to archive. If this
///   doesn't match the database setting, errors.
/// - If there's an explicitly requested setting: uses it if it matches the database setting,
///   otherwise errors.
/// - If the database is new and no configuration is provided, the database is created in archive
///   mode.
/// - Once the history mode is chosen, it cannot be changed (the history size can change from run to
///   run in pruning mode).
pub fn determine_blockchain_history_mode(
    requested: Option<BlockchainHistoryMode>,
    init_num_blocks_kept: Option<u64>,
    is_new_database: bool,
    oldest: Option<u64>,
) -> (r: Result<HistoryDecision, ModeError>)
    ensures
        r == history_decision(
            match requested {
                Some(mode) => mode,
                None => BlockchainHistoryMode::Archive,
            },
            init_num_blocks_kept,
            is_new_database,
            oldest,
        ),
{
    let mode: BlockchainHistoryMode = match requested {
        Some(mode) => mode,
        None => BlockchainHistoryMode::Archive,
    };
    validate_mode_and_update_db(mode, init_num_blocks_kept, is_new_database, oldest)
}

/// The trie pruning mode that a database is flagged with once a decision has been carried out.
pub open spec fn flag_after(flag: bool, d: TriePruneDecision) -> bool {
    flag || d.set_flag
}

/// The number of blocks kept that a database remembers once a decision has been carried out.
pub open spec fn stored_after(stored: Option<u64>, d: HistoryDecision) -> Option<u64> {
    match d.store {
        Some(n) => Some(n),
        None => stored,
    }
}

/// Once the trie pruning mode of a new database is chosen it cannot be changed: whatever was
/// accepted for it, a later run is accepted only if it archives too, or prunes too.
pub proof fn law_trie_mode_is_fixed(
    first: Option<TriePruneMode>,
    later: Option<TriePruneMode>,
)
    ensures
        trie_prune_decision(first, false, true) matches Ok(d) && ({
            let flag = flag_after(false, d);
            &&& trie_prune_decision(later, flag, false) is Ok <==> (
                (later is None || later == Some(TriePruneMode::Archive)) <==> d.mode
                    == TriePruneMode::Archive
            )
            &&& trie_prune_decision(later, flag, false) matches Ok(e) ==> flag_after(flag, e) == flag
        }),
{
}

/// Once the history mode of a new database is chosen it cannot be changed; in pruning mode the size
/// can.
pub proof fn law_history_mode_is_fixed(
    first: BlockchainHistoryMode,
    later: BlockchainHistoryMode,
    oldest: Option<u64>,
)
    requires
        first matches BlockchainHistoryMode::Prune { num_blocks_kept } ==> num_blocks_kept <= i64::MAX,
        later matches BlockchainHistoryMode::Prune { num_blocks_kept } ==> num_blocks_kept <= i64::MAX,
    ensures
        history_decision(first, None, true, None) matches Ok(d) && ({
            let stored = stored_after(None, d);
            &&& history_decision(later, stored, false, oldest) is Ok <==> (later
                == BlockchainHistoryMode::Archive <==> first == BlockchainHistoryMode::Archive)
            &&& history_decision(later, stored, false, oldest) matches Ok(e) ==> (stored_after(
                stored,
                e,
            ) is Some <==> stored is Some)
        }),
{
}

/// The history mode of a storage that is only read.
pub open spec fn readonly_history(stored: Option<u64>) -> BlockchainHistoryMode {
    match stored {
        Some(num_blocks_kept) => BlockchainHistoryMode::Prune { num_blocks_kept },
        None => BlockchainHistoryMode::Archive,
    }
}

/// The trie pruning mode of a storage that is only read.
pub open spec fn readonly_tries(flag: bool) -> TriePruneMode {
    if flag {
        TriePruneMode::Prune { num_blocks_kept: DEFAULT_TRIE_HISTORY }
    } else {
        TriePruneMode::Archive
    }
}

/// The modes of a storage that is only read: those that the database was written with.
pub fn readonly_modes(init_num_blocks_kept: Option<u64>, prune_flag_is_set: bool) -> (r: (
    BlockchainHistoryMode,
    TriePruneMode,
))
    ensures
        r.0 == readonly_history(init_num_blocks_kept),
        r.1 == readonly_tries(prune_flag_is_set),
{
    let history: BlockchainHistoryMode = match init_num_blocks_kept {
        Some(num_blocks_kept) => BlockchainHistoryMode::Prune { num_blocks_kept },
        None => BlockchainHistoryMode::Archive,
    };
    let trie: TriePruneMode = if prune_flag_is_set {
        TriePruneMode::Prune { num_blocks_kept: DEFAULT_TRIE_HISTORY }
    } else {
        TriePruneMode::Archive
    };
    (history, trie)
}

/// The block that a key of the state updates stands for.
pub open spec fn block_of_key(key: Option<Seq<u8>>) -> Option<u64> {
    match key {
        Some(k) => if k.len() == 8 {
            Some(be_value(k) as u64)
        } else {
            None
        },
        None => None,
    }
}

/// The block that the last key of the state updates stands for. A key of another length than a
/// block number's stands for none.
pub fn last_block(last_key: Option<&[u8]>) -> (r: Option<u64>)
    ensures
        r == block_of_key(
            match last_key {
                Some(k) => Some(k@),
                None => None,
            },
        ),
{
    match last_key {
        Some(k) => u64_from_be_bytes(k),
        None => None,
    }
}

/// Whether the key-value store is ahead of the relational database, by their highest blocks.
pub open spec fn ahead(sqlite_highest: Option<u64>, rocksdb_highest: Option<u64>) -> bool {
    match (rocksdb_highest, sqlite_highest) {
        (None, _) => false,
        (Some(_), None) => true,
        (Some(rocks), Some(sqlite)) => rocks > sqlite,
    }
}

/// Whether the key-value store holds blocks that the relational database does not know: then the two
/// may not agree, and a storage that is only read cannot mend that.
pub fn is_ahead(sqlite_highest: Option<u64>, rocksdb_highest: Option<u64>) -> (r: bool)
    ensures
        r == ahead(sqlite_highest, rocksdb_highest),
{
    match rocksdb_highest {
        None => false,
        Some(rocks) => match sqlite_highest {
            None => true,
            Some(sqlite) => rocks > sqlite,
        },
    }
}

/// A database revision that cannot be migrated.
#[derive(Clone, Copy, Debug, PartialEq, Eq, Structural)]
pub enum RevisionError {
    TooOld { current: u64 },
    TooNew { current: u64, latest: u64 },
}

/// The text of a revision error.
pub open spec fn revision_error_text(e: RevisionError) -> Seq<char> {
    match e {
        RevisionError::TooOld { current } => "Database version "@ + decimal(current as nat)
            + " too old to migrate"@,
        RevisionError::TooNew { current, latest } => "Database version "@ + decimal(current as nat)
            + " is newer than this application expected "@ + decimal(latest as nat),
    }
}

impl RevisionError {
    pub fn message(&self) -> (r: String)
        ensures
            r@ == revision_error_text(*self),
    {
        let mut s: String = String::from_str("Database version ");
        match self {
            RevisionError::TooOld { current } => {
                push_decimal(&mut s, *current);
                s.append(" too old to migrate");
            },
            RevisionError::TooNew { current, latest } => {
                push_decimal(&mut s, *current);
                s.append(" is newer than this application expected ");
                push_decimal(&mut s, *latest);
            },
        }
        s
    }
}

/// What a database needs to come to the latest revision.
#[derive(Clone, Copy, Debug, PartialEq, Eq, Structural)]
pub struct MigrationPlan {
    /// Whether the base schema is to be created first.
    pub apply_base: bool,
    /// The first of the known migrations to run; the later ones follow it.
    pub first: usize,
    /// The revision before that migration.
    pub revision: u64,
}

/// The plan for a database at a revision, given the revision of the base schema and the number of
/// migrations from there.
pub open spec fn migration_plan(current: u64, base: u64, migrations: usize) -> Result<
    MigrationPlan,
    RevisionError,
> {
    let latest = base + migrations;
    let revision = if current == 0 {
        base
    } else {
        current
    };
    if revision < base {
        Err(RevisionError::TooOld { current: revision })
    } else if revision > latest {
        Err(RevisionError::TooNew { current: revision, latest: latest as u64 })
    } else {
        Ok(
            MigrationPlan {
                apply_base: current == 0,
                first: (revision - base) as usize,
                revision,
            },
        )
    }
}

/// Plans the migration of a database. A database at revision 0 is new.
pub fn migrate_database(current: u64, base: u64, migrations: usize) -> (r: Result<
    MigrationPlan,
    RevisionError,
>)
    requires
        base + migrations <= u64::MAX,
    ensures
        r == migration_plan(current, base, migrations),
{
    let latest: u64 = base + migrations as u64;
    let revision: u64 = if current == 0 {
        base
    } else {
        current
    };
    if revision < base {
        return Err(RevisionError::TooOld { current: revision });
    }
    if revision > latest {
        return Err(RevisionError::TooNew { current: revision, latest });
    }
    Ok(
        MigrationPlan {
            apply_base: current == 0,
            first: (revision - base) as usize,
            revision,
        },
    )
}

/// Running the migrations of a plan, each of which raises the revision by one, ends at the latest
/// revision; a database that is there needs none.
pub proof fn law_migration_reaches_latest(current: u64, base: u64, migrations: usize)
    requires
        base + migrations <= u64::MAX,
    ensures
        migration_plan(current, base, migrations) matches Ok(plan) ==> {
            &&& plan.first <= migrations
            &&& plan.revision + (migrations - plan.first) == base + migrations
            &&& plan.revision >= base
            &&& current == base + migrations && current > 0 ==> plan.first == migrations
                && !plan.apply_base
        },
        migration_plan((base + migrations) as u64, base, migrations) is Ok,
{
}

/// Whether a database is at the latest revision.
pub fn is_migrated(user_version: i64, latest: u64) -> (r: bool)
    requires
        latest <= i64::MAX,
    ensures
        r == (user_version == latest),
{
    user_version == latest as i64
}

/// The next free index that a store holds for a trie: 0 where it holds none.
pub open spec fn next_index_in(db: Contents, t: TrieColumn) -> Result<u64, ReconcileError> {
    let column = db[Column::TrieNextIndex];
    if column.contains_key(next_index_key(t)) {
        let v = column[next_index_key(t)];
        if v.len() == 8 {
            Ok(be_value(v) as u64)
        } else {
            Err(ReconcileError::CounterLength(t, v.len() as usize))
        }
    } else {
        Ok(0)
    }
}

pub fn trie_next_index(store: &Store, t: TrieColumn) -> (r: Result<u64, ReconcileError>)
    ensures
        r == next_index_in(store@, t),
{
    let key = t.next_index_key();
    match read_trie_next_index(store.column(Column::TrieNextIndex).get(key.as_slice()), t) {
        Err(e) => Err(e),
        Ok(Some(x)) => Ok(x),
        Ok(None) => Ok(0),
    }
}

/// The next free indices that a store holds for the three tries.
pub fn rocksdb_fetch_next_trie_storage_indices(store: &Store) -> (r: Result<
    NextIndices,
    ReconcileError,
>)
    ensures
        r == match next_index_in(store@, TrieColumn::Class) {
            Err(e) => Err(e),
            Ok(class) => match next_index_in(store@, TrieColumn::Contract) {
                Err(e) => Err(e),
                Ok(contract) => match next_index_in(store@, TrieColumn::Storage) {
                    Err(e) => Err(e),
                    Ok(storage) => Ok(NextIndices { class, contract, storage }),
                },
            },
        },
{
    let class: u64 = match trie_next_index(store, TrieColumn::Class) {
        Ok(x) => x,
        Err(e) => {
            return Err(e);
        },
    };
    let contract: u64 = match trie_next_index(store, TrieColumn::Contract) {
        Ok(x) => x,
        Err(e) => {
            return Err(e);
        },
    };
    let storage: u64 = match trie_next_index(store, TrieColumn::Storage) {
        Ok(x) => x,
        Err(e) => {
            return Err(e);
        },
    };
    Ok(NextIndices { class, contract, storage })
}

} // verus!
