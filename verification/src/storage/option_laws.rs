//! What opening a storage decides: modes are taken as asked for or refused, a shorter history is pruned by
//! what it is shorter, and what was stored is found again.
use vstd::prelude::*;

use crate::bytes::{be_u64, lemma_be_u64_value};
use crate::storage::block_pruning::BlockchainHistoryMode;
use crate::storage::columns::Column;
use crate::storage::options::{
    ahead, block_of_key, flag_after, history_decision, is_in_memory, migration_plan, next_index_in,
    readonly_history, readonly_tries, revision_error_text, stored_after, trie_prune_decision,
    ModeError, RevisionError,
};
use crate::storage::reconcile::{orphan_range, ReconcileError};
use crate::storage::store::{apply_op, Contents, Op};
use crate::storage::transaction::TriePruneMode;
use crate::storage::trie::{lemma_next_index_keys, next_index_key, TrieColumn};
use crate::text::decimal;

verus! {

/// The trie pruning mode asked for is taken, and archiving where none is. Archiving is refused
/// exactly where the database is flagged as pruned, pruning exactly where it is neither flagged nor
/// new; the flag is set exactly where a new database is to be pruned.
pub proof fn law_trie_mode_is_taken_or_refused(
    requested: Option<TriePruneMode>,
    flagged: bool,
    is_new: bool,
)
    ensures
        ({
            let prunes = requested matches Some(TriePruneMode::Prune { .. });
            let r = trie_prune_decision(requested, flagged, is_new);
            &&& r is Ok <==> (if prunes {
                flagged || is_new
            } else {
                !flagged
            })
            &&& r matches Ok(d) ==> {
                &&& requested matches Some(mode) ==> d.mode == mode
                &&& requested is None ==> d.mode is Archive
                &&& d.set_flag <==> prunes && is_new
            }
            &&& r matches Err(e) ==> e == (if prunes {
                ModeError::CannotEnableTriePruning
            } else {
                ModeError::CannotDisableTriePruning
            })
        }),
{
}

/// The history mode asked for is taken. Archiving is refused exactly where the database remembers a
/// number of blocks, pruning where it remembers none though it is not new, or where the number does
/// not fit. The number is remembered exactly where history is pruned.
pub proof fn law_history_mode_is_taken_or_refused(
    mode: BlockchainHistoryMode,
    stored: Option<u64>,
    is_new: bool,
    oldest: Option<u64>,
)
    ensures
        ({
            let r = history_decision(mode, stored, is_new, oldest);
            &&& r matches Ok(d) ==> d.mode == mode
            &&& match mode {
                BlockchainHistoryMode::Archive => {
                    &&& r is Ok <==> stored is None
                    &&& r matches Ok(d) ==> d.store is None && d.pending_prune is None
                    &&& r matches Err(e) ==> e == ModeError::CannotDisableHistoryPruning
                },
                BlockchainHistoryMode::Prune { num_blocks_kept } => {
                    &&& r is Ok <==> (stored is Some || is_new) && num_blocks_kept <= i64::MAX
                    &&& r matches Ok(d) ==> d.store == Some(num_blocks_kept)
                    &&& r matches Err(e) ==> e == (if stored is Some || is_new {
                        ModeError::HistoryTooLong
                    } else {
                        ModeError::CannotEnableHistoryPruning
                    })
                },
            }
        }),
{
}

/// Where fewer blocks are kept than before, the oldest ones are to be pruned, as many as are kept
/// fewer: what is left is the number kept. Nothing is pruned where the number is the same or
/// larger, where the database is new, or where it has no block.
pub proof fn law_shorter_history_is_pruned(
    kept: u64,
    before: u64,
    is_new: bool,
    oldest: Option<u64>,
)
    requires
        kept <= i64::MAX,
    ensures
        history_decision(
            BlockchainHistoryMode::Prune { num_blocks_kept: kept },
            Some(before),
            is_new,
            oldest,
        ) matches Ok(d) && {
            &&& d.pending_prune is Some <==> !is_new && oldest is Some && kept < before
            &&& d.pending_prune matches Some(p) ==> {
                &&& oldest == Some(p.oldest)
                &&& before - p.num_blocks_to_remove == kept
            }
        },
        history_decision(
            BlockchainHistoryMode::Prune { num_blocks_kept: kept },
            None,
            true,
            oldest,
        ) matches Ok(d) && d.pending_prune is None,
{
}

/// A database is refused exactly where its revision is below that of the base schema or above the
/// latest one, with what it found. Otherwise the migrations that it needs are those from its own
/// revision on; the base schema is created exactly where the database is new, which then needs all
/// of them.
pub proof fn law_plan_starts_where_the_database_is(current: u64, base: u64, migrations: usize)
    requires
        base + migrations <= u64::MAX,
        base > 0,
    ensures
        ({
            let r = migration_plan(current, base, migrations);
            &&& r is Ok <==> current == 0 || base <= current <= base + migrations
            &&& r matches Ok(plan) ==> {
                &&& plan.apply_base <==> current == 0
                &&& current == 0 ==> plan.first == 0 && plan.revision == base
                &&& current > 0 ==> base + plan.first == current && plan.revision == current
            }
            &&& 0 < current < base ==> (r matches Err(RevisionError::TooOld { current: found }) && found
                == current)
            &&& current > base + migrations ==> (r matches Err(
                RevisionError::TooNew { current: found, latest },
            ) && found == current && latest == base + migrations)
        }),
{
}

/// The next free index that was stored for a trie is found for it, and those of the others are as
/// before. Where none is stored it is zero; what is no index is an error.
pub proof fn law_stored_index_is_found(db: Contents, t: TrieColumn, u: TrieColumn, x: u64, v: Seq<u8>)
    ensures
        next_index_in(
            apply_op(db, Op::Put(Column::TrieNextIndex, next_index_key(t), be_u64(x))),
            t,
        ) == Ok::<u64, ReconcileError>(x),
        u != t ==> next_index_in(
            apply_op(db, Op::Put(Column::TrieNextIndex, next_index_key(t), be_u64(x))),
            u,
        ) == next_index_in(db, u),
        !db[Column::TrieNextIndex].contains_key(next_index_key(t)) ==> next_index_in(db, t) == Ok::<
            u64,
            ReconcileError,
        >(0),
        v.len() != 8 ==> next_index_in(
            apply_op(db, Op::Put(Column::TrieNextIndex, next_index_key(t), v)),
            t,
        ) is Err,
{
    lemma_be_u64_value(x);
    if u != t {
        lemma_next_index_keys(t, u);
    }
}

/// A database is in memory where its path starts with `file:memdb`, whatever follows, and not where
/// the path is shorter or is no text.
pub proof fn law_databases_in_memory(rest: Seq<char>, path: Seq<char>)
    ensures
        is_in_memory(Some("file:memdb"@ + rest)),
        is_in_memory(Some(path)) ==> path.len() >= 10 && path[5] == 'm' && path == "file:memdb"@
            + path.skip(10),
        !is_in_memory(None),
{
    reveal_strlit("file:memdb");
    let whole = "file:memdb"@ + rest;
    assert("file:memdb"@.len() == 10);
    assert(whole.subrange(0, 10) =~= "file:memdb"@);
    if is_in_memory(Some(path)) {
        assert(path.subrange(0, 10)[5] == 'm');
        assert(path =~= path.subrange(0, 10) + path.skip(10));
    }
}

/// The text of a revision error tells the revisions in decimal: the one found behind its first
/// words, and the one expected at its end.
pub proof fn law_revisions_are_told(current: u64, latest: u64)
    ensures
        ({
            let old = revision_error_text(RevisionError::TooOld { current });
            let new = revision_error_text(RevisionError::TooNew { current, latest });
            let n = decimal(current as nat).len() as int;
            &&& old.len() > 17 + n
            &&& old.subrange(17, 17 + n) == decimal(current as nat)
            &&& new.len() > 17 + n
            &&& new.subrange(17, 17 + n) == decimal(current as nat)
            &&& new.subrange(new.len() - decimal(latest as nat).len(), new.len() as int) == decimal(
                latest as nat,
            )
        }),
{
    reveal_strlit("Database version ");
    reveal_strlit(" too old to migrate");
    reveal_strlit(" is newer than this application expected ");
    assert("Database version "@.len() == 17);
    assert(" too old to migrate"@.len() == 19);
    assert(" is newer than this application expected "@.len() == 41);
    let old = revision_error_text(RevisionError::TooOld { current });
    let new = revision_error_text(RevisionError::TooNew { current, latest });
    let n = decimal(current as nat).len() as int;
    assert(old.subrange(17, 17 + n) =~= decimal(current as nat));
    assert(new.subrange(17, 17 + n) =~= decimal(current as nat));
    assert(new.subrange(new.len() - decimal(latest as nat).len(), new.len() as int) =~= decimal(
        latest as nat,
    ));
}

/// A storage that is only read has the modes that the database was last opened with for writing:
/// the history mode with its number of blocks, and pruned tries where they were to be pruned.
pub proof fn law_reader_has_the_modes_of_the_writer(
    mode: BlockchainHistoryMode,
    stored: Option<u64>,
    is_new: bool,
    oldest: Option<u64>,
    requested: Option<TriePruneMode>,
    flag: bool,
)
    ensures
        history_decision(mode, stored, is_new, oldest) matches Ok(d) ==> readonly_history(
            stored_after(stored, d),
        ) == mode,
        trie_prune_decision(requested, flag, is_new) matches Ok(d) ==> (readonly_tries(
            flag_after(flag, d),
        ) is Prune <==> requested matches Some(TriePruneMode::Prune { .. })),
{
}

/// The key-value store is ahead exactly where there are blocks that only it has, which a
/// reconciliation would remove; it is not, where both end at the same block.
pub proof fn law_ahead_means_orphans(sqlite_highest: Option<u64>, rocksdb_highest: Option<u64>)
    ensures
        ahead(sqlite_highest, rocksdb_highest) <==> orphan_range(sqlite_highest, rocksdb_highest) is Some,
        !ahead(sqlite_highest, sqlite_highest),
        rocksdb_highest is None ==> !ahead(sqlite_highest, rocksdb_highest),
{
}

/// The block is read back from the key that a state update is stored under; other lengths stand for
/// no block.
pub proof fn law_block_is_read_from_its_key(block: u64, other: Seq<u8>)
    ensures
        block_of_key(Some(be_u64(block))) == Some(block),
        other.len() != 8 ==> block_of_key(Some(other)) is None,
        block_of_key(None) is None,
{
    lemma_be_u64_value(block);
}

} // verus!
