//! Bringing the key-value store back in line with the relational one after a crash between their
//! two commits.
use vstd::prelude::*;

use crate::bytes::{
    be_u64, be_value, lemma_lex_trichotomy, lex_lt, u64_from_be_bytes, u64_to_be_bytes,
};
use crate::felt::Felt;
use crate::felt_map::FeltMap;
use crate::state_update::{ContractUpdate, StateUpdateData, SystemContractUpdate};
use crate::storage::codec::TrieStorageIndex;
use crate::storage::columns::{lemma_slot, Column, ColumnMap, KeyValues};
use crate::storage::keys::{
    contract_state_hashes_key, nonce_entry_key, nonce_key, state_hash_key, storage_entry_key,
    storage_key,
};
use crate::storage::store::{apply_ops, Batch, Contents, Op, Store};
use crate::storage::tail_search::{dfs_confirmed_tail, full_search, Found};
use crate::storage::trie::{next_index_key, trie_column, TrieColumn};

verus! {

/// Why a store cannot be reconciled.
#[derive(Clone, Copy, Debug, PartialEq, Eq, Structural)]
pub enum ReconcileError {
    /// The next free index of a trie is not eight bytes long.
    CounterLength(TrieColumn, usize),
    /// The key of the highest state update is not eight bytes long.
    StateUpdateKeyLength,
}

/// How far below the highest block the block of the confirmed root may be.
pub const MAX_BLOCK_DISTANCE: u64 = 100;

/// The stored next free index of a trie; `None` where none is stored.
pub fn read_trie_next_index(value: Option<&Vec<u8>>, t: TrieColumn) -> (r: Result<
    Option<u64>,
    ReconcileError,
>)
    ensures
        match value {
            None => r == Ok::<Option<u64>, ReconcileError>(None),
            Some(v) => if v@.len() == 8 {
                r == Ok::<Option<u64>, ReconcileError>(Some(be_value(v@) as u64))
            } else {
                r == Err::<Option<u64>, ReconcileError>(
                    ReconcileError::CounterLength(t, v@.len() as usize),
                )
            },
        },
{
    match value {
        None => Ok(None),
        Some(v) => match u64_from_be_bytes(v.as_slice()) {
            Some(x) => Ok(Some(x)),
            None => Err(ReconcileError::CounterLength(t, v.len())),
        },
    }
}

/// The highest root index with its block, among the rows of a root table up to the highest block.
pub type RootRow = (i64, u64);

/// The index to search the confirmed tail from, where there is one that can be relied on: the trie
/// has nodes, a root is recorded not too far below the highest block, and its index is in range.
pub open spec fn search_root(counter: u64, top: u64, row: Option<RootRow>) -> Option<u64> {
    match row {
        Some((index, block)) => if counter != 0 && top - block <= MAX_BLOCK_DISTANCE && index >= 0 {
            Some(index as u64)
        } else {
            None
        },
        None => None,
    }
}

pub fn confirmed_root(counter: u64, sqlite_top: u64, row: Option<RootRow>) -> (r: Option<
    TrieStorageIndex,
>)
    ensures
        match search_root(counter, sqlite_top, row) {
            Some(x) => r matches Some(i) && i@ == x,
            None => r is None,
        },
{
    if counter == 0 {
        return None;
    }
    match row {
        None => None,
        Some((index, block)) => {
            if sqlite_top > block && sqlite_top - block > MAX_BLOCK_DISTANCE {
                return None;
            }
            if index < 0 {
                return None;
            }
            TrieStorageIndex::new(index as u64)
        },
    }
}

/// The next free index once the indices above a confirmed tail are given up.
pub open spec fn rewound(counter: u64, tail: Option<u64>) -> u64 {
    match tail {
        Some(t) => if t + 1 < counter {
            (t + 1) as u64
        } else {
            counter
        },
        None => counter,
    }
}

/// The writes that give up the indices above a confirmed tail.
pub open spec fn rewind_ops(counter: u64, tail: Option<u64>, t: TrieColumn) -> Seq<Op> {
    let new = rewound(counter, tail);
    if new < counter {
        seq![
            Op::DeleteRange(trie_column(t), be_u64(new), be_u64(counter)),
            Op::Put(Column::TrieNextIndex, next_index_key(t), be_u64(new)),
        ]
    } else {
        seq![]
    }
}

/// Gives up the indices from the confirmed tail up to the counter, if there are any, and gives the
/// next free index.
pub fn rewind(
    counter: u64,
    tail: Option<TrieStorageIndex>,
    t: TrieColumn,
    batch: &mut Batch,
) -> (r: u64)
    ensures
        r == rewound(
            counter,
            match tail {
                Some(i) => Some(i@),
                None => None,
            },
        ),
        final(batch)@ == old(batch)@ + rewind_ops(
            counter,
            match tail {
                Some(i) => Some(i@),
                None => None,
            },
            t,
        ),
{
    if let Some(confirmed) = tail {
        let new_counter: u64 = confirmed.get() + 1;
        if new_counter < counter {
            batch.delete_range(t.column(), u64_to_be_bytes(new_counter), u64_to_be_bytes(counter));
            batch.put(Column::TrieNextIndex, t.next_index_key(), u64_to_be_bytes(new_counter));
            return new_counter;
        }
    }
    counter
}

/// The next free index that a store holds for a trie, zero where it holds none; the length of what
/// it holds, where that is not eight bytes.
pub open spec fn stored_counter(db: Contents, t: TrieColumn) -> Result<u64, usize> {
    if db[Column::TrieNextIndex].contains_key(next_index_key(t)) {
        let v = db[Column::TrieNextIndex][next_index_key(t)];
        if v.len() == 8 {
            Ok(be_value(v) as u64)
        } else {
            Err(v.len() as usize)
        }
    } else {
        Ok(0)
    }
}

/// The confirmed tail of a trie: the highest index that the nodes of its confirmed root take up.
pub open spec fn confirmed_tail(
    db: Contents,
    t: TrieColumn,
    counter: u64,
    top: u64,
    row: Option<RootRow>,
) -> Option<u64> {
    match search_root(counter, top, row) {
        None => None,
        Some(root) => match full_search(db[trie_column(t)], root, counter) {
            Found::Tail(x) => Some(x),
            _ => None,
        },
    }
}

/// Stages what brings one trie back to its confirmed tail, and gives its next free index.
pub fn reconcile_trie_column(
    store: &Store,
    sqlite_top: u64,
    t: TrieColumn,
    row: Option<RootRow>,
    batch: &mut Batch,
) -> (r: Result<u64, ReconcileError>)
    ensures
        match stored_counter(store@, t) {
            Err(n) => r == Err::<u64, ReconcileError>(ReconcileError::CounterLength(t, n))
                && final(batch)@ == old(batch)@,
            Ok(counter) => {
                let tail = confirmed_tail(store@, t, counter, sqlite_top, row);
                &&& r == Ok::<u64, ReconcileError>(rewound(counter, tail))
                &&& final(batch)@ == old(batch)@ + rewind_ops(counter, tail, t)
            },
        },
{
    let key = t.next_index_key();
    let counter: u64 = match read_trie_next_index(
        store.column(Column::TrieNextIndex).get(key.as_slice()),
        t,
    ) {
        Ok(Some(x)) => x,
        Ok(None) => 0,
        Err(e) => {
            return Err(e);
        },
    };
    let tail: Option<TrieStorageIndex> = match confirmed_root(counter, sqlite_top, row) {
        None => None,
        Some(root) => dfs_confirmed_tail(store.column(t.column()), root, counter),
    };
    Ok(rewind(counter, tail, t, batch))
}

/// What could be read of a block that only the key-value store has. Each part is `None` where it is
/// not stored or cannot be read.
pub struct OrphanedBlock {
    pub transaction_hashes: Option<Vec<Felt>>,
    pub state_update: Option<StateUpdateData>,
}

/// The blocks that only the key-value store has: from the one above the highest block of the
/// relational store up to the highest block of the key-value store.
pub open spec fn orphan_range(sqlite_highest: Option<u64>, rocksdb_highest: Option<u64>) -> Option<
    (u64, u64),
> {
    match (rocksdb_highest, sqlite_highest) {
        (None, _) => None,
        (Some(rocks), Some(sqlite)) => if rocks <= sqlite {
            None
        } else {
            Some(((sqlite + 1) as u64, rocks))
        },
        (Some(rocks), None) => Some((0, rocks)),
    }
}

pub fn orphaned_blocks(sqlite_highest: Option<u64>, rocksdb_highest: Option<u64>) -> (r: Option<
    (u64, u64),
>)
    ensures
        r == orphan_range(sqlite_highest, rocksdb_highest),
{
    match rocksdb_highest {
        None => None,
        Some(rocks_top) => match sqlite_highest {
            Some(sqlite_top) => if rocks_top <= sqlite_top {
                None
            } else {
                Some((sqlite_top + 1, rocks_top))
            },
            None => Some((0, rocks_top)),
        },
    }
}

/// The deletes of the entries of a contract's storage.
pub open spec fn storage_deletes(
    block: u64,
    address: Felt,
    items: Seq<(Felt, Felt)>,
) -> Seq<Op> {
    Seq::new(
        items.len(),
        |i: int| Op::Delete(Column::StorageUpdates, storage_key(block, address, items[i].0)),
    )
}

/// The deletes of the nonces and the storage of contracts.
pub open spec fn contract_deletes(block: u64, items: Seq<(Felt, ContractUpdate)>) -> Seq<Op>
    decreases items.len(),
{
    if items.len() == 0 {
        seq![]
    } else {
        let (address, update) = items.last();
        contract_deletes(block, items.drop_last()) + (if update.nonce is Some {
            seq![Op::Delete(Column::NonceUpdates, nonce_key(block, address))]
        } else {
            seq![]
        }) + storage_deletes(block, address, update.storage.items())
    }
}

/// The deletes of the storage of system contracts.
pub open spec fn system_deletes(block: u64, items: Seq<(Felt, SystemContractUpdate)>) -> Seq<Op>
    decreases items.len(),
{
    if items.len() == 0 {
        seq![]
    } else {
        let (address, update) = items.last();
        system_deletes(block, items.drop_last()) + storage_deletes(
            block,
            address,
            update.storage.items(),
        )
    }
}

/// The deletes of the state hashes of the contracts given.
pub open spec fn state_hash_deletes<V>(block: u64, items: Seq<(Felt, V)>) -> Seq<Op> {
    Seq::new(
        items.len(),
        |i: int| Op::Delete(Column::ContractStateHashes, state_hash_key(block, items[i].0)),
    )
}

/// The deletes of what a state update has put under composite keys.
pub open spec fn state_update_deletes(block: u64, data: StateUpdateData) -> Seq<Op> {
    contract_deletes(block, data.contract_updates.items()) + system_deletes(
        block,
        data.system_contract_updates.items(),
    ) + state_hash_deletes(block, data.contract_updates.items()) + state_hash_deletes(
        block,
        data.system_contract_updates.items(),
    )
}

/// The deletes of transaction hashes.
pub open spec fn hash_deletes(hashes: Seq<Felt>) -> Seq<Op> {
    Seq::new(hashes.len(), |i: int| Op::Delete(Column::TransactionHashes, hashes[i]@))
}

/// The deletes that purge one orphaned block.
pub open spec fn purge_ops(block: u64, orphan: OrphanedBlock) -> Seq<Op> {
    (match orphan.transaction_hashes {
        Some(hashes) => hash_deletes(hashes@),
        None => seq![],
    }) + (match orphan.state_update {
        Some(data) => state_update_deletes(block, data),
        None => seq![],
    }) + seq![
        Op::Delete(Column::StateUpdates, be_u64(block)),
        Op::Delete(Column::TransactionsAndReceipts, be_u64(block)),
        Op::Delete(Column::Events, be_u64(block)),
    ]
}

fn delete_storage(block: u64, address: Felt, storage: &FeltMap<Felt>, batch: &mut Batch)
    requires
        block <= u32::MAX,
    ensures
        final(batch)@ == old(batch)@ + storage_deletes(block, address, storage.items()),
{
    let n: usize = storage.len();
    let mut i: usize = 0;
    assert(batch@ =~= old(batch)@ + storage_deletes(block, address, storage.items().subrange(0, 0)));
    while i < n
        invariant
            i <= n,
            n == storage.items().len(),
            block <= u32::MAX,
            batch@ == old(batch)@ + storage_deletes(
                block,
                address,
                storage.items().subrange(0, i as int),
            ),
        decreases n - i,
    {
        let key: Felt = storage.key_at(i);
        batch.delete(Column::StorageUpdates, storage_entry_key(block, &address, &key));
        i = i + 1;
        assert(batch@ =~= old(batch)@ + storage_deletes(
            block,
            address,
            storage.items().subrange(0, i as int),
        ));
    }
    assert(storage.items().subrange(0, n as int) =~= storage.items());
}

fn delete_state_hashes<V>(block: u64, map: &FeltMap<V>, batch: &mut Batch)
    ensures
        final(batch)@ == old(batch)@ + state_hash_deletes(block, map.items()),
{
    let n: usize = map.len();
    let mut i: usize = 0;
    assert(batch@ =~= old(batch)@ + state_hash_deletes(block, map.items().subrange(0, 0)));
    while i < n
        invariant
            i <= n,
            n == map.items().len(),
            batch@ == old(batch)@ + state_hash_deletes(block, map.items().subrange(0, i as int)),
        decreases n - i,
    {
        let address: Felt = map.key_at(i);
        batch.delete(Column::ContractStateHashes, contract_state_hashes_key(block, &address));
        i = i + 1;
        assert(batch@ =~= old(batch)@ + state_hash_deletes(
            block,
            map.items().subrange(0, i as int),
        ));
    }
    assert(map.items().subrange(0, n as int) =~= map.items());
}

fn delete_contracts(block: u64, map: &FeltMap<ContractUpdate>, batch: &mut Batch)
    requires
        block <= u32::MAX,
    ensures
        final(batch)@ == old(batch)@ + contract_deletes(block, map.items()),
{
    let n: usize = map.len();
    let mut i: usize = 0;
    assert(batch@ =~= old(batch)@ + contract_deletes(block, map.items().subrange(0, 0)));
    while i < n
        invariant
            i <= n,
            n == map.items().len(),
            block <= u32::MAX,
            batch@ == old(batch)@ + contract_deletes(block, map.items().subrange(0, i as int)),
        decreases n - i,
    {
        let address: Felt = map.key_at(i);
        let update: &ContractUpdate = map.value_at(i);
        if update.nonce.is_some() {
            batch.delete(Column::NonceUpdates, nonce_entry_key(block, &address));
        }
        delete_storage(block, address, &update.storage, batch);
        i = i + 1;
        proof {
            let done = map.items().subrange(0, i as int);
            assert(done.drop_last() =~= map.items().subrange(0, i - 1));
            assert(batch@ =~= old(batch)@ + contract_deletes(block, done));
        }
    }
    assert(map.items().subrange(0, n as int) =~= map.items());
}

fn delete_systems(block: u64, map: &FeltMap<SystemContractUpdate>, batch: &mut Batch)
    requires
        block <= u32::MAX,
    ensures
        final(batch)@ == old(batch)@ + system_deletes(block, map.items()),
{
    let n: usize = map.len();
    let mut i: usize = 0;
    assert(batch@ =~= old(batch)@ + system_deletes(block, map.items().subrange(0, 0)));
    while i < n
        invariant
            i <= n,
            n == map.items().len(),
            block <= u32::MAX,
            batch@ == old(batch)@ + system_deletes(block, map.items().subrange(0, i as int)),
        decreases n - i,
    {
        let address: Felt = map.key_at(i);
        delete_storage(block, address, &map.value_at(i).storage, batch);
        i = i + 1;
        proof {
            let done = map.items().subrange(0, i as int);
            assert(done.drop_last() =~= map.items().subrange(0, i - 1));
            assert(batch@ =~= old(batch)@ + system_deletes(block, done));
        }
    }
    assert(map.items().subrange(0, n as int) =~= map.items());
}

/// Stages the deletes that purge one orphaned block. What could not be read of the block is left in
/// place, except for what is stored under the block number itself.
pub fn purge_block(block: u64, orphan: &OrphanedBlock, batch: &mut Batch)
    requires
        orphan.state_update is Some ==> block <= u32::MAX,
    ensures
        final(batch)@ == old(batch)@ + purge_ops(block, *orphan),
{
    if let Some(hashes) = &orphan.transaction_hashes {
        let mut i: usize = 0;
        assert(batch@ =~= old(batch)@ + hash_deletes(hashes@.subrange(0, 0)));
        while i < hashes.len()
            invariant
                i <= hashes@.len(),
                batch@ == old(batch)@ + hash_deletes(hashes@.subrange(0, i as int)),
            decreases hashes@.len() - i,
        {
            batch.delete(Column::TransactionHashes, hashes[i].to_be_bytes());
            i = i + 1;
            assert(batch@ =~= old(batch)@ + hash_deletes(hashes@.subrange(0, i as int)));
        }
        assert(hashes@.subrange(0, i as int) =~= hashes@);
    }
    if let Some(data) = &orphan.state_update {
        delete_contracts(block, &data.contract_updates, batch);
        delete_systems(block, &data.system_contract_updates, batch);
        delete_state_hashes(block, &data.contract_updates, batch);
        delete_state_hashes(block, &data.system_contract_updates, batch);
    }
    batch.delete(Column::StateUpdates, u64_to_be_bytes(block));
    batch.delete(Column::TransactionsAndReceipts, u64_to_be_bytes(block));
    batch.delete(Column::Events, u64_to_be_bytes(block));
    assert(batch@ =~= old(batch)@ + purge_ops(block, *orphan));
}

/// The key that comes last in a column.
pub open spec fn is_last_key(m: ColumnMap, k: Seq<u8>) -> bool {
    m.contains_key(k) && forall|q: Seq<u8>| #[trigger]
        m.contains_key(q) ==> q == k || lex_lt(q, k)
}

/// A column has at most one last key.
pub proof fn lemma_last_key_unique(m: ColumnMap, a: Seq<u8>, b: Seq<u8>)
    requires
        is_last_key(m, a),
        is_last_key(m, b),
    ensures
        a == b,
{
    lemma_lex_trichotomy(a, b);
}

/// The number of the highest block in the column of state updates: that of the last key. An error,
/// where the last key is not eight bytes long.
pub open spec fn highest_state_update(m: ColumnMap) -> Result<Option<u64>, ReconcileError> {
    if m.dom().is_empty() {
        Ok(None)
    } else {
        let k = choose|k: Seq<u8>| is_last_key(m, k);
        if k.len() == 8 {
            Ok(Some(be_value(k) as u64))
        } else {
            Err(ReconcileError::StateUpdateKeyLength)
        }
    }
}

/// The number of the highest block that has a state update.
pub fn highest_block(state_updates: &KeyValues) -> (r: Result<Option<u64>, ReconcileError>)
    ensures
        r == highest_state_update(state_updates@),
        state_updates@.dom().is_empty() || exists|k: Seq<u8>| is_last_key(state_updates@, k),
{
    let n: usize = state_updates.len();
    if n == 0 {
        assert(state_updates@.dom() =~= Set::empty());
        return Ok(None);
    }
    let key: &Vec<u8> = state_updates.key_at(n - 1);
    proof {
        let items = state_updates.items();
        lemma_slot(items, n - 1);
        assert forall|q: Seq<u8>| #[trigger] state_updates@.contains_key(q) implies q == key@
            || lex_lt(q, key@) by {
            let i = crate::storage::columns::slot(items, q);
            assert(items[i].0 == q);
            if i < n - 1 {
                assert(lex_lt(items[i].0, items[n - 1].0));
            }
        }
        assert(is_last_key(state_updates@, key@));
        assert(state_updates@.dom().contains(key@));
        let k = choose|k: Seq<u8>| is_last_key(state_updates@, k);
        lemma_last_key_unique(state_updates@, k, key@);
    }
    match u64_from_be_bytes(key.as_slice()) {
        Some(x) => Ok(Some(x)),
        None => Err(ReconcileError::StateUpdateKeyLength),
    }
}

/// The deletes that purge consecutive orphaned blocks.
pub open spec fn purge_all_ops(from: u64, orphans: Seq<OrphanedBlock>) -> Seq<Op>
    decreases orphans.len(),
{
    if orphans.len() == 0 {
        seq![]
    } else {
        purge_all_ops(from, orphans.drop_last()) + purge_ops(
            (from + orphans.len() - 1) as u64,
            orphans.last(),
        )
    }
}

/// What could be read of the orphaned blocks is given for each of them, and where a state update
/// could be read, the block number fits the composite keys.
pub open spec fn orphans_cover(range: Option<(u64, u64)>, orphans: Seq<OrphanedBlock>) -> bool {
    match range {
        Some((from, to)) => orphans.len() == to - from + 1 && forall|i: int|
            0 <= i < orphans.len() ==> ((#[trigger] orphans[i]).state_update is Some ==> from + i
                <= u32::MAX),
        None => true,
    }
}

/// What could be read of the orphaned blocks of a store is given.
pub open spec fn orphans_given(
    db: Contents,
    sqlite_highest: Option<u64>,
    orphans: Seq<OrphanedBlock>,
) -> bool {
    match highest_state_update(db[Column::StateUpdates]) {
        Ok(rocks) => orphans_cover(orphan_range(sqlite_highest, rocks), orphans),
        Err(_) => true,
    }
}

/// The deletes that purge all orphaned blocks.
pub open spec fn block_ops(
    sqlite_highest: Option<u64>,
    rocks: Option<u64>,
    orphans: Seq<OrphanedBlock>,
) -> Seq<Op> {
    match orphan_range(sqlite_highest, rocks) {
        Some((from, _)) => purge_all_ops(from, orphans),
        None => seq![],
    }
}

/// The confirmed root of each trie.
#[derive(Clone, Copy, Debug)]
pub struct RootRows {
    pub class: Option<RootRow>,
    pub contract: Option<RootRow>,
    pub storage: Option<RootRow>,
}

/// The next free index of each trie.
#[derive(Clone, Copy, Debug, PartialEq, Eq, Structural)]
pub struct NextIndices {
    pub class: u64,
    pub contract: u64,
    pub storage: u64,
}

/// The next free index of a trie after its reconciliation.
pub open spec fn trie_counter(
    db: Contents,
    t: TrieColumn,
    top: u64,
    row: Option<RootRow>,
) -> u64 {
    let counter = stored_counter(db, t)->Ok_0;
    rewound(counter, confirmed_tail(db, t, counter, top, row))
}

/// The writes of the reconciliation of a trie.
pub open spec fn trie_ops(db: Contents, t: TrieColumn, top: u64, row: Option<RootRow>) -> Seq<Op> {
    let counter = stored_counter(db, t)->Ok_0;
    rewind_ops(counter, confirmed_tail(db, t, counter, top, row), t)
}

/// The highest block of the relational store, zero where it has none.
pub open spec fn top_of(sqlite_highest: Option<u64>) -> u64 {
    match sqlite_highest {
        Some(x) => x,
        None => 0,
    }
}

/// All writes of a reconciliation.
pub open spec fn reconcile_ops(
    db: Contents,
    sqlite_highest: Option<u64>,
    orphans: Seq<OrphanedBlock>,
    rows: RootRows,
) -> Seq<Op> {
    let top = top_of(sqlite_highest);
    block_ops(
        sqlite_highest,
        highest_state_update(db[Column::StateUpdates])->Ok_0,
        orphans,
    ) + trie_ops(db, TrieColumn::Class, top, rows.class) + trie_ops(
        db,
        TrieColumn::Contract,
        top,
        rows.contract,
    ) + trie_ops(db, TrieColumn::Storage, top, rows.storage)
}

/// Stages the deletes that purge all orphaned blocks.
fn purge_orphans(
    sqlite_highest: Option<u64>,
    rocksdb_highest: Option<u64>,
    orphans: &Vec<OrphanedBlock>,
    batch: &mut Batch,
)
    requires
        orphans_cover(orphan_range(sqlite_highest, rocksdb_highest), orphans@),
    ensures
        final(batch)@ == old(batch)@ + block_ops(sqlite_highest, rocksdb_highest, orphans@),
{
    if let Some((from, to)) = orphaned_blocks(sqlite_highest, rocksdb_highest) {
        let mut i: usize = 0;
        assert(batch@ =~= old(batch)@ + purge_all_ops(from, orphans@.subrange(0, 0)));
        while i < orphans.len()
            invariant
                i <= orphans@.len(),
                orphans@.len() == to - from + 1,
                forall|j: int|
                    0 <= j < orphans@.len() ==> ((#[trigger] orphans@[j]).state_update is Some
                        ==> from + j <= u32::MAX),
                batch@ == old(batch)@ + purge_all_ops(from, orphans@.subrange(0, i as int)),
            decreases orphans@.len() - i,
        {
            purge_block(from + i as u64, &orphans[i], batch);
            i = i + 1;
            proof {
                let done = orphans@.subrange(0, i as int);
                assert(done.drop_last() =~= orphans@.subrange(0, i - 1));
                assert(batch@ =~= old(batch)@ + purge_all_ops(from, done));
            }
        }
        assert(orphans@.subrange(0, i as int) =~= orphans@);
    }
    assert(batch@ =~= old(batch)@ + block_ops(sqlite_highest, rocksdb_highest, orphans@));
}

/// What was found of a trie: its stored next free index, and its confirmed tail where there is one.
#[derive(Clone, Copy, Debug)]
pub struct FoundTrie {
    pub counter: u64,
    pub tail: Option<TrieStorageIndex>,
}

impl FoundTrie {
    /// The confirmed tail as a number.
    pub open spec fn tail_index(self) -> Option<u64> {
        match self.tail {
            Some(i) => Some(i@),
            None => None,
        }
    }

    /// The trie is found as a store holds it.
    pub open spec fn is_in(
        self,
        db: Contents,
        t: TrieColumn,
        top: u64,
        row: Option<RootRow>,
    ) -> bool {
        stored_counter(db, t) == Ok::<u64, usize>(self.counter) && self.tail_index()
            == confirmed_tail(db, t, self.counter, top, row)
    }
}

/// All writes of a reconciliation, from what was found.
pub open spec fn found_ops(
    sqlite_highest: Option<u64>,
    rocks: Option<u64>,
    orphans: Seq<OrphanedBlock>,
    class: FoundTrie,
    contract: FoundTrie,
    storage: FoundTrie,
) -> Seq<Op> {
    block_ops(sqlite_highest, rocks, orphans) + rewind_ops(
        class.counter,
        class.tail_index(),
        TrieColumn::Class,
    ) + rewind_ops(contract.counter, contract.tail_index(), TrieColumn::Contract) + rewind_ops(
        storage.counter,
        storage.tail_index(),
        TrieColumn::Storage,
    )
}

/// The next free indices after a reconciliation, from what was found.
pub open spec fn found_next(class: FoundTrie, contract: FoundTrie, storage: FoundTrie) -> NextIndices {
    NextIndices {
        class: rewound(class.counter, class.tail_index()),
        contract: rewound(contract.counter, contract.tail_index()),
        storage: rewound(storage.counter, storage.tail_index()),
    }
}

/// The batch of a reconciliation and the next free indices after it, from what was found in the
/// stores.
pub fn reconciliation(
    sqlite_highest: Option<u64>,
    rocksdb_highest: Option<u64>,
    orphans: &Vec<OrphanedBlock>,
    class: FoundTrie,
    contract: FoundTrie,
    storage: FoundTrie,
) -> (r: (Batch, NextIndices))
    requires
        orphans_cover(orphan_range(sqlite_highest, rocksdb_highest), orphans@),
    ensures
        r.0@ == found_ops(sqlite_highest, rocksdb_highest, orphans@, class, contract, storage),
        r.1 == found_next(class, contract, storage),
{
    let mut batch = Batch::new();
    purge_orphans(sqlite_highest, rocksdb_highest, orphans, &mut batch);
    assert(batch@ =~= block_ops(sqlite_highest, rocksdb_highest, orphans@));
    let next = NextIndices {
        class: rewind(class.counter, class.tail, TrieColumn::Class, &mut batch),
        contract: rewind(contract.counter, contract.tail, TrieColumn::Contract, &mut batch),
        storage: rewind(storage.counter, storage.tail, TrieColumn::Storage, &mut batch),
    };
    (batch, next)
}

/// The writes and the next free indices that follow from what was found are those of the store in
/// which it was found.
pub proof fn law_found_as_stored(
    db: Contents,
    sqlite_highest: Option<u64>,
    orphans: Seq<OrphanedBlock>,
    rows: RootRows,
    class: FoundTrie,
    contract: FoundTrie,
    storage: FoundTrie,
)
    requires
        class.is_in(db, TrieColumn::Class, top_of(sqlite_highest), rows.class),
        contract.is_in(db, TrieColumn::Contract, top_of(sqlite_highest), rows.contract),
        storage.is_in(db, TrieColumn::Storage, top_of(sqlite_highest), rows.storage),
        highest_state_update(db[Column::StateUpdates]) is Ok,
    ensures
        ({
            let top = top_of(sqlite_highest);
            let rocks = highest_state_update(db[Column::StateUpdates])->Ok_0;
            &&& found_ops(sqlite_highest, rocks, orphans, class, contract, storage)
                == reconcile_ops(db, sqlite_highest, orphans, rows)
            &&& found_next(class, contract, storage) == (NextIndices {
                class: trie_counter(db, TrieColumn::Class, top, rows.class),
                contract: trie_counter(db, TrieColumn::Contract, top, rows.contract),
                storage: trie_counter(db, TrieColumn::Storage, top, rows.storage),
            })
            &&& orphans_given(db, sqlite_highest, orphans) <==> orphans_cover(
                orphan_range(sqlite_highest, rocks),
                orphans,
            )
        }),
{
}

/// Deletes what the key-value store has of blocks above the highest block of the relational store,
/// and gives up trie indices above the confirmed tails. One batch holds all writes. The next free
/// indices are set trie by trie, as each is known.
pub fn reconcile_rocksdb_with_sqlite(
    store: &mut Store,
    sqlite_highest: Option<u64>,
    orphans: &Vec<OrphanedBlock>,
    rows: RootRows,
    next: &mut NextIndices,
) -> (r: Result<(), ReconcileError>)
    requires
        orphans_given(old(store)@, sqlite_highest, orphans@),
    ensures
        r is Ok <==> highest_state_update(old(store)@[Column::StateUpdates]) is Ok && (forall|
            t: TrieColumn,
        | #[trigger]
            stored_counter(old(store)@, t) is Ok),
        r is Ok ==> final(store)@ == apply_ops(
            old(store)@,
            reconcile_ops(old(store)@, sqlite_highest, orphans@, rows),
        ) && *final(next) == (NextIndices {
            class: trie_counter(old(store)@, TrieColumn::Class, top_of(sqlite_highest), rows.class),
            contract: trie_counter(
                old(store)@,
                TrieColumn::Contract,
                top_of(sqlite_highest),
                rows.contract,
            ),
            storage: trie_counter(
                old(store)@,
                TrieColumn::Storage,
                top_of(sqlite_highest),
                rows.storage,
            ),
        }),
        r is Err ==> final(store)@ == old(store)@,
        r matches Err(e) ==> (match highest_state_update(old(store)@[Column::StateUpdates]) {
            Err(k) => e == k && *final(next) == *old(next),
            Ok(_) => match stored_counter(old(store)@, TrieColumn::Class) {
                Err(n) => e == ReconcileError::CounterLength(TrieColumn::Class, n) && *final(next)
                    == *old(next),
                Ok(_) => match stored_counter(old(store)@, TrieColumn::Contract) {
                    Err(n) => e == ReconcileError::CounterLength(TrieColumn::Contract, n)
                        && *final(next) == (NextIndices {
                        class: trie_counter(
                            old(store)@,
                            TrieColumn::Class,
                            top_of(sqlite_highest),
                            rows.class,
                        ),
                        ..*old(next)
                    }),
                    Ok(_) => match stored_counter(old(store)@, TrieColumn::Storage) {
                        Err(n) => e == ReconcileError::CounterLength(TrieColumn::Storage, n)
                            && *final(next) == (NextIndices {
                            class: trie_counter(
                                old(store)@,
                                TrieColumn::Class,
                                top_of(sqlite_highest),
                                rows.class,
                            ),
                            contract: trie_counter(
                                old(store)@,
                                TrieColumn::Contract,
                                top_of(sqlite_highest),
                                rows.contract,
                            ),
                            ..*old(next)
                        }),
                        Ok(_) => false,
                    },
                },
            },
        }),
{
    let rocksdb_highest: Option<u64> = match highest_block(store.column(Column::StateUpdates)) {
        Ok(x) => x,
        Err(e) => {
            return Err(e);
        },
    };
    let mut batch = Batch::new();
    purge_orphans(sqlite_highest, rocksdb_highest, orphans, &mut batch);
    assert(batch@ =~= block_ops(sqlite_highest, rocksdb_highest, orphans@));
    let sqlite_top: u64 = match sqlite_highest {
        Some(x) => x,
        None => 0,
    };
    match reconcile_trie_column(store, sqlite_top, TrieColumn::Class, rows.class, &mut batch) {
        Ok(x) => {
            next.class = x;
        },
        Err(e) => {
            return Err(e);
        },
    }
    match reconcile_trie_column(
        store,
        sqlite_top,
        TrieColumn::Contract,
        rows.contract,
        &mut batch,
    ) {
        Ok(x) => {
            next.contract = x;
        },
        Err(e) => {
            return Err(e);
        },
    }
    match reconcile_trie_column(store, sqlite_top, TrieColumn::Storage, rows.storage, &mut batch) {
        Ok(x) => {
            next.storage = x;
        },
        Err(e) => {
            return Err(e);
        },
    }
    store.write(&batch);
    assert(forall|t: TrieColumn| #[trigger] stored_counter(old(store)@, t) is Ok) by {
        assert forall|t: TrieColumn| #[trigger] stored_counter(old(store)@, t) is Ok by {
            match t {
                TrieColumn::Class => {},
                TrieColumn::Contract => {},
                TrieColumn::Storage => {},
            }
        }
    }
    Ok(())
}

} // verus!
