//! What moving tables into the key-value store guarantees: every row is found under its key, and nothing
//! else is changed.
use vstd::prelude::*;

use crate::bytes::{be_u16, be_u64, be_value, lemma_be_u64_injective, lemma_be_u64_value};
use crate::storage::columns::Column;
use crate::storage::migrations::{
    entries_of, first_too_large, trie_row_ops, tries_moved, EventsRow, NonceUpdateRow,
    StateUpdateRow, StorageUpdateRow, TableRow, TransactionHashRow, TransactionsRow, TrieRow,
    TrieTables, MAX_NODE_DATA,
};
use crate::storage::store::{apply_ops, Contents, Op};
use crate::storage::trie::TrieColumn;

verus! {

/// Whether an operation is a write under a key of a column.
pub open spec fn writes(op: Option<Op>, c: Column, k: Seq<u8>) -> bool {
    op matches Some(Op::Put(d, l, _)) && d == c && l == k
}

/// Whether all rows write something or nothing: none deletes.
pub open spec fn only_writes<R: TableRow>(rows: Seq<R>) -> bool {
    forall|i: int|
        0 <= i < rows.len() ==> ((#[trigger] rows[i]).entry() matches Some(op) ==> op is Put)
}

/// Once rows were moved, what a row writes is found under its key, unless a later row writes there.
pub proof fn law_moved_row_is_found<R: TableRow>(
    db: Contents,
    rows: Seq<R>,
    i: int,
    c: Column,
    k: Seq<u8>,
    v: Seq<u8>,
)
    requires
        only_writes(rows),
        0 <= i < rows.len(),
        rows[i].entry() == Some(Op::Put(c, k, v)),
        forall|j: int| i < j < rows.len() ==> !writes((#[trigger] rows[j]).entry(), c, k),
    ensures
        apply_ops(db, entries_of(rows))[c].contains_key(k),
        apply_ops(db, entries_of(rows))[c][k] == v,
    decreases rows.len(),
{
    let front = rows.drop_last();
    let last = rows[rows.len() - 1];
    assert(forall|j: int| 0 <= j < front.len() ==> front[j] == rows[j]);
    if let Some(op) = last.entry() {
        assert(entries_of(rows).drop_last() =~= entries_of(front));
        assert(op is Put);
    }
    if i < front.len() {
        law_moved_row_is_found(db, front, i, c, k, v);
        assert(!writes(last.entry(), c, k));
    }
}

/// Moving rows leaves alone every key that none of them writes.
pub proof fn law_moving_leaves_other_keys<R: TableRow>(
    db: Contents,
    rows: Seq<R>,
    c: Column,
    k: Seq<u8>,
)
    requires
        only_writes(rows),
        forall|j: int| 0 <= j < rows.len() ==> !writes((#[trigger] rows[j]).entry(), c, k),
    ensures
        apply_ops(db, entries_of(rows))[c].contains_key(k) <==> db[c].contains_key(k),
        db[c].contains_key(k) ==> apply_ops(db, entries_of(rows))[c][k] == db[c][k],
    decreases rows.len(),
{
    if rows.len() > 0 {
        let front = rows.drop_last();
        let last = rows[rows.len() - 1];
        assert(forall|j: int| 0 <= j < front.len() ==> front[j] == rows[j]);
        law_moving_leaves_other_keys(db, front, c, k);
        if let Some(op) = last.entry() {
            assert(entries_of(rows).drop_last() =~= entries_of(front));
            assert(op is Put);
            assert(!writes(last.entry(), c, k));
        }
    }
}

/// Rows of two tables that are moved one after the other write what all of them together do.
pub proof fn law_rows_move_in_order<R: TableRow>(a: Seq<R>, b: Seq<R>)
    ensures
        entries_of(a + b) == entries_of(a) + entries_of(b),
    decreases b.len(),
{
    if b.len() == 0 {
        assert(a + b =~= a);
    } else {
        law_rows_move_in_order(a, b.drop_last());
        assert((a + b).drop_last() =~= a + b.drop_last());
        assert((a + b).last() == b.last());
    }
}

/// A nonce moves to under its contract's address, followed by its block counted down from the
/// largest.
pub proof fn law_nonce_moves_under_its_key(row: NonceUpdateRow)
    ensures
        row.entry() == Some(
            Op::Put(
                Column::NonceUpdates,
                row.contract_address@ + be_u64((u64::MAX - row.block_number) as u64),
                row.nonce@,
            ),
        ),
{
}

/// A stored value moves to under the addresses of its contract and of itself, followed by its block
/// counted down from the largest.
pub proof fn law_storage_value_moves_under_its_key(row: StorageUpdateRow)
    ensures
        row.entry() == Some(
            Op::Put(
                Column::StorageUpdates,
                row.contract_address@ + row.storage_address@ + be_u64(
                    (u64::MAX - row.block_number) as u64,
                ),
                row.storage_value@,
            ),
        ),
{
}

/// What is stored of a whole block moves to under its number: its state update, its transactions,
/// and its events where it has any.
pub proof fn law_block_data_moves_under_its_number(
    update: StateUpdateRow,
    transactions: TransactionsRow,
    events: EventsRow,
)
    ensures
        update.entry() == Some(
            Op::Put(Column::StateUpdates, be_u64(update.block_number), update.data@),
        ),
        transactions.entry() == Some(
            Op::Put(
                Column::TransactionsAndReceipts,
                be_u64(transactions.block_number),
                transactions.data@,
            ),
        ),
        events.data is None <==> events.entry() is None,
        events.data matches Some(data) ==> events.entry() == Some(
            Op::Put(Column::Events, be_u64(events.block_number), data@),
        ),
{
}

/// Where a transaction stands can be read from what is stored under its hash: the block in the
/// first eight bytes, the position in the two behind them.
pub proof fn law_transaction_is_found_by_its_hash(row: TransactionHashRow)
    ensures
        row.entry() matches Some(Op::Put(c, k, v)) && {
            &&& c == Column::TransactionHashes
            &&& k == row.hash@
            &&& v.len() == 10
            &&& be_value(v.subrange(0, 8)) == row.block_number
            &&& v[8] * 256 + v[9] == row.idx
        },
{
    lemma_be_u64_value(row.block_number);
    let v = be_u64(row.block_number) + be_u16(row.idx);
    assert(v.subrange(0, 8) =~= be_u64(row.block_number));
    assert(v[8] == be_u16(row.idx)[0] && v[9] == be_u16(row.idx)[1]);
}

/// A node that is too large is found exactly where there is one, and it is the first.
pub proof fn law_first_node_too_large(rows: Seq<TrieRow>)
    ensures
        match first_too_large(rows) {
            None => forall|i: int|
                0 <= i < rows.len() ==> (#[trigger] rows[i]).data@.len() <= MAX_NODE_DATA,
            Some(k) => 0 <= k < rows.len() && rows[k].data@.len() > MAX_NODE_DATA && forall|i: int|
                0 <= i < k ==> (#[trigger] rows[i]).data@.len() <= MAX_NODE_DATA,
        },
    decreases rows.len(),
{
    if rows.len() > 0 {
        let front = rows.drop_last();
        law_first_node_too_large(front);
        assert(forall|i: int| 0 <= i < front.len() ==> front[i] == rows[i]);
        if first_too_large(rows) is None {
            assert forall|i: int| 0 <= i < rows.len() implies (#[trigger] rows[i]).data@.len()
                <= MAX_NODE_DATA by {
                if i < front.len() {
                    assert(front[i].data@.len() <= MAX_NODE_DATA);
                }
            }
        } else {
            let k = first_too_large(rows)->0;
            assert forall|i: int| 0 <= i < k implies (#[trigger] rows[i]).data@.len()
                <= MAX_NODE_DATA by {
                assert(front[i].data@.len() <= MAX_NODE_DATA);
            }
        }
    }
}

/// The state hashes of the tables move with the tries: each is found under its contract's address
/// followed by its block counted down from the largest, unless a later row is of the same contract
/// and block.
pub proof fn law_state_hashes_move_along(db: Contents, tables: TrieTables, i: int)
    requires
        0 <= i < tables.state_hashes@.len(),
        forall|j: int|
            i < j < tables.state_hashes@.len() ==> (#[trigger] tables.state_hashes@[j]).block_number
                != tables.state_hashes@[i].block_number
                || tables.state_hashes@[j].contract_address@
                != tables.state_hashes@[i].contract_address@,
    ensures
        ({
            let row = tables.state_hashes@[i];
            let key = row.contract_address@ + be_u64((u64::MAX - row.block_number) as u64);
            let after = tries_moved(db, tables)[Column::ContractStateHashes];
            after.contains_key(key) && after[key] == row.state_hash@
        }),
{
    let rows = tables.state_hashes@;
    let row = rows[i];
    let key = row.contract_address@ + be_u64((u64::MAX - row.block_number) as u64);
    let c = Column::ContractStateHashes;
    let before = apply_ops(
        apply_ops(
            apply_ops(db, trie_row_ops(TrieColumn::Class, tables.class@)),
            trie_row_ops(TrieColumn::Storage, tables.storage@),
        ),
        trie_row_ops(TrieColumn::Contract, tables.contract@),
    );
    assert forall|j: int| i < j < rows.len() implies !writes((#[trigger] rows[j]).entry(), c, key) by {
        let other = rows[j].contract_address@ + be_u64((u64::MAX - rows[j].block_number) as u64);
        lemma_be_u64_value((u64::MAX - row.block_number) as u64);
        lemma_be_u64_value((u64::MAX - rows[j].block_number) as u64);
        if other == key {
            assert(key.subrange(0, 32) =~= row.contract_address@);
            assert(other.subrange(0, 32) =~= rows[j].contract_address@);
            assert(key.subrange(32, 40) =~= be_u64((u64::MAX - row.block_number) as u64));
            assert(other.subrange(32, 40) =~= be_u64((u64::MAX - rows[j].block_number) as u64));
            lemma_be_u64_injective(
                (u64::MAX - row.block_number) as u64,
                (u64::MAX - rows[j].block_number) as u64,
            );
        }
    }
    law_moved_row_is_found(before, rows, i, c, key, row.state_hash@);
}

} // verus!
