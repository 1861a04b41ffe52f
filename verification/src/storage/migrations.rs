//! Moving the rows of tables into the columns of the key-value store.
use vstd::prelude::*;

use crate::bytes::{
    be_u16, be_u64, copy_bytes, lemma_be_u64_injective, push_bytes, u16_to_be_bytes,
    u64_to_be_bytes,
};
use crate::felt::Felt;
use crate::storage::columns::Column;
use crate::storage::keys::state_hash_key;
use crate::storage::store::{apply_op, apply_ops, lemma_apply_concat, Batch, BatchOp, Contents, Op, Store};
use crate::storage::trie::{lemma_next_index_keys, next_index_key, trie_column, TrieColumn};

verus! {

/// The rows of small entries that are written together.
pub const ROW_BATCH_SIZE: usize = 1_000_000;

/// The rows of large entries that are written together.
pub const BLOB_BATCH_SIZE: usize = 10_000;

/// The longest encoding of a node that a trie table may hold.
pub const MAX_NODE_DATA: usize = 224;

/// A batch that is given up for writing each time that it has taken a number of rows.
pub struct Batcher {
    pub batch: Batch,
    /// The rows that are to come until the batch is given up.
    pub left: usize,
    /// The rows between two such times.
    pub size: usize,
}

impl Batcher {
    pub fn new(size: usize) -> (r: Self)
        ensures
            r.batch@ == Seq::<Op>::empty(),
            r.left == size,
            r.size == size,
    {
        Batcher { batch: Batch::new(), left: size, size }
    }

    /// Takes a row. A row that writes nothing is counted, and leaves the batch as it is.
    pub fn push(&mut self, op: Option<BatchOp>) -> (r: Option<Batch>)
        ensures
            final(self).size == old(self).size,
            final(self).left == (if old(self).left <= 1 {
                old(self).size
            } else {
                (old(self).left - 1) as usize
            }),
            match op {
                None => r is None && final(self).batch@ == old(self).batch@,
                Some(o) => if old(self).left <= 1 {
                    r matches Some(full) && full@ == old(self).batch@.push(o@)
                        && final(self).batch@ == Seq::<Op>::empty()
                } else {
                    r is None && final(self).batch@ == old(self).batch@.push(o@)
                },
            },
    {
        let full: bool = self.left <= 1;
        self.left = if full {
            self.size
        } else {
            self.left - 1
        };
        match op {
            None => None,
            Some(o) => {
                let ghost before = self.batch@;
                let ghost last = o@;
                self.batch.ops.push(o);
                assert(self.batch@ =~= before.push(last));
                if full {
                    let mut batch = Batch::new();
                    std::mem::swap(&mut batch, &mut self.batch);
                    Some(batch)
                } else {
                    None
                }
            },
        }
    }
}

/// A row that becomes at most one entry.
pub trait TableRow {
    spec fn entry(&self) -> Option<Op>;

    fn to_entry(&self) -> (r: Option<BatchOp>)
        ensures
            match self.entry() {
                None => r is None,
                Some(op) => r matches Some(o) && o@ == op,
            },
    ;
}

/// What rows write, in order.
pub open spec fn entries_of<R: TableRow>(rows: Seq<R>) -> Seq<Op>
    decreases rows.len(),
{
    if rows.len() == 0 {
        Seq::empty()
    } else {
        match rows.last().entry() {
            None => entries_of(rows.drop_last()),
            Some(op) => entries_of(rows.drop_last()).push(op),
        }
    }
}

/// Writes the entries of rows, a batch at a time.
pub fn migrate_rows<R: TableRow>(rows: &Vec<R>, batch_size: usize, store: &mut Store)
    ensures
        final(store)@ == apply_ops(old(store)@, entries_of(rows@)),
{
    let mut batcher = Batcher::new(batch_size);
    let mut i: usize = 0;
    assert(rows@.subrange(0, 0) =~= Seq::<R>::empty());
    while i < rows.len()
        invariant
            i <= rows@.len(),
            apply_ops(store@, batcher.batch@) == apply_ops(
                old(store)@,
                entries_of(rows@.subrange(0, i as int)),
            ),
        decreases rows@.len() - i,
    {
        let ghost before = store@;
        let ghost staged = batcher.batch@;
        let op = rows[i].to_entry();
        proof {
            let done = rows@.subrange(0, i + 1);
            assert(done.drop_last() =~= rows@.subrange(0, i as int));
            assert(done.last() == rows@[i as int]);
            if let Some(o) = rows@[i as int].entry() {
                let more = staged.push(o);
                assert(more.drop_last() =~= staged);
                let all = entries_of(done);
                assert(all.drop_last() =~= entries_of(done.drop_last()));
            }
        }
        match batcher.push(op) {
            None => {},
            Some(full) => {
                store.write(&full);
            },
        }
        i = i + 1;
    }
    assert(rows@.subrange(0, i as int) =~= rows@);
    store.write(&batcher.batch);
}

/// A node of a trie.
pub struct TrieRow {
    pub idx: u64,
    pub hash: [u8; 32],
    pub data: Vec<u8>,
}

/// What a node row writes to the column of its trie.
pub open spec fn trie_row_op(t: TrieColumn, row: TrieRow) -> Op {
    Op::Put(trie_column(t), be_u64(row.idx), row.hash@ + row.data@)
}

pub open spec fn trie_row_ops(t: TrieColumn, rows: Seq<TrieRow>) -> Seq<Op> {
    rows.map_values(|row: TrieRow| trie_row_op(t, row))
}

/// A node whose encoding is too long.
#[derive(Clone, Copy, Debug, PartialEq, Eq, Structural)]
pub struct NodeTooLarge {
    pub trie: TrieColumn,
    pub idx: u64,
    pub size: usize,
}

/// The first row whose data is too long.
pub open spec fn first_too_large(rows: Seq<TrieRow>) -> Option<int>
    decreases rows.len(),
{
    if rows.len() == 0 {
        None
    } else {
        match first_too_large(rows.drop_last()) {
            Some(i) => Some(i),
            None => if rows.last().data@.len() > MAX_NODE_DATA {
                Some(rows.len() - 1)
            } else {
                None
            },
        }
    }
}

proof fn lemma_first_too_large(rows: Seq<TrieRow>, n: int)
    requires
        0 <= n <= rows.len(),
        first_too_large(rows.subrange(0, n)) is Some,
    ensures
        first_too_large(rows) == first_too_large(rows.subrange(0, n)),
    decreases rows.len() - n,
{
    if n == rows.len() {
        assert(rows.subrange(0, n) =~= rows);
    } else {
        assert(rows.subrange(0, n + 1).drop_last() =~= rows.subrange(0, n));
        lemma_first_too_large(rows, n + 1);
    }
}

/// The write that a node row becomes.
pub fn trie_entry(t: TrieColumn, row: &TrieRow) -> (r: Result<BatchOp, NodeTooLarge>)
    ensures
        row.data@.len() <= MAX_NODE_DATA ==> (r matches Ok(op) && op@ == trie_row_op(t, *row)),
        row.data@.len() > MAX_NODE_DATA ==> r == Err::<BatchOp, NodeTooLarge>(
            NodeTooLarge { trie: t, idx: row.idx, size: row.data@.len() as usize },
        ),
{
    if row.data.len() > MAX_NODE_DATA {
        return Err(NodeTooLarge { trie: t, idx: row.idx, size: row.data.len() });
    }
    let mut value: Vec<u8> = copy_bytes(row.hash.as_slice());
    push_bytes(&mut value, row.data.as_slice());
    Ok(BatchOp::Put { column: t.column(), key: u64_to_be_bytes(row.idx), value })
}

/// Writes the nodes of a trie, a batch at a time. A node whose encoding is too long stops that, and
/// what was written before it stays.
pub fn migrate_trie(rows: &Vec<TrieRow>, t: TrieColumn, store: &mut Store) -> (r: Result<
    (),
    NodeTooLarge,
>)
    ensures
        match first_too_large(rows@) {
            None => r is Ok && final(store)@ == apply_ops(old(store)@, trie_row_ops(t, rows@)),
            Some(i) => {
                &&& 0 <= i < rows@.len()
                &&& r == Err::<(), NodeTooLarge>(
                    NodeTooLarge {
                        trie: t,
                        idx: rows@[i].idx,
                        size: rows@[i].data@.len() as usize,
                    },
                )
                &&& final(store)@ == apply_ops(
                    old(store)@,
                    trie_row_ops(t, rows@.subrange(0, i - i % ROW_BATCH_SIZE as int)),
                )
            },
        },
{
    let mut batcher = Batcher::new(ROW_BATCH_SIZE);
    let ghost all = trie_row_ops(t, rows@);
    let ghost mut written: int = 0;
    let mut i: usize = 0;
    proof {
        assert(all.subrange(0, 0) =~= Seq::<Op>::empty());
        assert(rows@.subrange(0, 0) =~= Seq::<TrieRow>::empty());
    }
    while i < rows.len()
        invariant
            i <= rows@.len(),
            all == trie_row_ops(t, rows@),
            batcher.size == ROW_BATCH_SIZE,
            0 <= written <= i,
            written == i - i % ROW_BATCH_SIZE,
            batcher.left == ROW_BATCH_SIZE - (i - written),
            batcher.batch@ == all.subrange(written, i as int),
            store@ == apply_ops(old(store)@, all.subrange(0, written)),
            first_too_large(rows@.subrange(0, i as int)) is None,
        decreases rows@.len() - i,
    {
        proof {
            let done = rows@.subrange(0, i + 1);
            assert(done.drop_last() =~= rows@.subrange(0, i as int));
            assert(done.last() == rows@[i as int]);
            if rows@[i as int].data@.len() > MAX_NODE_DATA {
                lemma_first_too_large(rows@, i + 1);
                assert(trie_row_ops(t, rows@.subrange(0, written)) =~= all.subrange(0, written));
            }
            assert(all.subrange(written, i as int).push(all[i as int]) =~= all.subrange(
                written,
                i + 1,
            ));
        }
        let op: BatchOp = match trie_entry(t, &rows[i]) {
            Err(e) => {
                return Err(e);
            },
            Ok(op) => op,
        };
        match batcher.push(Some(op)) {
            None => {},
            Some(full) => {
                store.write(&full);
                proof {
                    lemma_apply_concat(
                        old(store)@,
                        all.subrange(0, written),
                        all.subrange(written, i + 1),
                    );
                    assert(all.subrange(0, written) + all.subrange(written, i + 1) =~= all.subrange(
                        0,
                        i + 1,
                    ));
                    written = i + 1;
                    assert(all.subrange(written, written) =~= Seq::<Op>::empty());
                }
            },
        }
        i = i + 1;
    }
    store.write(&batcher.batch);
    proof {
        lemma_apply_concat(
            old(store)@,
            all.subrange(0, written),
            all.subrange(written, i as int),
        );
        assert(all.subrange(0, written) + all.subrange(written, i as int) =~= all);
        assert(rows@.subrange(0, i as int) =~= rows@);
    }
    Ok(())
}

/// The next free index of a trie with these rows: one above the highest.
pub open spec fn next_free(rows: Seq<TrieRow>) -> int
    decreases rows.len(),
{
    if rows.len() == 0 {
        0
    } else {
        let before = next_free(rows.drop_last());
        if rows.last().idx + 1 > before {
            rows.last().idx + 1
        } else {
            before
        }
    }
}

/// The next free index is above the index of every row, and no larger than it need be.
pub proof fn lemma_next_free(rows: Seq<TrieRow>)
    ensures
        0 <= next_free(rows),
        forall|i: int| 0 <= i < rows.len() ==> (#[trigger] rows[i]).idx < next_free(rows),
        next_free(rows) > 0 ==> exists|i: int|
            0 <= i < rows.len() && (#[trigger] rows[i]).idx + 1 == next_free(rows),
    decreases rows.len(),
{
    if rows.len() > 0 {
        let front = rows.drop_last();
        lemma_next_free(front);
        assert forall|i: int| 0 <= i < rows.len() implies (#[trigger] rows[i]).idx < next_free(
            rows,
        ) by {
            if i < front.len() {
                assert(front[i] == rows[i]);
            }
        }
        if rows.last().idx + 1 > next_free(front) {
            assert(rows[rows.len() - 1].idx + 1 == next_free(rows));
        } else {
            let i = choose|i: int|
                0 <= i < front.len() && (#[trigger] front[i]).idx + 1 == next_free(front);
            assert(rows[i].idx + 1 == next_free(rows));
        }
    }
}

/// The next free index, given the highest one in use.
pub fn next_index(max_idx: Option<u64>) -> (r: u64)
    requires
        max_idx matches Some(m) ==> m < u64::MAX,
    ensures
        r == match max_idx {
            Some(m) => m + 1,
            None => 0,
        },
{
    match max_idx {
        Some(m) => m + 1,
        None => 0,
    }
}

/// Indices are kept in signed integers, so the largest is no index.
pub open spec fn signed_indices(rows: Seq<TrieRow>) -> bool {
    forall|i: int| 0 <= i < rows.len() ==> (#[trigger] rows[i]).idx <= i64::MAX
}

/// Writes the next free index of a trie.
pub fn create_next_index(rows: &Vec<TrieRow>, t: TrieColumn, store: &mut Store)
    requires
        signed_indices(rows@),
    ensures
        final(store)@ == apply_op(
            old(store)@,
            Op::Put(Column::TrieNextIndex, next_index_key(t), be_u64(next_free(rows@) as u64)),
        ),
{
    let mut max: Option<u64> = None;
    let mut i: usize = 0;
    assert(rows@.subrange(0, 0) =~= Seq::<TrieRow>::empty());
    while i < rows.len()
        invariant
            i <= rows@.len(),
            signed_indices(rows@),
            max matches Some(m) ==> m <= i64::MAX,
            next_free(rows@.subrange(0, i as int)) == (match max {
                Some(m) => m + 1,
                None => 0,
            }),
        decreases rows@.len() - i,
    {
        proof {
            let done = rows@.subrange(0, i + 1);
            assert(done.drop_last() =~= rows@.subrange(0, i as int));
            assert(done.last() == rows@[i as int]);
        }
        let idx: u64 = rows[i].idx;
        match max {
            Some(m) => {
                if idx > m {
                    max = Some(idx);
                }
            },
            None => {
                max = Some(idx);
            },
        }
        i = i + 1;
    }
    assert(rows@.subrange(0, i as int) =~= rows@);
    let mut batch = Batch::new();
    batch.put(Column::TrieNextIndex, t.next_index_key(), u64_to_be_bytes(next_index(max)));
    store.write(&batch);
    proof {
        assert(batch@.drop_last() =~= Seq::<Op>::empty());
        assert(apply_ops(old(store)@, batch@.drop_last()) == old(store)@);
    }
}

/// A contract's state hash at a block.
pub struct StateHashRow {
    pub block_number: u64,
    pub contract_address: [u8; 32],
    pub state_hash: [u8; 32],
}

/// An address followed by the block number counted down from the largest.
pub open spec fn dated(prefix: Seq<u8>, block_number: u64) -> Seq<u8> {
    prefix + be_u64((u64::MAX - block_number) as u64)
}

fn dated_key(prefix: &[u8], block_number: u64) -> (r: Vec<u8>)
    ensures
        r@ == dated(prefix@, block_number),
{
    let mut key: Vec<u8> = copy_bytes(prefix);
    let suffix = u64_to_be_bytes(u64::MAX - block_number);
    push_bytes(&mut key, suffix.as_slice());
    key
}

impl TableRow for StateHashRow {
    open spec fn entry(&self) -> Option<Op> {
        Some(
            Op::Put(
                Column::ContractStateHashes,
                dated(self.contract_address@, self.block_number),
                self.state_hash@,
            ),
        )
    }

    fn to_entry(&self) -> (r: Option<BatchOp>) {
        Some(
            BatchOp::Put {
                column: Column::ContractStateHashes,
                key: dated_key(self.contract_address.as_slice(), self.block_number),
                value: copy_bytes(self.state_hash.as_slice()),
            },
        )
    }
}

/// A row of the state hash table becomes the entry that the hash would be stored as.
pub proof fn law_state_hash_entry(row: StateHashRow, address: Felt)
    requires
        address@ == row.contract_address@,
    ensures
        row.entry() == Some(
            Op::Put(
                Column::ContractStateHashes,
                state_hash_key(row.block_number, address),
                row.state_hash@,
            ),
        ),
{
}

pub fn migrate_contract_state_hashes(rows: &Vec<StateHashRow>, store: &mut Store)
    ensures
        final(store)@ == apply_ops(old(store)@, entries_of(rows@)),
{
    migrate_rows(rows, ROW_BATCH_SIZE, store)
}

/// The key of a nonce update: the address, then the block number counted down from the largest one.
pub fn nonce_update_key(block_number: u64, contract_address: &[u8; 32]) -> (r: Vec<u8>)
    ensures
        r@ == dated(contract_address@, block_number),
{
    dated_key(contract_address.as_slice(), block_number)
}

/// The key of a storage update: the two addresses, then the block number counted down from the
/// largest one.
pub fn storage_update_key(
    block_number: u64,
    contract_address: &[u8; 32],
    storage_address: &[u8; 32],
) -> (r: Vec<u8>)
    ensures
        r@ == dated(contract_address@ + storage_address@, block_number),
{
    let mut prefix: Vec<u8> = copy_bytes(contract_address.as_slice());
    push_bytes(&mut prefix, storage_address.as_slice());
    dated_key(prefix.as_slice(), block_number)
}

/// The encoded state update of a block.
pub struct StateUpdateRow {
    pub block_number: u64,
    pub data: Vec<u8>,
}

impl TableRow for StateUpdateRow {
    open spec fn entry(&self) -> Option<Op> {
        Some(Op::Put(Column::StateUpdates, be_u64(self.block_number), self.data@))
    }

    fn to_entry(&self) -> (r: Option<BatchOp>) {
        Some(
            BatchOp::Put {
                column: Column::StateUpdates,
                key: u64_to_be_bytes(self.block_number),
                value: copy_bytes(self.data.as_slice()),
            },
        )
    }
}

/// Writes the encoded state updates of blocks.
pub fn store_state_updates(rows: &Vec<StateUpdateRow>, store: &mut Store)
    ensures
        final(store)@ == apply_ops(old(store)@, entries_of(rows@)),
{
    migrate_rows(rows, BLOB_BATCH_SIZE, store)
}

pub struct NonceUpdateRow {
    pub block_number: u64,
    pub contract_address: [u8; 32],
    pub nonce: Vec<u8>,
}

impl TableRow for NonceUpdateRow {
    open spec fn entry(&self) -> Option<Op> {
        Some(
            Op::Put(
                Column::NonceUpdates,
                dated(self.contract_address@, self.block_number),
                self.nonce@,
            ),
        )
    }

    fn to_entry(&self) -> (r: Option<BatchOp>) {
        Some(
            BatchOp::Put {
                column: Column::NonceUpdates,
                key: nonce_update_key(self.block_number, &self.contract_address),
                value: copy_bytes(self.nonce.as_slice()),
            },
        )
    }
}

pub fn migrate_nonce_updates(rows: &Vec<NonceUpdateRow>, store: &mut Store)
    ensures
        final(store)@ == apply_ops(old(store)@, entries_of(rows@)),
{
    migrate_rows(rows, ROW_BATCH_SIZE, store)
}

pub struct StorageUpdateRow {
    pub block_number: u64,
    pub contract_address: [u8; 32],
    pub storage_address: [u8; 32],
    pub storage_value: Vec<u8>,
}

impl TableRow for StorageUpdateRow {
    open spec fn entry(&self) -> Option<Op> {
        Some(
            Op::Put(
                Column::StorageUpdates,
                dated(self.contract_address@ + self.storage_address@, self.block_number),
                self.storage_value@,
            ),
        )
    }

    fn to_entry(&self) -> (r: Option<BatchOp>) {
        Some(
            BatchOp::Put {
                column: Column::StorageUpdates,
                key: storage_update_key(
                    self.block_number,
                    &self.contract_address,
                    &self.storage_address,
                ),
                value: copy_bytes(self.storage_value.as_slice()),
            },
        )
    }
}

pub fn migrate_storage_updates(rows: &Vec<StorageUpdateRow>, store: &mut Store)
    ensures
        final(store)@ == apply_ops(old(store)@, entries_of(rows@)),
{
    migrate_rows(rows, ROW_BATCH_SIZE, store)
}

/// The transactions and receipts of a block.
pub struct TransactionsRow {
    pub block_number: u64,
    pub data: Vec<u8>,
}

impl TableRow for TransactionsRow {
    open spec fn entry(&self) -> Option<Op> {
        Some(Op::Put(Column::TransactionsAndReceipts, be_u64(self.block_number), self.data@))
    }

    fn to_entry(&self) -> (r: Option<BatchOp>) {
        Some(
            BatchOp::Put {
                column: Column::TransactionsAndReceipts,
                key: u64_to_be_bytes(self.block_number),
                value: copy_bytes(self.data.as_slice()),
            },
        )
    }
}

pub fn migrate_transactions_and_receipts(rows: &Vec<TransactionsRow>, store: &mut Store)
    ensures
        final(store)@ == apply_ops(old(store)@, entries_of(rows@)),
{
    migrate_rows(rows, BLOB_BATCH_SIZE, store)
}

/// Where the transaction with a hash stands.
pub struct TransactionHashRow {
    pub hash: Vec<u8>,
    pub block_number: u64,
    pub idx: u16,
}

impl TableRow for TransactionHashRow {
    open spec fn entry(&self) -> Option<Op> {
        Some(
            Op::Put(
                Column::TransactionHashes,
                self.hash@,
                be_u64(self.block_number) + be_u16(self.idx),
            ),
        )
    }

    fn to_entry(&self) -> (r: Option<BatchOp>) {
        let mut value: Vec<u8> = u64_to_be_bytes(self.block_number);
        let idx = u16_to_be_bytes(self.idx);
        push_bytes(&mut value, idx.as_slice());
        Some(
            BatchOp::Put {
                column: Column::TransactionHashes,
                key: copy_bytes(self.hash.as_slice()),
                value,
            },
        )
    }
}

pub fn migrate_transaction_hashes(rows: &Vec<TransactionHashRow>, store: &mut Store)
    ensures
        final(store)@ == apply_ops(old(store)@, entries_of(rows@)),
{
    migrate_rows(rows, ROW_BATCH_SIZE, store)
}

/// The events of a block, which may have none.
pub struct EventsRow {
    pub block_number: u64,
    pub data: Option<Vec<u8>>,
}

impl TableRow for EventsRow {
    open spec fn entry(&self) -> Option<Op> {
        match self.data {
            None => None,
            Some(data) => Some(Op::Put(Column::Events, be_u64(self.block_number), data@)),
        }
    }

    fn to_entry(&self) -> (r: Option<BatchOp>) {
        match &self.data {
            None => None,
            Some(data) => Some(
                BatchOp::Put {
                    column: Column::Events,
                    key: u64_to_be_bytes(self.block_number),
                    value: copy_bytes(data.as_slice()),
                },
            ),
        }
    }
}

pub fn migrate_events(rows: &Vec<EventsRow>, store: &mut Store)
    ensures
        final(store)@ == apply_ops(old(store)@, entries_of(rows@)),
{
    migrate_rows(rows, BLOB_BATCH_SIZE, store)
}

/// The tables of the three tries and of the contracts' state hashes.
pub struct TrieTables {
    pub class: Vec<TrieRow>,
    pub storage: Vec<TrieRow>,
    pub contract: Vec<TrieRow>,
    pub state_hashes: Vec<StateHashRow>,
}

/// The contents once the tables have been moved.
pub open spec fn tries_moved(db: Contents, tables: TrieTables) -> Contents {
    let a = apply_ops(db, trie_row_ops(TrieColumn::Class, tables.class@));
    let b = apply_ops(a, trie_row_ops(TrieColumn::Storage, tables.storage@));
    let c = apply_ops(b, trie_row_ops(TrieColumn::Contract, tables.contract@));
    let d = apply_ops(c, entries_of(tables.state_hashes@));
    let e = apply_op(d, next_free_op(TrieColumn::Class, tables.class@));
    let f = apply_op(e, next_free_op(TrieColumn::Contract, tables.contract@));
    apply_op(f, next_free_op(TrieColumn::Storage, tables.storage@))
}

pub open spec fn next_free_op(t: TrieColumn, rows: Seq<TrieRow>) -> Op {
    Op::Put(Column::TrieNextIndex, next_index_key(t), be_u64(next_free(rows) as u64))
}

/// Moves the tables of the tries and of the state hashes into the store, and writes the next free
/// index of each trie.
pub fn migrate_tries(tables: &TrieTables, store: &mut Store) -> (r: Result<(), NodeTooLarge>)
    requires
        signed_indices(tables.class@),
        signed_indices(tables.storage@),
        signed_indices(tables.contract@),
    ensures
        r is Ok <==> (first_too_large(tables.class@) is None && first_too_large(
            tables.storage@,
        ) is None && first_too_large(tables.contract@) is None),
        r is Ok ==> final(store)@ == tries_moved(old(store)@, *tables),
        r matches Err(e) ==> {
            let (t, rows) = if first_too_large(tables.class@) is Some {
                (TrieColumn::Class, tables.class@)
            } else if first_too_large(tables.storage@) is Some {
                (TrieColumn::Storage, tables.storage@)
            } else {
                (TrieColumn::Contract, tables.contract@)
            };
            let i = first_too_large(rows)->0;
            e == NodeTooLarge { trie: t, idx: rows[i].idx, size: rows[i].data@.len() as usize }
        },
{
    match migrate_trie(&tables.class, TrieColumn::Class, store) {
        Ok(()) => {},
        Err(e) => {
            return Err(e);
        },
    }
    match migrate_trie(&tables.storage, TrieColumn::Storage, store) {
        Ok(()) => {},
        Err(e) => {
            return Err(e);
        },
    }
    match migrate_trie(&tables.contract, TrieColumn::Contract, store) {
        Ok(()) => {},
        Err(e) => {
            return Err(e);
        },
    }
    migrate_contract_state_hashes(&tables.state_hashes, store);
    create_next_index(&tables.class, TrieColumn::Class, store);
    create_next_index(&tables.contract, TrieColumn::Contract, store);
    create_next_index(&tables.storage, TrieColumn::Storage, store);
    Ok(())
}

/// A batch of node rows leaves the other columns alone, and of the rows with one index the last
/// counts.
proof fn lemma_trie_rows(db: Contents, t: TrieColumn, rows: Seq<TrieRow>)
    ensures
        forall|c: Column|
            c != trie_column(t) ==> #[trigger] apply_ops(db, trie_row_ops(t, rows))[c] == db[c],
        forall|i: int|
            #![trigger rows[i]]
            0 <= i < rows.len() && distinct_indices(rows) ==> {
                let column = apply_ops(db, trie_row_ops(t, rows))[trie_column(t)];
                column.contains_key(be_u64(rows[i].idx)) && column[be_u64(rows[i].idx)]
                    == rows[i].hash@ + rows[i].data@
            },
    decreases rows.len(),
{
    let ops = trie_row_ops(t, rows);
    if rows.len() > 0 {
        let front = rows.drop_last();
        lemma_trie_rows(db, t, front);
        assert(ops.drop_last() =~= trie_row_ops(t, front));
        assert(ops.last() == trie_row_op(t, rows.last()));
        assert forall|c: Column| c != trie_column(t) implies #[trigger] apply_ops(db, ops)[c]
            == db[c] by {
            assert(apply_ops(db, trie_row_ops(t, front))[c] == db[c]);
        }
        if distinct_indices(rows) {
            assert forall|i: int| #![trigger rows[i]] 0 <= i < rows.len() implies {
                let column = apply_ops(db, ops)[trie_column(t)];
                column.contains_key(be_u64(rows[i].idx)) && column[be_u64(rows[i].idx)]
                    == rows[i].hash@ + rows[i].data@
            } by {
                if i < front.len() {
                    assert(front[i] == rows[i]);
                    assert(rows[i].idx != rows[rows.len() - 1].idx);
                    if be_u64(rows[i].idx) == be_u64(rows.last().idx) {
                        lemma_be_u64_injective(rows[i].idx, rows.last().idx);
                    }
                }
            }
        }
    }
}

/// No index occurs twice.
pub open spec fn distinct_indices(rows: Seq<TrieRow>) -> bool {
    forall|i: int, j: int|
        #![trigger rows[i], rows[j]]
        0 <= i < j < rows.len() ==> rows[i].idx != rows[j].idx
}

proof fn lemma_state_hash_rows(db: Contents, rows: Seq<StateHashRow>)
    ensures
        forall|c: Column|
            c != Column::ContractStateHashes ==> #[trigger] apply_ops(db, entries_of(rows))[c]
                == db[c],
    decreases rows.len(),
{
    if rows.len() > 0 {
        lemma_state_hash_rows(db, rows.drop_last());
        let ops = entries_of(rows);
        assert(ops.drop_last() =~= entries_of(rows.drop_last()));
        assert forall|c: Column| c != Column::ContractStateHashes implies #[trigger] apply_ops(
            db,
            ops,
        )[c] == db[c] by {
            assert(apply_ops(db, entries_of(rows.drop_last()))[c] == db[c]);
        }
    }
}

/// The rows of a trie's table, whose indices are distinct, move one to one: once the tables have
/// been moved, the hash and data of each row stand under its index, and the next free index of the
/// trie is above all of them.
pub proof fn law_tries_move_one_to_one(db: Contents, tables: TrieTables, t: TrieColumn, i: int)
    requires
        0 <= i < trie_table(tables, t).len(),
        distinct_indices(trie_table(tables, t)),
    ensures
        ({
            let row = trie_table(tables, t)[i];
            let after = tries_moved(db, tables);
            &&& after[trie_column(t)].contains_key(be_u64(row.idx))
            &&& after[trie_column(t)][be_u64(row.idx)] == row.hash@ + row.data@
            &&& after[Column::TrieNextIndex].contains_key(next_index_key(t))
            &&& after[Column::TrieNextIndex][next_index_key(t)] == be_u64(
                next_free(trie_table(tables, t)) as u64,
            )
            &&& row.idx < next_free(trie_table(tables, t))
        }),
{
    let a = apply_ops(db, trie_row_ops(TrieColumn::Class, tables.class@));
    let b = apply_ops(a, trie_row_ops(TrieColumn::Storage, tables.storage@));
    let c = apply_ops(b, trie_row_ops(TrieColumn::Contract, tables.contract@));
    lemma_trie_rows(db, TrieColumn::Class, tables.class@);
    lemma_trie_rows(a, TrieColumn::Storage, tables.storage@);
    lemma_trie_rows(b, TrieColumn::Contract, tables.contract@);
    lemma_state_hash_rows(c, tables.state_hashes@);
    lemma_next_index_keys(TrieColumn::Class, TrieColumn::Contract);
    lemma_next_index_keys(TrieColumn::Class, TrieColumn::Storage);
    lemma_next_index_keys(TrieColumn::Contract, TrieColumn::Storage);
    lemma_next_free(trie_table(tables, t));
    let row = trie_table(tables, t)[i];
    let d = apply_ops(c, entries_of(tables.state_hashes@));
    assert(d[trie_column(t)] == c[trie_column(t)]);
    match t {
        TrieColumn::Class => {
            assert(b[trie_column(t)] == a[trie_column(t)]);
            assert(c[trie_column(t)] == b[trie_column(t)]);
        },
        TrieColumn::Storage => {
            assert(c[trie_column(t)] == b[trie_column(t)]);
        },
        TrieColumn::Contract => {},
    }
}

/// The table of a trie.
pub open spec fn trie_table(tables: TrieTables, t: TrieColumn) -> Seq<TrieRow> {
    match t {
        TrieColumn::Class => tables.class@,
        TrieColumn::Contract => tables.contract@,
        TrieColumn::Storage => tables.storage@,
    }
}

} // verus!
