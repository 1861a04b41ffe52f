//! Batches of writes, and the store that they are written to.
use vstd::prelude::*;

use crate::bytes::copy_bytes;
use crate::storage::columns::{without_range, Column, ColumnMap, KeyValues};

verus! {

/// One write of a batch, over byte sequences.
pub enum Op {
    Put(Column, Seq<u8>, Seq<u8>),
    Delete(Column, Seq<u8>),
    DeleteRange(Column, Seq<u8>, Seq<u8>),
}

/// The contents of all columns.
pub type Contents = Map<Column, ColumnMap>;

/// The contents after one write.
pub open spec fn apply_op(db: Contents, op: Op) -> Contents {
    match op {
        Op::Put(c, k, v) => db.insert(c, db[c].insert(k, v)),
        Op::Delete(c, k) => db.insert(c, db[c].remove(k)),
        Op::DeleteRange(c, from, to) => db.insert(c, without_range(db[c], from, to)),
    }
}

/// The contents after the writes of a batch, made in order.
pub open spec fn apply_ops(db: Contents, ops: Seq<Op>) -> Contents
    decreases ops.len(),
{
    if ops.len() == 0 {
        db
    } else {
        apply_op(apply_ops(db, ops.drop_last()), ops.last())
    }
}

/// Writing two batches one after the other is writing their concatenation.
pub proof fn lemma_apply_concat(db: Contents, a: Seq<Op>, b: Seq<Op>)
    ensures
        apply_ops(db, a + b) == apply_ops(apply_ops(db, a), b),
    decreases b.len(),
{
    if b.len() == 0 {
        assert(a + b =~= a);
    } else {
        assert((a + b).drop_last() =~= a + b.drop_last());
        lemma_apply_concat(db, a, b.drop_last());
    }
}

/// One write of a batch.
#[derive(Debug)]
pub enum BatchOp {
    Put { column: Column, key: Vec<u8>, value: Vec<u8> },
    Delete { column: Column, key: Vec<u8> },
    /// Deletes every key from `from` up to but not including `to`.
    DeleteRange { column: Column, from: Vec<u8>, to: Vec<u8> },
}

impl View for BatchOp {
    type V = Op;

    open spec fn view(&self) -> Op {
        match self {
            BatchOp::Put { column, key, value } => Op::Put(*column, key@, value@),
            BatchOp::Delete { column, key } => Op::Delete(*column, key@),
            BatchOp::DeleteRange { column, from, to } => Op::DeleteRange(*column, from@, to@),
        }
    }
}

/// Writes that are made together, in order.
#[derive(Debug)]
pub struct Batch {
    pub ops: Vec<BatchOp>,
}

impl View for Batch {
    type V = Seq<Op>;

    open spec fn view(&self) -> Seq<Op> {
        self.ops@.map_values(|o: BatchOp| o@)
    }
}

impl Batch {
    pub fn new() -> (r: Self)
        ensures
            r@ == Seq::<Op>::empty(),
    {
        let r = Batch { ops: Vec::new() };
        assert(r@ =~= Seq::<Op>::empty());
        r
    }

    pub fn put(&mut self, column: Column, key: Vec<u8>, value: Vec<u8>)
        ensures
            final(self)@ == old(self)@.push(Op::Put(column, key@, value@)),
    {
        let ghost op = Op::Put(column, key@, value@);
        self.ops.push(BatchOp::Put { column, key, value });
        assert(self@ =~= old(self)@.push(op));
    }

    pub fn delete(&mut self, column: Column, key: Vec<u8>)
        ensures
            final(self)@ == old(self)@.push(Op::Delete(column, key@)),
    {
        let ghost op = Op::Delete(column, key@);
        self.ops.push(BatchOp::Delete { column, key });
        assert(self@ =~= old(self)@.push(op));
    }

    pub fn delete_range(&mut self, column: Column, from: Vec<u8>, to: Vec<u8>)
        ensures
            final(self)@ == old(self)@.push(Op::DeleteRange(column, from@, to@)),
    {
        let ghost op = Op::DeleteRange(column, from@, to@);
        self.ops.push(BatchOp::DeleteRange { column, from, to });
        assert(self@ =~= old(self)@.push(op));
    }

    /// Moves the writes of `other` behind those of this batch.
    pub fn append(&mut self, other: &mut Batch)
        ensures
            final(self)@ == old(self)@ + old(other)@,
            final(other)@ == Seq::<Op>::empty(),
    {
        self.ops.append(&mut other.ops);
        assert(self@ =~= old(self)@ + old(other)@);
        assert(other@ =~= Seq::<Op>::empty());
    }
}

/// The number of columns.
pub const COLUMNS: usize = 11;

/// The position of a column in the store.
pub open spec fn position(c: Column) -> int {
    match c {
        Column::TrieClass => 0,
        Column::TrieContract => 1,
        Column::TrieStorage => 2,
        Column::TrieNextIndex => 3,
        Column::ContractStateHashes => 4,
        Column::StateUpdates => 5,
        Column::NonceUpdates => 6,
        Column::StorageUpdates => 7,
        Column::TransactionsAndReceipts => 8,
        Column::TransactionHashes => 9,
        Column::Events => 10,
    }
}

fn column_position(c: Column) -> (r: usize)
    ensures
        r == position(c),
        r < COLUMNS,
{
    match c {
        Column::TrieClass => 0,
        Column::TrieContract => 1,
        Column::TrieStorage => 2,
        Column::TrieNextIndex => 3,
        Column::ContractStateHashes => 4,
        Column::StateUpdates => 5,
        Column::NonceUpdates => 6,
        Column::StorageUpdates => 7,
        Column::TransactionsAndReceipts => 8,
        Column::TransactionHashes => 9,
        Column::Events => 10,
    }
}

/// A key-value store held in memory.
#[derive(Debug)]
pub struct Store {
    columns: Vec<KeyValues>,
}

impl View for Store {
    type V = Contents;

    closed spec fn view(&self) -> Contents {
        Map::new(|c: Column| true, |c: Column| self.columns@[position(c)]@)
    }
}

impl Store {
    #[verifier::type_invariant]
    spec fn complete(self) -> bool {
        self.columns@.len() == COLUMNS
    }

    /// A store with empty columns.
    pub fn new() -> (r: Self)
        ensures
            forall|c: Column| #[trigger] r@.contains_key(c) && r@[c] == ColumnMap::empty(),
    {
        let mut columns: Vec<KeyValues> = Vec::new();
        while columns.len() < COLUMNS
            invariant
                columns@.len() <= COLUMNS,
                forall|i: int| 0 <= i < columns@.len() ==> columns@[i]@ == ColumnMap::empty(),
            decreases COLUMNS - columns@.len(),
        {
            columns.push(KeyValues::new());
        }
        Store { columns }
    }

    /// The entries of one column.
    pub fn column(&self, c: Column) -> (r: &KeyValues)
        ensures
            r@ == self@[c],
    {
        proof {
            use_type_invariant(self);
        }
        &self.columns[column_position(c)]
    }

    /// Makes one write.
    fn write_op(&mut self, op: &BatchOp)
        ensures
            final(self)@ == apply_op(old(self)@, op@),
    {
        proof {
            use_type_invariant(&*self);
        }
        let mut empty: Store = Store::new();
        std::mem::swap(&mut empty, self);
        let Store { mut columns } = empty;
        match op {
            BatchOp::Put { column, key, value } => {
                let i: usize = column_position(*column);
                let mut entries = columns.remove(i);
                entries.put(copy_bytes(key.as_slice()), copy_bytes(value.as_slice()));
                columns.insert(i, entries);
            },
            BatchOp::Delete { column, key } => {
                let i: usize = column_position(*column);
                let mut entries = columns.remove(i);
                entries.delete(key.as_slice());
                columns.insert(i, entries);
            },
            BatchOp::DeleteRange { column, from, to } => {
                let i: usize = column_position(*column);
                let mut entries = columns.remove(i);
                entries.delete_range(from.as_slice(), to.as_slice());
                columns.insert(i, entries);
            },
        }
        self.columns = columns;
        assert(self@ =~= apply_op(old(self)@, op@));
    }

    /// Makes the writes of a batch, in order.
    pub fn write(&mut self, batch: &Batch)
        ensures
            final(self)@ == apply_ops(old(self)@, batch@),
    {
        let mut i: usize = 0;
        assert(batch@.subrange(0, 0) =~= Seq::<Op>::empty());
        while i < batch.ops.len()
            invariant
                i <= batch.ops@.len(),
                batch@.len() == batch.ops@.len(),
                self@ == apply_ops(old(self)@, batch@.subrange(0, i as int)),
            decreases batch.ops@.len() - i,
        {
            self.write_op(&batch.ops[i]);
            i = i + 1;
            proof {
                let done = batch@.subrange(0, i as int);
                assert(done.drop_last() =~= batch@.subrange(0, i - 1));
                assert(done.last() == batch.ops@[i - 1]@);
            }
        }
        assert(batch@.subrange(0, i as int) =~= batch@);
    }
}

} // verus!
