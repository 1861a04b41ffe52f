//! A storage transaction over tables and columns held in memory: trie nodes, trie roots and contract
//! state hashes, with the pruning of what is no longer needed.
use vstd::prelude::*;
use vstd::slice::slice_subrange;

use crate::bytes::{be_u64, u64_to_be_bytes};
use crate::felt::{is_felt, left_padded, Felt};
use crate::felt_map::FeltMap;
use crate::state_update::StateUpdateData;
use crate::storage::block_pruning::{
    changes_left, deletes, filters_left, numbers_left, prune_block, update_gone, BlockTables,
};
use crate::storage::codec::{parse_node, CodecError, StoredNode, TrieStorageIndex};
use crate::storage::columns::{Column, ColumnMap};
use crate::storage::reconcile::NextIndices;
use crate::storage::roots::{value_at, without_history, BlockTable};
use crate::storage::store::{apply_ops, Batch, Contents, Op, Store};
use crate::storage::trie::{trie_column, RootIndexUpdate, TrieColumn, TrieError};

verus! {

/// How much of the tries' history is kept.
#[derive(Clone, Copy, Debug, PartialEq, Eq, Structural)]
pub enum TriePruneMode {
    /// All of it.
    Archive,
    /// That of the latest block and of `num_blocks_kept` blocks before it.
    Prune { num_blocks_kept: u64 },
}

/// Why a transaction cannot do what it is asked for.
#[derive(Debug)]
pub enum TransactionError {
    /// A recorded root index is out of range.
    RootIndexOutOfRange(i64),
    /// A trie entry is shorter than a hash.
    ShortEntry { index: u64, column: Column, len: usize },
    /// A trie entry holds no node.
    DecodingNode(CodecError),
    /// A trie entry holds no hash.
    DecodingNodeHash,
    /// A key of a contract state hash has an unexpected length.
    StateHashKeyLength(usize),
    /// A contract state hash is not a field element.
    ParsingStateHash,
    /// A removal marker cannot be read.
    DecodingRemovalMarker(CodecError),
    /// A trie update cannot be stored.
    Trie(TrieError),
}

/// Nodes that were removed from a trie at a block, as a removal marker.
#[derive(Debug)]
pub struct RemovalRow {
    pub block: u64,
    pub indices: Vec<u8>,
}

/// The blocks and markers of removal rows.
pub open spec fn removal_views(rows: Seq<RemovalRow>) -> Seq<(u64, Seq<u8>)> {
    rows.map_values(|r: RemovalRow| (r.block, r.indices@))
}

/// A storage transaction.
pub struct Transaction {
    /// What is committed to the key-value store. Reads see this.
    pub store: Store,
    /// Writes to the key-value store that are not committed yet.
    pub batch: Batch,
    pub class_roots: BlockTable<Option<i64>>,
    pub storage_roots: BlockTable<Option<i64>>,
    pub contract_roots: FeltMap<BlockTable<Option<i64>>>,
    pub class_removals: Vec<RemovalRow>,
    pub contract_removals: Vec<RemovalRow>,
    pub storage_removals: Vec<RemovalRow>,
    /// The next free index of each trie.
    pub next: NextIndices,
    /// The number of the highest block.
    pub latest_block: Option<u64>,
    pub trie_prune_mode: TriePruneMode,
    /// Headers, event filters and class changes.
    pub blocks: BlockTables,
}

/// The block up to which history is no longer kept once `block` is stored.
pub open spec fn prune_before(mode: TriePruneMode, block: u64) -> Option<u64> {
    match mode {
        TriePruneMode::Archive => None,
        TriePruneMode::Prune { num_blocks_kept } => if block >= num_blocks_kept {
            Some((block - num_blocks_kept) as u64)
        } else {
            None
        },
    }
}

impl TriePruneMode {
    /// The block up to which history is no longer kept once `block` is stored.
    fn before(&self, block: u64) -> (r: Option<u64>)
        ensures
            r == prune_before(*self, block),
    {
        match self {
            TriePruneMode::Archive => None,
            TriePruneMode::Prune { num_blocks_kept } => block.checked_sub(*num_blocks_kept),
        }
    }
}

/// A root table after a root was recorded at `block`.
pub open spec fn with_root(
    m: Map<u64, Option<i64>>,
    block: u64,
    index: Option<i64>,
    mode: TriePruneMode,
) -> Map<u64, Option<i64>> {
    match prune_before(mode, block) {
        Some(before) => without_history(m.insert(block, index), before),
        None => m.insert(block, index),
    }
}

/// The root index that an update records; `None` where it records none.
pub open spec fn recorded(update: RootIndexUpdate) -> Option<Option<i64>> {
    match update {
        RootIndexUpdate::Unchanged => None,
        RootIndexUpdate::Updated(i) => Some(Some(i@ as i64)),
        RootIndexUpdate::TrieEmpty => Some(None),
    }
}

/// What a recorded root index says.
pub open spec fn root_index_is(
    v: Option<Option<i64>>,
    r: Result<Option<TrieStorageIndex>, TransactionError>,
) -> bool {
    match v {
        Some(Some(i)) => if i >= 0 {
            r matches Ok(Some(x)) && x@ == i
        } else {
            r matches Err(TransactionError::RootIndexOutOfRange(x)) && x == i
        },
        _ => r matches Ok(None),
    }
}

/// The root index in a row, if the row has one. One that is out of range is an error.
fn optional_trie_storage_index(row: Option<(u64, Option<i64>)>) -> (r: Result<
    Option<TrieStorageIndex>,
    TransactionError,
>)
    ensures
        root_index_is(
            match row {
                Some((_, v)) => Some(v),
                None => None,
            },
            r,
        ),
{
    match row {
        Some((_, Some(v))) => {
            if v < 0 {
                return Err(TransactionError::RootIndexOutOfRange(v));
            }
            match TrieStorageIndex::new(v as u64) {
                Some(i) => Ok(Some(i)),
                None => Err(TransactionError::RootIndexOutOfRange(v)),
            }
        },
        _ => Ok(None),
    }
}

/// The value stored for a trie node.
pub open spec fn trie_entry(db: Contents, t: TrieColumn, index: u64) -> Option<Seq<u8>> {
    if db[trie_column(t)].contains_key(be_u64(index)) {
        Some(db[trie_column(t)][be_u64(index)])
    } else {
        None
    }
}

/// What reading a trie node gives.
pub open spec fn node_read(
    db: Contents,
    t: TrieColumn,
    index: u64,
    r: Result<Option<StoredNode>, TransactionError>,
) -> bool {
    match trie_entry(db, t, index) {
        None => r matches Ok(None),
        Some(v) => if v.len() < 32 {
            r matches Err(TransactionError::ShortEntry { index: i, column: c, len: n }) && i
                == index && c == trie_column(t) && n == v.len()
        } else {
            match parse_node(v.subrange(32, v.len() as int)) {
                Ok(n) => r matches Ok(Some(s)) && s@ == n,
                Err(f) => r matches Err(TransactionError::DecodingNode(e)) && e@ == f,
            }
        },
    }
}

/// What reading the hash of a trie node gives.
pub open spec fn hash_read(
    db: Contents,
    t: TrieColumn,
    index: u64,
    r: Result<Option<Felt>, TransactionError>,
) -> bool {
    match trie_entry(db, t, index) {
        None => r matches Ok(None),
        Some(v) => if v.len() < 32 {
            r matches Err(TransactionError::ShortEntry { index: i, column: c, len: n }) && i
                == index && c == trie_column(t) && n == v.len()
        } else if is_felt(v.subrange(0, 32)) {
            r matches Ok(Some(h)) && h@ == v.subrange(0, 32)
        } else {
            r matches Err(TransactionError::DecodingNodeHash)
        },
    }
}

/// Whether reading a root gives what is stored under the root index that holds.
pub open spec fn root_read(
    db: Contents,
    t: TrieColumn,
    v: Option<Option<i64>>,
    r: Result<Option<Felt>, TransactionError>,
) -> bool {
    match v {
        Some(Some(i)) => if i >= 0 {
            hash_read(db, t, i as u64, r)
        } else {
            r matches Err(TransactionError::RootIndexOutOfRange(x)) && x == i
        },
        _ => r matches Ok(None),
    }
}

/// The root table of a contract.
pub open spec fn contract_table(
    m: Map<Felt, BlockTable<Option<i64>>>,
    contract: Felt,
) -> Map<u64, Option<i64>> {
    if m.contains_key(contract) {
        m[contract]@
    } else {
        Map::empty()
    }
}

impl Transaction {
    /// A transaction on an empty storage.
    pub fn in_memory_with_trie_pruning(trie_prune_mode: TriePruneMode) -> (r: Self)
        ensures
            forall|c: Column| #[trigger] r.store@[c] == ColumnMap::empty(),
            r.batch@ == Seq::<Op>::empty(),
            r.class_roots@ == Map::<u64, Option<i64>>::empty(),
            r.storage_roots@ == Map::<u64, Option<i64>>::empty(),
            r.contract_roots@ == Map::<Felt, BlockTable<Option<i64>>>::empty(),
            r.class_removals@.len() == 0,
            r.contract_removals@.len() == 0,
            r.storage_removals@.len() == 0,
            r.next == (NextIndices { class: 0, contract: 0, storage: 0 }),
            r.latest_block is None,
            r.trie_prune_mode == trie_prune_mode,
            r.blocks.block_headers@.len() == 0,
            r.blocks.event_filters@.len() == 0,
            r.blocks.contract_updates@.len() == 0,
    {
        let store = Store::new();
        assert(forall|c: Column| #[trigger]
            store@[c] == ColumnMap::empty()) by {
            assert forall|c: Column| #[trigger] store@[c] == ColumnMap::empty() by {
                assert(store@.contains_key(c));
            }
        }
        Transaction {
            store,
            batch: Batch::new(),
            class_roots: BlockTable::new(),
            storage_roots: BlockTable::new(),
            contract_roots: FeltMap::new(),
            class_removals: Vec::new(),
            contract_removals: Vec::new(),
            storage_removals: Vec::new(),
            next: NextIndices { class: 0, contract: 0, storage: 0 },
            latest_block: None,
            trie_prune_mode,
            blocks: BlockTables::new(),
        }
    }

    /// Drops a block and what the block after it makes obsolete. The state update of the block after
    /// it is given, where it is stored.
    pub fn prune_block(
        &mut self,
        block_to_prune: u64,
        next_state_update: Option<&StateUpdateData>,
        filter_range_len: u64,
    )
        requires
            block_to_prune < u64::MAX,
            filter_range_len > 0,
            next_state_update is Some ==> block_to_prune < u32::MAX,
        ensures
            *final(self) == (Transaction {
                blocks: final(self).blocks,
                batch: final(self).batch,
                ..*old(self)
            }),
            final(self).blocks.block_headers@ == numbers_left(
                old(self).blocks.block_headers@,
                block_to_prune,
            ),
            final(self).blocks.event_filters@ == filters_left(
                old(self).blocks.event_filters@,
                block_to_prune,
                filter_range_len,
            ),
            final(self).blocks.contract_updates@ == changes_left(
                old(self).blocks.contract_updates@,
                (block_to_prune + 1) as u64,
            ),
            match next_state_update {
                None => final(self).batch@ == old(self).batch@,
                Some(data) => exists|ops: Seq<Op>|
                    #![trigger old(self).batch@ + ops]
                    final(self).batch@ == old(self).batch@ + ops && deletes(
                        ops,
                        update_gone(old(self).store@, *data, (block_to_prune + 1) as u64),
                    ),
            },
    {
        prune_block(
            &mut self.blocks,
            &self.store,
            block_to_prune,
            next_state_update,
            filter_range_len,
            &mut self.batch,
        );
    }

    /// Commits the staged writes to the key-value store.
    pub fn flush_rocksdb_batch(&mut self)
        ensures
            final(self).store@ == apply_ops(old(self).store@, old(self).batch@),
            final(self).batch@ == Seq::<Op>::empty(),
            *final(self) == (Transaction {
                store: final(self).store,
                batch: final(self).batch,
                ..*old(self)
            }),
    {
        self.store.write(&self.batch);
        self.batch = Batch::new();
    }

    pub fn class_root_index(&self, block_number: u64) -> (r: Result<
        Option<TrieStorageIndex>,
        TransactionError,
    >)
        ensures
            root_index_is(value_at(self.class_roots@, block_number), r),
    {
        optional_trie_storage_index(self.class_roots.last_at(block_number))
    }

    pub fn class_root(&self, block_number: u64) -> (r: Result<Option<Felt>, TransactionError>)
        ensures
            root_read(
                self.store@,
                TrieColumn::Class,
                value_at(self.class_roots@, block_number),
                r,
            ),
    {
        match self.class_root_index(block_number) {
            Ok(Some(index)) => self.class_trie_node_hash(index),
            Ok(None) => Ok(None),
            Err(e) => Err(e),
        }
    }

    pub fn class_root_exists(&self, block_number: u64) -> (r: bool)
        ensures
            r == self.class_roots@.contains_key(block_number),
    {
        self.class_roots.contains(block_number)
    }

    pub fn storage_root_index(&self, block_number: u64) -> (r: Result<
        Option<TrieStorageIndex>,
        TransactionError,
    >)
        ensures
            root_index_is(value_at(self.storage_roots@, block_number), r),
    {
        optional_trie_storage_index(self.storage_roots.last_at(block_number))
    }

    pub fn storage_root_exists(&self, block_number: u64) -> (r: bool)
        ensures
            r == self.storage_roots@.contains_key(block_number),
    {
        self.storage_roots.contains(block_number)
    }

    pub fn contract_root_index(&self, block_number: u64, contract: &Felt) -> (r: Result<
        Option<TrieStorageIndex>,
        TransactionError,
    >)
        ensures
            root_index_is(
                value_at(contract_table(self.contract_roots@, *contract), block_number),
                r,
            ),
    {
        match self.contract_roots.get(*contract) {
            Some(table) => optional_trie_storage_index(table.last_at(block_number)),
            None => {
                assert(value_at(Map::<u64, Option<i64>>::empty(), block_number) is None);
                Ok(None)
            },
        }
    }

    pub fn contract_root(&self, block_number: u64, contract: &Felt) -> (r: Result<
        Option<Felt>,
        TransactionError,
    >)
        ensures
            root_read(
                self.store@,
                TrieColumn::Contract,
                value_at(contract_table(self.contract_roots@, *contract), block_number),
                r,
            ),
    {
        match self.contract_root_index(block_number, contract) {
            Ok(Some(index)) => self.contract_trie_node_hash(index),
            Ok(None) => Ok(None),
            Err(e) => Err(e),
        }
    }

    pub fn insert_class_root(&mut self, block_number: u64, update: RootIndexUpdate)
        ensures
            *final(self) == (Transaction {
                class_roots: final(self).class_roots,
                ..*old(self)
            }),
            final(self).class_roots@ == (match recorded(update) {
                None => old(self).class_roots@,
                Some(index) => with_root(
                    old(self).class_roots@,
                    block_number,
                    index,
                    old(self).trie_prune_mode,
                ),
            }),
    {
        let index: Option<i64> = match update {
            RootIndexUpdate::Unchanged => {
                return ;
            },
            RootIndexUpdate::Updated(i) => Some(i.to_i64()),
            RootIndexUpdate::TrieEmpty => None,
        };
        self.class_roots.insert_or_replace(block_number, index);
        if let Some(before) = self.trie_prune_mode.before(block_number) {
            self.class_roots.delete_history(before);
        }
    }

    pub fn insert_storage_root(&mut self, block_number: u64, update: RootIndexUpdate)
        ensures
            *final(self) == (Transaction {
                storage_roots: final(self).storage_roots,
                ..*old(self)
            }),
            final(self).storage_roots@ == (match recorded(update) {
                None => old(self).storage_roots@,
                Some(index) => with_root(
                    old(self).storage_roots@,
                    block_number,
                    index,
                    old(self).trie_prune_mode,
                ),
            }),
    {
        let index: Option<i64> = match update {
            RootIndexUpdate::Unchanged => {
                return ;
            },
            RootIndexUpdate::Updated(i) => Some(i.to_i64()),
            RootIndexUpdate::TrieEmpty => None,
        };
        self.storage_roots.insert_or_replace(block_number, index);
        if let Some(before) = self.trie_prune_mode.before(block_number) {
            self.storage_roots.delete_history(before);
        }
    }

    pub fn insert_contract_root(
        &mut self,
        block_number: u64,
        contract: Felt,
        update: RootIndexUpdate,
    )
        ensures
            *final(self) == (Transaction {
                contract_roots: final(self).contract_roots,
                ..*old(self)
            }),
            contract_table(final(self).contract_roots@, contract) == (match recorded(update) {
                None => contract_table(old(self).contract_roots@, contract),
                Some(index) => with_root(
                    contract_table(old(self).contract_roots@, contract),
                    block_number,
                    index,
                    old(self).trie_prune_mode,
                ),
            }),
            forall|other: Felt|
                other != contract ==> #[trigger] contract_table(
                    final(self).contract_roots@,
                    other,
                ) == contract_table(old(self).contract_roots@, other),
    {
        let index: Option<i64> = match update {
            RootIndexUpdate::Unchanged => {
                return ;
            },
            RootIndexUpdate::Updated(i) => Some(i.to_i64()),
            RootIndexUpdate::TrieEmpty => None,
        };
        let mut table: BlockTable<Option<i64>> = match self.contract_roots.remove(contract) {
            Some(table) => table,
            None => BlockTable::new(),
        };
        table.insert_or_replace(block_number, index);
        if let Some(before) = self.trie_prune_mode.before(block_number) {
            table.delete_history(before);
        }
        self.contract_roots.insert(contract, table);
    }

    /// The value stored for a trie node, which holds a hash at least.
    fn read_trie_entry(&self, index: TrieStorageIndex, t: TrieColumn) -> (r: Result<
        Option<&Vec<u8>>,
        TransactionError,
    >)
        ensures
            match trie_entry(self.store@, t, index@) {
                None => r matches Ok(None),
                Some(v) => if v.len() < 32 {
                    r matches Err(TransactionError::ShortEntry { index: i, column: c, len: n }) && i
                        == index@ && c == trie_column(t) && n == v.len()
                } else {
                    r matches Ok(Some(bytes)) && bytes@ == v
                },
            },
    {
        let key = u64_to_be_bytes(index.get());
        match self.store.column(t.column()).get(key.as_slice()) {
            None => Ok(None),
            Some(bytes) => {
                if bytes.len() < 32 {
                    return Err(
                        TransactionError::ShortEntry {
                            index: index.get(),
                            column: t.column(),
                            len: bytes.len(),
                        },
                    );
                }
                Ok(Some(bytes))
            },
        }
    }

    /// The node with the given index.
    pub fn trie_node(&self, index: TrieStorageIndex, t: TrieColumn) -> (r: Result<
        Option<StoredNode>,
        TransactionError,
    >)
        ensures
            node_read(self.store@, t, index@, r),
    {
        match self.read_trie_entry(index, t) {
            Err(e) => Err(e),
            Ok(None) => Ok(None),
            Ok(Some(bytes)) => match StoredNode::decode(
                slice_subrange(bytes.as_slice(), 32, bytes.len()),
            ) {
                Ok(node) => Ok(Some(node)),
                Err(e) => Err(TransactionError::DecodingNode(e)),
            },
        }
    }

    /// The hash of the node with the given index.
    pub fn trie_node_hash(&self, index: TrieStorageIndex, t: TrieColumn) -> (r: Result<
        Option<Felt>,
        TransactionError,
    >)
        ensures
            hash_read(self.store@, t, index@, r),
    {
        match self.read_trie_entry(index, t) {
            Err(e) => Err(e),
            Ok(None) => Ok(None),
            Ok(Some(bytes)) => {
                proof {
                    let s = bytes@.subrange(0, 32);
                    assert(left_padded(s) =~= s);
                }
                match Felt::from_be_slice(slice_subrange(bytes.as_slice(), 0, 32)) {
                    Ok(hash) => Ok(Some(hash)),
                    Err(_) => Err(TransactionError::DecodingNodeHash),
                }
            },
        }
    }

    pub fn class_trie_node(&self, index: TrieStorageIndex) -> (r: Result<
        Option<StoredNode>,
        TransactionError,
    >)
        ensures
            node_read(self.store@, TrieColumn::Class, index@, r),
    {
        self.trie_node(index, TrieColumn::Class)
    }

    pub fn class_trie_node_hash(&self, index: TrieStorageIndex) -> (r: Result<
        Option<Felt>,
        TransactionError,
    >)
        ensures
            hash_read(self.store@, TrieColumn::Class, index@, r),
    {
        self.trie_node_hash(index, TrieColumn::Class)
    }

    pub fn contract_trie_node(&self, index: TrieStorageIndex) -> (r: Result<
        Option<StoredNode>,
        TransactionError,
    >)
        ensures
            node_read(self.store@, TrieColumn::Contract, index@, r),
    {
        self.trie_node(index, TrieColumn::Contract)
    }

    pub fn contract_trie_node_hash(&self, index: TrieStorageIndex) -> (r: Result<
        Option<Felt>,
        TransactionError,
    >)
        ensures
            hash_read(self.store@, TrieColumn::Contract, index@, r),
    {
        self.trie_node_hash(index, TrieColumn::Contract)
    }

    pub fn storage_trie_node(&self, index: TrieStorageIndex) -> (r: Result<
        Option<StoredNode>,
        TransactionError,
    >)
        ensures
            node_read(self.store@, TrieColumn::Storage, index@, r),
    {
        self.trie_node(index, TrieColumn::Storage)
    }

    pub fn storage_trie_node_hash(&self, index: TrieStorageIndex) -> (r: Result<
        Option<Felt>,
        TransactionError,
    >)
        ensures
            hash_read(self.store@, TrieColumn::Storage, index@, r),
    {
        self.trie_node_hash(index, TrieColumn::Storage)
    }
}

} // verus!
