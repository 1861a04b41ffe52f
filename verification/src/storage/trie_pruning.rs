//! Storing trie updates in a transaction, and pruning the nodes that they make obsolete.
use vstd::prelude::*;

use crate::bytes::{be_u64, copy_bytes, u64_to_be_bytes};
use crate::felt::Felt;
use crate::storage::codec::{CodecError, Flaw, TrieStorageIndex, MAX_STORAGE_INDEX};
use crate::storage::markers::{
    decode_marker, encode_marker, index_values, marker_encoding, parse_marker,
};
use crate::storage::reconcile::NextIndices;
use crate::storage::store::{Batch, Op};
use crate::storage::transaction::{
    prune_before, removal_views, RemovalRow, Transaction, TransactionError, TriePruneMode,
};
use crate::storage::trie::{
    all_encode, assigned, full_walk, store_nodes, stored_ops, trie_column, walk_ends,
    RootIndexUpdate, TrieColumn, TrieError, TrieUpdate, Walk,
};

verus! {

/// The deletes of the nodes with the given indices.
pub open spec fn node_deletes(indices: Seq<u64>, t: TrieColumn) -> Seq<Op> {
    Seq::new(indices.len(), |i: int| Op::Delete(trie_column(t), be_u64(indices[i])))
}

/// The deletes of the nodes that were removed before a block, in the order of the rows.
pub open spec fn prune_ops(rows: Seq<(u64, Seq<u8>)>, before: u64, t: TrieColumn) -> Result<
    Seq<Op>,
    Flaw,
>
    decreases rows.len(),
{
    if rows.len() == 0 {
        Ok(Seq::empty())
    } else {
        match prune_ops(rows.drop_last(), before, t) {
            Err(e) => Err(e),
            Ok(ops) => if rows.last().0 < before {
                match parse_marker(rows.last().1) {
                    Err(e) => Err(e),
                    Ok(indices) => Ok(ops + node_deletes(indices, t)),
                }
            } else {
                Ok(ops)
            },
        }
    }
}

/// The deletes that are made for the nodes that were removed before a block: those of the rows up to
/// the first one that cannot be read.
pub open spec fn prune_made(rows: Seq<(u64, Seq<u8>)>, before: u64, t: TrieColumn) -> Seq<Op>
    decreases rows.len(),
{
    if rows.len() == 0 {
        Seq::empty()
    } else {
        match prune_ops(rows.drop_last(), before, t) {
            Err(_) => prune_made(rows.drop_last(), before, t),
            Ok(ops) => match prune_ops(rows, before, t) {
                Err(_) => ops,
                Ok(all) => all,
            },
        }
    }
}

/// The rows of removals at a block or after it.
pub open spec fn rows_from(rows: Seq<(u64, Seq<u8>)>, before: u64) -> Seq<(u64, Seq<u8>)>
    decreases rows.len(),
{
    if rows.len() == 0 {
        Seq::empty()
    } else if rows.last().0 >= before {
        rows_from(rows.drop_last(), before).push(rows.last())
    } else {
        rows_from(rows.drop_last(), before)
    }
}

/// Rows with those after a block moved to it.
pub open spec fn coalesced(rows: Seq<(u64, Seq<u8>)>, target: u64) -> Seq<(u64, Seq<u8>)> {
    rows.map_values(
        |r: (u64, Seq<u8>)|
            (
                if r.0 > target {
                    target
                } else {
                    r.0
                },
                r.1,
            ),
    )
}

/// Rows with a new one for the nodes removed at a block, if there are any.
pub open spec fn with_removed(rows: Seq<(u64, Seq<u8>)>, removed: Seq<u64>, block: u64) -> Seq<
    (u64, Seq<u8>),
> {
    if removed.len() == 0 {
        rows
    } else {
        rows.push((block, marker_encoding(removed)))
    }
}

/// An error at the front of the rows is an error of all of them.
pub proof fn lemma_prune_prefix(rows: Seq<(u64, Seq<u8>)>, before: u64, t: TrieColumn, n: int)
    requires
        0 <= n <= rows.len(),
        prune_ops(rows.subrange(0, n), before, t) is Err,
    ensures
        prune_ops(rows, before, t) == prune_ops(rows.subrange(0, n), before, t),
        prune_made(rows, before, t) == prune_made(rows.subrange(0, n), before, t),
    decreases rows.len() - n,
{
    if n == rows.len() {
        assert(rows.subrange(0, n) =~= rows);
    } else {
        assert(rows.subrange(0, n + 1).drop_last() =~= rows.subrange(0, n));
        lemma_prune_prefix(rows, before, t, n + 1);
    }
}

fn delete_nodes(indices: &Vec<TrieStorageIndex>, t: TrieColumn, batch: &mut Batch)
    ensures
        final(batch)@ == old(batch)@ + node_deletes(index_values(indices@), t),
{
    let mut i: usize = 0;
    assert(batch@ =~= old(batch)@ + node_deletes(index_values(indices@).subrange(0, 0), t));
    while i < indices.len()
        invariant
            i <= indices@.len(),
            batch@ == old(batch)@ + node_deletes(
                index_values(indices@).subrange(0, i as int),
                t,
            ),
        decreases indices@.len() - i,
    {
        batch.delete(t.column(), u64_to_be_bytes(indices[i].get()));
        i = i + 1;
        assert(batch@ =~= old(batch)@ + node_deletes(
            index_values(indices@).subrange(0, i as int),
            t,
        ));
    }
    assert(index_values(indices@).subrange(0, i as int) =~= index_values(indices@));
}

/// Stages the deletes of the nodes that were removed before a block. Those of the rows in front of
/// one that cannot be read stay staged.
pub fn removed_nodes(rows: &Vec<RemovalRow>, before: u64, t: TrieColumn, batch: &mut Batch) -> (r:
    Result<(), CodecError>)
    ensures
        final(batch)@ == old(batch)@ + prune_made(removal_views(rows@), before, t),
        match prune_ops(removal_views(rows@), before, t) {
            Ok(ops) => r is Ok && final(batch)@ == old(batch)@ + ops,
            Err(f) => r matches Err(e) && e@ == f,
        },
{
    let mut i: usize = 0;
    let ghost views = removal_views(rows@);
    assert(batch@ =~= old(batch)@ + Seq::<Op>::empty());
    while i < rows.len()
        invariant
            i <= rows@.len(),
            views == removal_views(rows@),
            prune_ops(views.subrange(0, i as int), before, t) is Ok,
            prune_made(views.subrange(0, i as int), before, t) == prune_ops(
                views.subrange(0, i as int),
                before,
                t,
            )->Ok_0,
            batch@ == old(batch)@ + prune_made(views.subrange(0, i as int), before, t),
        decreases rows@.len() - i,
    {
        let ghost front = prune_ops(views.subrange(0, i as int), before, t)->Ok_0;
        proof {
            let done = views.subrange(0, i + 1);
            assert(done.drop_last() =~= views.subrange(0, i as int));
            assert(done.last() == views[i as int]);
        }
        if rows[i].block < before {
            match decode_marker(rows[i].indices.as_slice()) {
                Err(e) => {
                    proof {
                        lemma_prune_prefix(views, before, t, i + 1);
                    }
                    return Err(e);
                },
                Ok(indices) => {
                    delete_nodes(&indices, t, batch);
                    assert(batch@ =~= old(batch)@ + (front + node_deletes(
                        index_values(indices@),
                        t,
                    )));
                },
            }
        }
        i = i + 1;
    }
    assert(views.subrange(0, i as int) =~= views);
    Ok(())
}

/// Keeps the rows of removals at a block or after it.
fn keep_from(rows: Vec<RemovalRow>, before: u64) -> (r: Vec<RemovalRow>)
    ensures
        removal_views(r@) == rows_from(removal_views(rows@), before),
{
    let mut kept: Vec<RemovalRow> = Vec::new();
    let mut i: usize = 0;
    let ghost views = removal_views(rows@);
    assert(removal_views(kept@) =~= rows_from(views.subrange(0, 0), before));
    while i < rows.len()
        invariant
            i <= rows@.len(),
            views == removal_views(rows@),
            removal_views(kept@) == rows_from(views.subrange(0, i as int), before),
        decreases rows@.len() - i,
    {
        let ghost done = views.subrange(0, i + 1);
        proof {
            assert(done.drop_last() =~= views.subrange(0, i as int));
            assert(done.last() == views[i as int]);
        }
        if rows[i].block >= before {
            let ghost before_push = removal_views(kept@);
            kept.push(
                RemovalRow {
                    block: rows[i].block,
                    indices: copy_bytes(rows[i].indices.as_slice()),
                },
            );
            assert(removal_views(kept@) =~= before_push.push(views[i as int]));
        }
        i = i + 1;
    }
    assert(views.subrange(0, i as int) =~= views);
    kept
}

/// The removal rows of a trie.
pub open spec fn removals_of(tx: Transaction, t: TrieColumn) -> Seq<(u64, Seq<u8>)> {
    match t {
        TrieColumn::Class => removal_views(tx.class_removals@),
        TrieColumn::Contract => removal_views(tx.contract_removals@),
        TrieColumn::Storage => removal_views(tx.storage_removals@),
    }
}

/// The next free index of a trie.
pub open spec fn counter_of(next: NextIndices, t: TrieColumn) -> u64 {
    match t {
        TrieColumn::Class => next.class,
        TrieColumn::Contract => next.contract,
        TrieColumn::Storage => next.storage,
    }
}

/// Nothing but what belongs to a trie, and the staged writes, is changed.
pub open spec fn only_trie_changed(old: Transaction, new: Transaction, t: TrieColumn) -> bool {
    &&& new.store == old.store
    &&& new.class_roots == old.class_roots
    &&& new.storage_roots == old.storage_roots
    &&& new.contract_roots == old.contract_roots
    &&& new.latest_block == old.latest_block
    &&& new.trie_prune_mode == old.trie_prune_mode
    &&& new.blocks == old.blocks
    &&& forall|u: TrieColumn|
        u != t ==> #[trigger] removals_of(new, u) == removals_of(old, u) && counter_of(new.next, u)
            == counter_of(old.next, u)
}

/// What the pruning of a trie before a block, if there is one, leaves of its removal rows, and what
/// it adds to the staged writes.
pub open spec fn pruned_rows(rows: Seq<(u64, Seq<u8>)>, before: Option<u64>) -> Seq<
    (u64, Seq<u8>),
> {
    match before {
        Some(b) => rows_from(rows, b),
        None => rows,
    }
}

pub open spec fn pruned_ops(
    rows: Seq<(u64, Seq<u8>)>,
    before: Option<u64>,
    t: TrieColumn,
) -> Result<Seq<Op>, Flaw> {
    match before {
        Some(b) => prune_ops(rows, b, t),
        None => Ok(Seq::empty()),
    }
}

/// The deletes that the pruning of a trie makes, also where it fails.
pub open spec fn pruned_made(
    rows: Seq<(u64, Seq<u8>)>,
    before: Option<u64>,
    t: TrieColumn,
) -> Seq<Op> {
    match before {
        Some(b) => prune_made(rows, b, t),
        None => Seq::empty(),
    }
}

impl Transaction {
    fn take_removals(&mut self, t: TrieColumn) -> (r: Vec<RemovalRow>)
        ensures
            removal_views(r@) == removals_of(*old(self), t),
            only_trie_changed(*old(self), *final(self), t),
            final(self).batch == old(self).batch,
            final(self).next == old(self).next,
    {
        let mut rows: Vec<RemovalRow> = Vec::new();
        match t {
            TrieColumn::Class => {
                std::mem::swap(&mut rows, &mut self.class_removals);
            },
            TrieColumn::Contract => {
                std::mem::swap(&mut rows, &mut self.contract_removals);
            },
            TrieColumn::Storage => {
                std::mem::swap(&mut rows, &mut self.storage_removals);
            },
        }
        rows
    }

    fn put_removals(&mut self, t: TrieColumn, rows: Vec<RemovalRow>)
        ensures
            removals_of(*final(self), t) == removal_views(rows@),
            only_trie_changed(*old(self), *final(self), t),
            final(self).batch == old(self).batch,
            final(self).next == old(self).next,
    {
        match t {
            TrieColumn::Class => {
                self.class_removals = rows;
            },
            TrieColumn::Contract => {
                self.contract_removals = rows;
            },
            TrieColumn::Storage => {
                self.storage_removals = rows;
            },
        }
    }

    fn removals(&self, t: TrieColumn) -> (r: &Vec<RemovalRow>)
        ensures
            removal_views(r@) == removals_of(*self, t),
    {
        match t {
            TrieColumn::Class => &self.class_removals,
            TrieColumn::Contract => &self.contract_removals,
            TrieColumn::Storage => &self.storage_removals,
        }
    }

    /// Stages the deletes of the nodes that are not needed any more once `block_number` is stored,
    /// and drops their markers. Where a marker cannot be read, the deletes of those in front of it
    /// stay staged, and no marker is dropped.
    pub fn prune_trie(&mut self, block_number: u64, num_blocks_kept: u64, t: TrieColumn) -> (r:
        Result<(), TransactionError>)
        ensures
            only_trie_changed(*old(self), *final(self), t),
            final(self).next == old(self).next,
            match pruned_ops(
                removals_of(*old(self), t),
                prune_before(TriePruneMode::Prune { num_blocks_kept }, block_number),
                t,
            ) {
                Err(f) => (r matches Err(TransactionError::DecodingRemovalMarker(e)) && e@ == f)
                    && *final(self) == (Transaction { batch: final(self).batch, ..*old(self) })
                    && final(self).batch@ == old(self).batch@ + pruned_made(
                    removals_of(*old(self), t),
                    prune_before(TriePruneMode::Prune { num_blocks_kept }, block_number),
                    t,
                ),
                Ok(ops) => r is Ok && final(self).batch@ == old(self).batch@ + ops && removals_of(
                    *final(self),
                    t,
                ) == pruned_rows(
                    removals_of(*old(self), t),
                    prune_before(TriePruneMode::Prune { num_blocks_kept }, block_number),
                ),
            },
    {
        match block_number.checked_sub(num_blocks_kept) {
            None => {
                assert(old(self).batch@ + Seq::<Op>::empty() =~= old(self).batch@);
                Ok(())
            },
            Some(before) => {
                let mut deletes = Batch::new();
                let read = removed_nodes(self.removals(t), before, t, &mut deletes);
                self.batch.append(&mut deletes);
                match read {
                    Err(e) => {
                        assert(self.batch@ =~= old(self).batch@ + prune_made(
                            removals_of(*old(self), t),
                            before,
                            t,
                        ));
                        return Err(TransactionError::DecodingRemovalMarker(e));
                    },
                    Ok(()) => {},
                }
                let rows = self.take_removals(t);
                let kept = keep_from(rows, before);
                self.put_removals(t, kept);
                Ok(())
            },
        }
    }

    /// Marks nodes as removed at a block.
    pub fn remove_trie(
        &mut self,
        removed: &Vec<TrieStorageIndex>,
        block_number: u64,
        t: TrieColumn,
    )
        ensures
            only_trie_changed(*old(self), *final(self), t),
            final(self).batch == old(self).batch,
            final(self).next == old(self).next,
            removals_of(*final(self), t) == with_removed(
                removals_of(*old(self), t),
                index_values(removed@),
                block_number,
            ),
    {
        if removed.len() > 0 {
            let marker = encode_marker(removed);
            let mut rows = self.take_removals(t);
            let ghost before = removal_views(rows@);
            rows.push(RemovalRow { block: block_number, indices: marker });
            assert(removal_views(rows@) =~= before.push(
                (block_number, marker_encoding(index_values(removed@))),
            ));
            self.put_removals(t, rows);
        }
    }

    /// Moves the removals after a block to that block, in one trie.
    pub fn coalesce_removed_trie_nodes(&mut self, target_block: u64, t: TrieColumn)
        ensures
            only_trie_changed(*old(self), *final(self), t),
            final(self).batch == old(self).batch,
            final(self).next == old(self).next,
            removals_of(*final(self), t) == coalesced(removals_of(*old(self), t), target_block),
    {
        let rows = self.take_removals(t);
        let ghost views = removal_views(rows@);
        let mut moved: Vec<RemovalRow> = Vec::new();
        let mut i: usize = 0;
        assert(removal_views(moved@) =~= coalesced(views, target_block).subrange(0, 0));
        while i < rows.len()
            invariant
                i <= rows@.len(),
                views == removal_views(rows@),
                removal_views(moved@) == coalesced(views, target_block).subrange(0, i as int),
            decreases rows@.len() - i,
        {
            let block: u64 = if rows[i].block > target_block {
                target_block
            } else {
                rows[i].block
            };
            let ghost before_push = removal_views(moved@);
            moved.push(RemovalRow { block, indices: copy_bytes(rows[i].indices.as_slice()) });
            assert(removal_views(moved@) =~= before_push.push(
                coalesced(views, target_block)[i as int],
            ));
            i = i + 1;
            assert(removal_views(moved@) =~= coalesced(views, target_block).subrange(0, i as int));
        }
        assert(coalesced(views, target_block).subrange(0, i as int) =~= coalesced(
            views,
            target_block,
        ));
        self.put_removals(t, moved);
    }

    /// Moves the removals after a block to that block. Used when the blocks after it are dropped.
    pub fn coalesce_trie_removals(&mut self, target_block: u64)
        ensures
            forall|t: TrieColumn| #[trigger]
                removals_of(*final(self), t) == coalesced(removals_of(*old(self), t), target_block),
            *final(self) == (Transaction {
                class_removals: final(self).class_removals,
                contract_removals: final(self).contract_removals,
                storage_removals: final(self).storage_removals,
                ..*old(self)
            }),
    {
        self.coalesce_removed_trie_nodes(target_block, TrieColumn::Contract);
        self.coalesce_removed_trie_nodes(target_block, TrieColumn::Storage);
        self.coalesce_removed_trie_nodes(target_block, TrieColumn::Class);
        proof {
            assert(removals_of(*old(self), TrieColumn::Class) == removals_of(
                *old(self),
                TrieColumn::Class,
            ));
            assert forall|t: TrieColumn| #[trigger]
                removals_of(*self, t) == coalesced(removals_of(*old(self), t), target_block) by {
                match t {
                    TrieColumn::Class => {},
                    TrieColumn::Contract => {},
                    TrieColumn::Storage => {},
                }
            }
        }
    }
}

/// The next free indices with that of one trie set.
pub open spec fn with_counter(next: NextIndices, t: TrieColumn, value: u64) -> NextIndices {
    match t {
        TrieColumn::Class => NextIndices { class: value, ..next },
        TrieColumn::Contract => NextIndices { contract: value, ..next },
        TrieColumn::Storage => NextIndices { storage: value, ..next },
    }
}

impl NextIndices {
    pub fn get(&self, t: TrieColumn) -> (r: u64)
        ensures
            r == counter_of(*self, t),
    {
        match t {
            TrieColumn::Class => self.class,
            TrieColumn::Contract => self.contract,
            TrieColumn::Storage => self.storage,
        }
    }

    pub fn set(&mut self, t: TrieColumn, value: u64)
        ensures
            *final(self) == with_counter(*old(self), t, value),
    {
        match t {
            TrieColumn::Class => {
                self.class = value;
            },
            TrieColumn::Contract => {
                self.contract = value;
            },
            TrieColumn::Storage => {
                self.storage = value;
            },
        }
    }
}

/// What an update without new nodes does to the root.
pub open spec fn root_without_nodes(update: TrieUpdate) -> RootIndexUpdate {
    if update.nodes_removed@.len() > 0 && update.root_commitment == Felt::zero() {
        RootIndexUpdate::TrieEmpty
    } else {
        RootIndexUpdate::Unchanged
    }
}

/// Whether the new nodes of an update can be stored, met in the order given.
pub open spec fn storable(update: TrieUpdate, order: Seq<usize>, base: int) -> bool {
    base + order.len() <= MAX_STORAGE_INDEX && all_encode(update.nodes_added@, order, base)
}

/// The writes that are made to store the new nodes of an update, also where that fails.
pub open spec fn staged_ops(update: TrieUpdate, t: TrieColumn, next: NextIndices) -> Seq<Op> {
    let base = counter_of(next, t) as int;
    if update.nodes_added@.len() == 0 {
        Seq::empty()
    } else {
        match full_walk(update.nodes_added@) {
            Walk::Order(order) => stored_ops(update.nodes_added@, order, base, t),
            _ => Seq::empty(),
        }
    }
}

/// The next free indices after the new nodes of an update were stored.
pub open spec fn next_after(update: TrieUpdate, t: TrieColumn, next: NextIndices) -> NextIndices {
    if update.nodes_added@.len() == 0 {
        next
    } else {
        match full_walk(update.nodes_added@) {
            Walk::Order(order) => with_counter(
                next,
                t,
                ((counter_of(next, t) + order.len()) % 0x1_0000_0000_0000_0000) as u64,
            ),
            _ => next,
        }
    }
}

/// What storing the new nodes of an update gives.
pub open spec fn nodes_stored(
    update: TrieUpdate,
    t: TrieColumn,
    next: NextIndices,
    r: Result<RootIndexUpdate, TransactionError>,
) -> bool {
    let nodes = update.nodes_added@;
    let base = counter_of(next, t) as int;
    if nodes.len() == 0 {
        r matches Ok(u) && u == root_without_nodes(update)
    } else {
        match full_walk(nodes) {
            Walk::Missing => r matches Err(TransactionError::Trie(e)) && e
                == TrieError::NodeIndexMissing,
            Walk::Order(order) => if storable(update, order, base) {
                r matches Ok(RootIndexUpdate::Updated(i)) && i@ == assigned(
                    order,
                    base,
                )[(nodes.len() - 1) as usize]
            } else if base + order.len() - 1 <= MAX_STORAGE_INDEX && !all_encode(
                nodes,
                order,
                base,
            ) {
                r matches Err(TransactionError::Trie(e)) && e == TrieError::EncodingNode
            } else {
                r matches Err(TransactionError::Trie(e)) && e == TrieError::IndexOverflow
            },
            Walk::Unfinished => false,
        }
    }
}

/// The removal rows after an update was stored.
pub open spec fn rows_after(tx: Transaction, update: TrieUpdate, block: u64, t: TrieColumn) -> Seq<
    (u64, Seq<u8>),
> {
    match tx.trie_prune_mode {
        TriePruneMode::Archive => removals_of(tx, t),
        TriePruneMode::Prune { .. } => with_removed(
            pruned_rows(removals_of(tx, t), prune_before(tx.trie_prune_mode, block)),
            index_values(update.nodes_removed@),
            block,
        ),
    }
}

impl Transaction {
    /// Stores the new nodes of a trie update and tells what becomes of the root. Where history is
    /// pruned, nodes that are not needed any more are deleted first, and the removed ones marked.
    pub fn insert_trie(&mut self, update: &TrieUpdate, block_number: u64, t: TrieColumn) -> (r:
        Result<RootIndexUpdate, TransactionError>)
        requires
            walk_ends(update.nodes_added@),
            update.nodes_added@.len() > 0 ==> counter_of(old(self).next, t) <= MAX_STORAGE_INDEX,
        ensures
            trie_inserted(*old(self), *final(self), *update, block_number, t, r),
    {
        let ghost mut ops: Seq<Op> = Seq::empty();
        if let TriePruneMode::Prune { num_blocks_kept } = self.trie_prune_mode {
            match self.prune_trie(block_number, num_blocks_kept, t) {
                Ok(_) => {},
                Err(e) => {
                    return Err(e);
                },
            }
            proof {
                ops = pruned_ops(
                    removals_of(*old(self), t),
                    prune_before(old(self).trie_prune_mode, block_number),
                    t,
                )->Ok_0;
            }
            self.remove_trie(&update.nodes_removed, block_number, t);
        }
        let ghost pruned = old(self).batch@ + ops;
        assert(self.batch@ =~= pruned);
        if update.nodes_added.len() == 0 {
            let empty: bool = update.nodes_removed.len() > 0 && update.root_commitment.is_zero();
            assert(self.batch@ =~= pruned + Seq::<Op>::empty());
            if empty {
                return Ok(RootIndexUpdate::TrieEmpty);
            } else {
                return Ok(RootIndexUpdate::Unchanged);
            }
        }
        let mut counter: u64 = self.next.get(t);
        let mut batch = Batch::new();
        let stored = store_nodes(&update.nodes_added, t, &mut counter, &mut batch);
        let ghost staged = batch@;
        let ghost before = *self;
        self.batch.append(&mut batch);
        let ghost mid = *self;
        self.next.set(t, counter);
        proof {
            assert forall|u: TrieColumn| u != t implies #[trigger] removals_of(*self, u)
                == removals_of(*old(self), u) && counter_of(self.next, u) == counter_of(
                old(self).next,
                u,
            ) by {
                assert(removals_of(before, u) == removals_of(*old(self), u));
                assert(removals_of(mid, u) == removals_of(before, u));
            }
        }
        assert(self.next == next_after(*update, t, old(self).next));
        assert(only_trie_changed(*old(self), *self, t));
        proof {
            assert(staged =~= staged_ops(*update, t, old(self).next));
            assert(self.batch@ =~= pruned + staged);
        }
        match stored {
            Err(e) => {
                assert(nodes_stored(
                    *update,
                    t,
                    old(self).next,
                    Err::<RootIndexUpdate, TransactionError>(TransactionError::Trie(e)),
                ));
                Err(TransactionError::Trie(e))
            },
            Ok(root) => Ok(RootIndexUpdate::Updated(root)),
        }
    }

    pub fn insert_contract_trie(&mut self, update: &TrieUpdate, block_number: u64) -> (r: Result<
        RootIndexUpdate,
        TransactionError,
    >)
        requires
            walk_ends(update.nodes_added@),
            update.nodes_added@.len() > 0 ==> old(self).next.contract <= MAX_STORAGE_INDEX,
        ensures
            trie_inserted(
                *old(self),
                *final(self),
                *update,
                block_number,
                TrieColumn::Contract,
                r,
            ),
    {
        self.insert_trie(update, block_number, TrieColumn::Contract)
    }

    pub fn insert_class_trie(&mut self, update: &TrieUpdate, block_number: u64) -> (r: Result<
        RootIndexUpdate,
        TransactionError,
    >)
        requires
            walk_ends(update.nodes_added@),
            update.nodes_added@.len() > 0 ==> old(self).next.class <= MAX_STORAGE_INDEX,
        ensures
            trie_inserted(*old(self), *final(self), *update, block_number, TrieColumn::Class, r),
    {
        self.insert_trie(update, block_number, TrieColumn::Class)
    }

    pub fn insert_storage_trie(&mut self, update: &TrieUpdate, block_number: u64) -> (r: Result<
        RootIndexUpdate,
        TransactionError,
    >)
        requires
            walk_ends(update.nodes_added@),
            update.nodes_added@.len() > 0 ==> old(self).next.storage <= MAX_STORAGE_INDEX,
        ensures
            trie_inserted(*old(self), *final(self), *update, block_number, TrieColumn::Storage, r),
    {
        self.insert_trie(update, block_number, TrieColumn::Storage)
    }

    /// Deletes the trie nodes that are no longer needed at the latest block.
    pub fn prune_tries(&mut self) -> (r: Result<(), TransactionError>)
        ensures
            match (old(self).latest_block, old(self).trie_prune_mode) {
                (Some(block), TriePruneMode::Prune { .. }) => tries_pruned(
                    *old(self),
                    *final(self),
                    prune_before(old(self).trie_prune_mode, block),
                    r,
                ),
                _ => r is Ok && *final(self) == *old(self),
            },
            *final(self) == (Transaction {
                batch: final(self).batch,
                class_removals: final(self).class_removals,
                contract_removals: final(self).contract_removals,
                storage_removals: final(self).storage_removals,
                ..*old(self)
            }),
    {
        let block_number: u64 = match self.latest_block {
            Some(b) => b,
            None => {
                return Ok(());
            },
        };
        let num_blocks_kept: u64 = match self.trie_prune_mode {
            TriePruneMode::Prune { num_blocks_kept } => num_blocks_kept,
            TriePruneMode::Archive => {
                return Ok(());
            },
        };
        let ghost before = prune_before(self.trie_prune_mode, block_number);
        let ghost start = *self;
        match self.prune_trie(block_number, num_blocks_kept, TrieColumn::Contract) {
            Ok(_) => {},
            Err(e) => {
                return Err(e);
            },
        }
        assert(removals_of(*self, TrieColumn::Class) == removals_of(start, TrieColumn::Class));
        assert(removals_of(*self, TrieColumn::Storage) == removals_of(start, TrieColumn::Storage));
        match self.prune_trie(block_number, num_blocks_kept, TrieColumn::Class) {
            Ok(_) => {},
            Err(e) => {
                return Err(e);
            },
        }
        assert(removals_of(*self, TrieColumn::Contract) == pruned_rows(
            removals_of(start, TrieColumn::Contract),
            before,
        ));
        assert(removals_of(*self, TrieColumn::Storage) == removals_of(start, TrieColumn::Storage));
        match self.prune_trie(block_number, num_blocks_kept, TrieColumn::Storage) {
            Ok(_) => {},
            Err(e) => {
                return Err(e);
            },
        }
        assert(removals_of(*self, TrieColumn::Contract) == pruned_rows(
            removals_of(start, TrieColumn::Contract),
            before,
        ));
        assert(removals_of(*self, TrieColumn::Class) == pruned_rows(
            removals_of(start, TrieColumn::Class),
            before,
        ));
        Ok(())
    }
}

/// The outcome of storing a trie update.
pub open spec fn trie_inserted(
    old: Transaction,
    new: Transaction,
    update: TrieUpdate,
    block: u64,
    t: TrieColumn,
    r: Result<RootIndexUpdate, TransactionError>,
) -> bool {
    &&& only_trie_changed(old, new, t)
    &&& match pruned_ops(removals_of(old, t), prune_before(old.trie_prune_mode, block), t) {
        Err(f) => (r matches Err(TransactionError::DecodingRemovalMarker(e)) && e@ == f) && new
            == (Transaction { batch: new.batch, ..old }) && new.batch@ == old.batch@ + pruned_made(
            removals_of(old, t),
            prune_before(old.trie_prune_mode, block),
            t,
        ),
        Ok(ops) => {
            &&& removals_of(new, t) == rows_after(old, update, block, t)
            &&& new.batch@ == old.batch@ + ops + staged_ops(update, t, old.next)
            &&& new.next == next_after(update, t, old.next)
            &&& nodes_stored(update, t, old.next, r)
        },
    }
}

/// The outcome of pruning all tries before a block: the contract trie, the class trie and the
/// storage trie, in this order, up to the first that cannot be pruned.
pub open spec fn tries_pruned(
    old: Transaction,
    new: Transaction,
    before: Option<u64>,
    r: Result<(), TransactionError>,
) -> bool {
    let contract = pruned_ops(removals_of(old, TrieColumn::Contract), before, TrieColumn::Contract);
    let class = pruned_ops(removals_of(old, TrieColumn::Class), before, TrieColumn::Class);
    let storage = pruned_ops(removals_of(old, TrieColumn::Storage), before, TrieColumn::Storage);
    match contract {
        Err(f) => (r matches Err(TransactionError::DecodingRemovalMarker(e)) && e@ == f) && new
            == (Transaction { batch: new.batch, ..old }) && new.batch@ == old.batch@ + pruned_made(
            removals_of(old, TrieColumn::Contract),
            before,
            TrieColumn::Contract,
        ),
        Ok(a) => {
            &&& removals_of(new, TrieColumn::Contract) == pruned_rows(
                removals_of(old, TrieColumn::Contract),
                before,
            )
            &&& match class {
                Err(f) => (r matches Err(TransactionError::DecodingRemovalMarker(e)) && e@ == f)
                    && new.batch@ == old.batch@ + a + pruned_made(
                    removals_of(old, TrieColumn::Class),
                    before,
                    TrieColumn::Class,
                ) && removals_of(new, TrieColumn::Class)
                    == removals_of(old, TrieColumn::Class) && removals_of(new, TrieColumn::Storage)
                    == removals_of(old, TrieColumn::Storage),
                Ok(b) => {
                    &&& removals_of(new, TrieColumn::Class) == pruned_rows(
                        removals_of(old, TrieColumn::Class),
                        before,
                    )
                    &&& match storage {
                        Err(f) => (r matches Err(TransactionError::DecodingRemovalMarker(e)) && e@
                            == f) && new.batch@ == old.batch@ + a + b + pruned_made(
                            removals_of(old, TrieColumn::Storage),
                            before,
                            TrieColumn::Storage,
                        ) && removals_of(
                            new,
                            TrieColumn::Storage,
                        ) == removals_of(old, TrieColumn::Storage),
                        Ok(c) => r is Ok && new.batch@ == old.batch@ + a + b + c && removals_of(
                            new,
                            TrieColumn::Storage,
                        ) == pruned_rows(removals_of(old, TrieColumn::Storage), before),
                    }
                },
            }
        },
    }
}

} // verus!
