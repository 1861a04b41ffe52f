//! Pruning of the blockchain history: one block at a time is dropped from the front, with what later
//! blocks have made obsolete.
use vstd::prelude::*;

use crate::bytes::{
    be_u32, has_prefix, lemma_be_u32_order, lemma_lex_prefix, push_bytes, u32_to_be_bytes,
};
use crate::felt::Felt;
use crate::felt_map::FeltMap;
use crate::state_update::{ContractUpdate, StateUpdateData, SystemContractUpdate};
use crate::storage::columns::{Column, ColumnMap};
use crate::storage::keys::{storage_prefix, storage_prefix_of};
use crate::storage::runs::{delete_run, deletes_exactly, in_run, run_deleted};
use crate::storage::store::{Batch, Contents, Op, Store};

verus! {

/// How much of the blockchain's history is kept.
#[derive(Clone, Copy, Debug, PartialEq, Eq, Structural)]
pub enum BlockchainHistoryMode {
    /// Keep the entire blockchain history.
    Archive,
    /// Only keep the last `num_blocks_kept` blocks as well as the latest block.
    Prune { num_blocks_kept: u64 },
}

/// Writes that delete exactly what satisfies `gone`, and do nothing else.
pub open spec fn deletes(ops: Seq<Op>, gone: spec_fn(Column, Seq<u8>) -> bool) -> bool {
    &&& forall|i: int|
        0 <= i < ops.len() ==> ((#[trigger] ops[i]) matches Op::Delete(c, k) && gone(c, k))
    &&& forall|c: Column, k: Seq<u8>| gone(c, k) ==> #[trigger] ops.contains(Op::Delete(c, k))
}

proof fn lemma_deletes_concat(
    a: Seq<Op>,
    ga: spec_fn(Column, Seq<u8>) -> bool,
    b: Seq<Op>,
    gb: spec_fn(Column, Seq<u8>) -> bool,
    g: spec_fn(Column, Seq<u8>) -> bool,
)
    requires
        deletes(a, ga),
        deletes(b, gb),
        forall|c: Column, k: Seq<u8>| #[trigger] g(c, k) <==> ga(c, k) || gb(c, k),
    ensures
        deletes(a + b, g),
{
    let all = a + b;
    assert forall|i: int| 0 <= i < all.len() implies ((#[trigger] all[i]) matches Op::Delete(c, k)
        && g(c, k)) by {
        if i < a.len() {
            assert(all[i] == a[i]);
            assert(a[i] matches Op::Delete(c, k) && ga(c, k));
        } else {
            assert(all[i] == b[i - a.len()]);
            assert(b[i - a.len()] matches Op::Delete(c, k) && gb(c, k));
        }
    }
    assert forall|c: Column, k: Seq<u8>| g(c, k) implies #[trigger] all.contains(
        Op::Delete(c, k),
    ) by {
        if ga(c, k) {
            assert(a.contains(Op::Delete(c, k)));
            let i = choose|i: int| 0 <= i < a.len() && a[i] == Op::Delete(c, k);
            assert(all[i] == Op::Delete(c, k));
        } else {
            assert(b.contains(Op::Delete(c, k)));
            let i = choose|i: int| 0 <= i < b.len() && b[i] == Op::Delete(c, k);
            assert(all[a.len() + i] == Op::Delete(c, k));
        }
    }
}

/// The key that the entries before a block start from, under a prefix. Later blocks come first.
pub open spec fn prior_from(p: Seq<u8>, last_kept: u64) -> Seq<u8> {
    p + be_u32(
        if last_kept == 0 {
            0
        } else {
            (u32::MAX - last_kept + 1) as u32
        },
    )
}

/// Whether a key is that of an entry under a prefix for a block before the last one kept.
pub open spec fn prior(m: ColumnMap, p: Seq<u8>, last_kept: u64, k: Seq<u8>) -> bool {
    in_run(m, prior_from(p, last_kept), p, k)
}

/// What is deleted of one run of entries.
pub open spec fn prior_gone(db: Contents, d: Column, p: Seq<u8>, last_kept: u64) -> spec_fn(
    Column,
    Seq<u8>,
) -> bool {
    |c: Column, k: Seq<u8>| c == d && prior(db[d], p, last_kept, k)
}

/// Stages the deletes of the entries under a prefix for blocks before the last one kept.
fn delete_prior_block_entries(
    store: &Store,
    c: Column,
    prefix: &Vec<u8>,
    last_kept_block: u64,
    batch: &mut Batch,
)
    requires
        last_kept_block <= u32::MAX,
    ensures
        exists|ops: Seq<Op>|
            #![trigger old(batch)@ + ops]
            final(batch)@ == old(batch)@ + ops && deletes(
                ops,
                prior_gone(store@, c, prefix@, last_kept_block),
            ),
{
    let last_kept_inverted: u32 = u32::MAX - last_kept_block as u32;
    let mut seek_key: Vec<u8> = Vec::new();
    push_bytes(&mut seek_key, prefix.as_slice());
    let suffix = u32_to_be_bytes(last_kept_inverted.wrapping_add(1));
    push_bytes(&mut seek_key, suffix.as_slice());
    assert(seek_key@ =~= prior_from(prefix@, last_kept_block));
    delete_run(store.column(c), c, seek_key.as_slice(), prefix.as_slice(), false, batch);
    proof {
        let m = store@[c];
        let run = |k: Seq<u8>| run_deleted(m, seek_key@, prefix@, false, k);
        let ops = choose|ops: Seq<Op>|
            #![trigger old(batch)@ + ops]
            batch@ == old(batch)@ + ops && deletes_exactly(ops, c, run);
        let gone = prior_gone(store@, c, prefix@, last_kept_block);
        assert forall|i: int| 0 <= i < ops.len() implies ((#[trigger] ops[i]) matches Op::Delete(
            d,
            k,
        ) && gone(d, k)) by {
            assert(ops[i] matches Op::Delete(d, k) && d == c && run(k));
        }
        assert forall|d: Column, k: Seq<u8>| gone(d, k) implies #[trigger] ops.contains(
            Op::Delete(d, k),
        ) by {
            assert(run(k));
            assert(ops.contains(Op::Delete(c, k)));
        }
        assert(deletes(ops, gone));
        assert(batch@ == old(batch)@ + ops);
    }
}

/// Whether a block's storage changes make an entry of the storage column obsolete.
pub open spec fn storage_gone(
    db: Contents,
    address: Felt,
    items: Seq<(Felt, Felt)>,
    last_kept: u64,
) -> spec_fn(Column, Seq<u8>) -> bool {
    |c: Column, k: Seq<u8>|
        c == Column::StorageUpdates && exists|i: int|
            0 <= i < items.len() && prior(
                db[Column::StorageUpdates],
                storage_prefix_of(address, (#[trigger] items[i]).0),
                last_kept,
                k,
            )
}

fn prune_storage(
    store: &Store,
    address: Felt,
    storage: &FeltMap<Felt>,
    last_kept: u64,
    batch: &mut Batch,
)
    requires
        last_kept <= u32::MAX,
    ensures
        exists|ops: Seq<Op>|
            #![trigger old(batch)@ + ops]
            final(batch)@ == old(batch)@ + ops && deletes(
                ops,
                storage_gone(store@, address, storage.items(), last_kept),
            ),
{
    let n: usize = storage.len();
    let mut i: usize = 0;
    let ghost mut ops: Seq<Op> = Seq::empty();
    let ghost items = storage.items();
    assert(batch@ =~= old(batch)@ + ops);
    assert(deletes(ops, storage_gone(store@, address, items.subrange(0, 0), last_kept)));
    while i < n
        invariant
            i <= n,
            n == items.len(),
            items == storage.items(),
            last_kept <= u32::MAX,
            batch@ == old(batch)@ + ops,
            deletes(ops, storage_gone(store@, address, items.subrange(0, i as int), last_kept)),
        decreases n - i,
    {
        let key: Felt = storage.key_at(i);
        let prefix = storage_prefix(&address, &key);
        let ghost before = batch@;
        delete_prior_block_entries(store, Column::StorageUpdates, &prefix, last_kept, batch);
        proof {
            let gb = prior_gone(store@, Column::StorageUpdates, prefix@, last_kept);
            let more = choose|more: Seq<Op>|
                #![trigger before + more]
                batch@ == before + more && deletes(more, gb);
            let front = items.subrange(0, i as int);
            let done = items.subrange(0, i + 1);
            let ga = storage_gone(store@, address, front, last_kept);
            let g = storage_gone(store@, address, done, last_kept);
            assert forall|c: Column, k: Seq<u8>| #[trigger] g(c, k) <==> ga(c, k) || gb(c, k) by {
                if g(c, k) {
                    let j = choose|j: int|
                        0 <= j < done.len() && prior(
                            store@[Column::StorageUpdates],
                            storage_prefix_of(address, (#[trigger] done[j]).0),
                            last_kept,
                            k,
                        );
                    if j < i {
                        assert(front[j] == done[j]);
                    }
                }
                if ga(c, k) {
                    let j = choose|j: int|
                        0 <= j < front.len() && prior(
                            store@[Column::StorageUpdates],
                            storage_prefix_of(address, (#[trigger] front[j]).0),
                            last_kept,
                            k,
                        );
                    assert(done[j] == front[j]);
                }
                if gb(c, k) {
                    assert(done[i as int].0 == key);
                }
            }
            lemma_deletes_concat(ops, ga, more, gb, g);
            assert(batch@ =~= old(batch)@ + (ops + more));
            ops = ops + more;
        }
        i = i + 1;
    }
    assert(items.subrange(0, i as int) =~= items);
}

/// Whether the change of one contract makes an entry obsolete: those of its nonce where the nonce is
/// changed, and those of each storage slot that is changed.
pub open spec fn contract_gone(
    db: Contents,
    address: Felt,
    update: ContractUpdate,
    last_kept: u64,
    c: Column,
    k: Seq<u8>,
) -> bool {
    ||| update.nonce is Some && prior_gone(db, Column::NonceUpdates, address@, last_kept)(c, k)
    ||| storage_gone(db, address, update.storage.items(), last_kept)(c, k)
}

/// Whether the changes of contracts make an entry obsolete.
pub open spec fn contracts_gone(
    db: Contents,
    items: Seq<(Felt, ContractUpdate)>,
    last_kept: u64,
) -> spec_fn(Column, Seq<u8>) -> bool {
    |c: Column, k: Seq<u8>|
        exists|i: int|
            0 <= i < items.len() && contract_gone(
                db,
                (#[trigger] items[i]).0,
                items[i].1,
                last_kept,
                c,
                k,
            )
}

/// Whether the changes of system contracts make an entry obsolete.
pub open spec fn systems_gone(
    db: Contents,
    items: Seq<(Felt, SystemContractUpdate)>,
    last_kept: u64,
) -> spec_fn(Column, Seq<u8>) -> bool {
    |c: Column, k: Seq<u8>|
        exists|i: int|
            0 <= i < items.len() && storage_gone(
                db,
                (#[trigger] items[i]).0,
                items[i].1.storage.items(),
                last_kept,
            )(c, k)
}

fn prune_contracts(
    store: &Store,
    map: &FeltMap<ContractUpdate>,
    last_kept: u64,
    batch: &mut Batch,
)
    requires
        last_kept <= u32::MAX,
    ensures
        exists|ops: Seq<Op>|
            #![trigger old(batch)@ + ops]
            final(batch)@ == old(batch)@ + ops && deletes(
                ops,
                contracts_gone(store@, map.items(), last_kept),
            ),
{
    let n: usize = map.len();
    let mut i: usize = 0;
    let ghost mut ops: Seq<Op> = Seq::empty();
    let ghost items = map.items();
    assert(batch@ =~= old(batch)@ + ops);
    assert(deletes(ops, contracts_gone(store@, items.subrange(0, 0), last_kept)));
    while i < n
        invariant
            i <= n,
            n == items.len(),
            items == map.items(),
            last_kept <= u32::MAX,
            batch@ == old(batch)@ + ops,
            deletes(ops, contracts_gone(store@, items.subrange(0, i as int), last_kept)),
        decreases n - i,
    {
        let address: Felt = map.key_at(i);
        let update: &ContractUpdate = map.value_at(i);
        let ghost ga = contracts_gone(store@, items.subrange(0, i as int), last_kept);
        let ghost gn = |c: Column, k: Seq<u8>|
            update.nonce is Some && prior_gone(
                store@,
                Column::NonceUpdates,
                address@,
                last_kept,
            )(c, k);
        let ghost mut nonce_ops: Seq<Op> = Seq::empty();
        let ghost before = batch@;
        if update.nonce.is_some() {
            let prefix = address.to_be_bytes();
            delete_prior_block_entries(store, Column::NonceUpdates, &prefix, last_kept, batch);
            proof {
                let gb = prior_gone(store@, Column::NonceUpdates, address@, last_kept);
                nonce_ops = choose|more: Seq<Op>|
                    #![trigger before + more]
                    batch@ == before + more && deletes(more, gb);
                assert(deletes(nonce_ops, gn)) by {
                    assert forall|j: int| 0 <= j < nonce_ops.len() implies ((
                    #[trigger] nonce_ops[j]) matches Op::Delete(c, k) && gn(c, k)) by {
                        assert(nonce_ops[j] matches Op::Delete(c, k) && gb(c, k));
                    }
                    assert forall|c: Column, k: Seq<u8>| gn(c, k) implies #[trigger] nonce_ops.contains(
                        Op::Delete(c, k),
                    ) by {
                        assert(gb(c, k));
                    }
                }
            }
        } else {
            assert(batch@ =~= before + nonce_ops);
            assert(deletes(nonce_ops, gn));
        }
        let ghost middle = batch@;
        prune_storage(store, address, &update.storage, last_kept, batch);
        proof {
            let gs = storage_gone(store@, address, update.storage.items(), last_kept);
            let more = choose|more: Seq<Op>|
                #![trigger middle + more]
                batch@ == middle + more && deletes(more, gs);
            let one = |c: Column, k: Seq<u8>|
                contract_gone(store@, address, *update, last_kept, c, k);
            lemma_deletes_concat(nonce_ops, gn, more, gs, one);
            let front = items.subrange(0, i as int);
            let done = items.subrange(0, i + 1);
            let g = contracts_gone(store@, done, last_kept);
            assert forall|c: Column, k: Seq<u8>| #[trigger] g(c, k) <==> ga(c, k) || one(c, k) by {
                if g(c, k) {
                    let j = choose|j: int|
                        0 <= j < done.len() && contract_gone(
                            store@,
                            (#[trigger] done[j]).0,
                            done[j].1,
                            last_kept,
                            c,
                            k,
                        );
                    if j < i {
                        assert(front[j] == done[j]);
                    }
                }
                if ga(c, k) {
                    let j = choose|j: int|
                        0 <= j < front.len() && contract_gone(
                            store@,
                            (#[trigger] front[j]).0,
                            front[j].1,
                            last_kept,
                            c,
                            k,
                        );
                    assert(done[j] == front[j]);
                }
                if one(c, k) {
                    assert(done[i as int].0 == address);
                }
            }
            lemma_deletes_concat(ops, ga, nonce_ops + more, one, g);
            assert(batch@ =~= old(batch)@ + (ops + (nonce_ops + more)));
            ops = ops + (nonce_ops + more);
        }
        i = i + 1;
    }
    assert(items.subrange(0, i as int) =~= items);
}

fn prune_systems(
    store: &Store,
    map: &FeltMap<SystemContractUpdate>,
    last_kept: u64,
    batch: &mut Batch,
)
    requires
        last_kept <= u32::MAX,
    ensures
        exists|ops: Seq<Op>|
            #![trigger old(batch)@ + ops]
            final(batch)@ == old(batch)@ + ops && deletes(
                ops,
                systems_gone(store@, map.items(), last_kept),
            ),
{
    let n: usize = map.len();
    let mut i: usize = 0;
    let ghost mut ops: Seq<Op> = Seq::empty();
    let ghost items = map.items();
    assert(batch@ =~= old(batch)@ + ops);
    assert(deletes(ops, systems_gone(store@, items.subrange(0, 0), last_kept)));
    while i < n
        invariant
            i <= n,
            n == items.len(),
            items == map.items(),
            last_kept <= u32::MAX,
            batch@ == old(batch)@ + ops,
            deletes(ops, systems_gone(store@, items.subrange(0, i as int), last_kept)),
        decreases n - i,
    {
        let address: Felt = map.key_at(i);
        let ghost before = batch@;
        prune_storage(store, address, &map.value_at(i).storage, last_kept, batch);
        proof {
            let one = storage_gone(
                store@,
                address,
                items[i as int].1.storage.items(),
                last_kept,
            );
            let more = choose|more: Seq<Op>|
                #![trigger before + more]
                batch@ == before + more && deletes(more, one);
            let front = items.subrange(0, i as int);
            let done = items.subrange(0, i + 1);
            let ga = systems_gone(store@, front, last_kept);
            let g = systems_gone(store@, done, last_kept);
            assert forall|c: Column, k: Seq<u8>| #[trigger] g(c, k) <==> ga(c, k) || one(c, k) by {
                if g(c, k) {
                    let j = choose|j: int|
                        0 <= j < done.len() && storage_gone(
                            store@,
                            (#[trigger] done[j]).0,
                            done[j].1.storage.items(),
                            last_kept,
                        )(c, k);
                    if j < i {
                        assert(front[j] == done[j]);
                    }
                }
                if ga(c, k) {
                    let j = choose|j: int|
                        0 <= j < front.len() && storage_gone(
                            store@,
                            (#[trigger] front[j]).0,
                            front[j].1.storage.items(),
                            last_kept,
                        )(c, k);
                    assert(done[j] == front[j]);
                }
                if one(c, k) {
                    assert(done[i as int].0 == address);
                }
            }
            lemma_deletes_concat(ops, ga, more, one, g);
            assert(batch@ =~= old(batch)@ + (ops + more));
            ops = ops + more;
        }
        i = i + 1;
    }
    assert(items.subrange(0, i as int) =~= items);
}

/// What the state update of the last block kept makes obsolete in the key-value store.
pub open spec fn update_gone(db: Contents, data: StateUpdateData, last_kept: u64) -> spec_fn(
    Column,
    Seq<u8>,
) -> bool {
    |c: Column, k: Seq<u8>|
        contracts_gone(db, data.contract_updates.items(), last_kept)(c, k) || systems_gone(
            db,
            data.system_contract_updates.items(),
            last_kept,
        )(c, k)
}

/// Stages the deletes of the nonce and storage entries that the state update of the last block kept
/// makes obsolete.
pub fn prune_entries(
    store: &Store,
    data: &StateUpdateData,
    last_kept: u64,
    batch: &mut Batch,
)
    requires
        last_kept <= u32::MAX,
    ensures
        exists|ops: Seq<Op>|
            #![trigger old(batch)@ + ops]
            final(batch)@ == old(batch)@ + ops && deletes(
                ops,
                update_gone(store@, *data, last_kept),
            ),
{
    prune_contracts(store, &data.contract_updates, last_kept, batch);
    let ghost middle = batch@;
    prune_systems(store, &data.system_contract_updates, last_kept, batch);
    proof {
        let ga = contracts_gone(store@, data.contract_updates.items(), last_kept);
        let gb = systems_gone(store@, data.system_contract_updates.items(), last_kept);
        let a = choose|a: Seq<Op>|
            #![trigger old(batch)@ + a]
            middle == old(batch)@ + a && deletes(a, ga);
        let b = choose|b: Seq<Op>|
            #![trigger middle + b]
            batch@ == middle + b && deletes(b, gb);
        lemma_deletes_concat(a, ga, b, gb, update_gone(store@, *data, last_kept));
        assert(batch@ =~= old(batch)@ + (a + b));
    }
}

/// The relational tables that are pruned with a block.
pub struct BlockTables {
    /// The numbers of the blocks that have a header.
    pub block_headers: Vec<u64>,
    /// The last block that each stored event filter covers.
    pub event_filters: Vec<u64>,
    /// The contracts whose class changed, with the block of the change.
    pub contract_updates: Vec<(Felt, u64)>,
}

impl BlockTables {
    pub fn new() -> (r: Self)
        ensures
            r.block_headers@.len() == 0,
            r.event_filters@.len() == 0,
            r.contract_updates@.len() == 0,
    {
        BlockTables {
            block_headers: Vec::new(),
            event_filters: Vec::new(),
            contract_updates: Vec::new(),
        }
    }
}

/// Whether a block is the last one that an event filter over `range_len` blocks covers.
pub open spec fn ends_filter_range(block: u64, range_len: u64) -> bool {
    (block + 1) % (range_len as int) == 0
}

/// Whether a class change is superseded by one of the same contract at the last block kept.
pub open spec fn superseded(rows: Seq<(Felt, u64)>, last_kept: u64, row: (Felt, u64)) -> bool {
    row.1 < last_kept && rows.contains((row.0, last_kept))
}

/// The numbers other than one.
pub open spec fn other_than(x: u64) -> spec_fn(u64) -> bool {
    |n: u64| n != x
}

/// The numbers that are left when a block is dropped.
pub open spec fn numbers_left(numbers: Seq<u64>, block: u64) -> Seq<u64> {
    numbers.filter(other_than(block))
}

/// The event filters that are left when a block is dropped.
pub open spec fn filters_left(filters: Seq<u64>, block: u64, range_len: u64) -> Seq<u64> {
    if ends_filter_range(block, range_len) {
        numbers_left(filters, block)
    } else {
        filters
    }
}

/// The class changes that are left when the blocks before the last one kept are dropped.
pub open spec fn changes_left(rows: Seq<(Felt, u64)>, last_kept: u64) -> Seq<(Felt, u64)> {
    rows.filter(|row: (Felt, u64)| !superseded(rows, last_kept, row))
}

fn without_number(numbers: &Vec<u64>, x: u64) -> (r: Vec<u64>)
    ensures
        r@ == numbers_left(numbers@, x),
{
    let mut kept: Vec<u64> = Vec::new();
    let ghost f = other_than(x);
    let mut i: usize = 0;
    proof {
        reveal(Seq::filter);
        assert(numbers@.subrange(0, 0).filter(f) =~= Seq::empty());
    }
    while i < numbers.len()
        invariant
            i <= numbers@.len(),
            f == other_than(x),
            kept@ == numbers@.subrange(0, i as int).filter(f),
        decreases numbers@.len() - i,
    {
        proof {
            reveal(Seq::filter);
            let done = numbers@.subrange(0, i + 1);
            assert(done.drop_last() =~= numbers@.subrange(0, i as int));
        }
        if numbers[i] != x {
            kept.push(numbers[i]);
        }
        i = i + 1;
    }
    assert(numbers@.subrange(0, i as int) =~= numbers@);
    kept
}

fn has_row(rows: &Vec<(Felt, u64)>, address: Felt, block: u64) -> (r: bool)
    ensures
        r == rows@.contains((address, block)),
{
    let mut i: usize = 0;
    while i < rows.len()
        invariant
            i <= rows@.len(),
            forall|j: int| 0 <= j < i ==> rows@[j] != (address, block),
        decreases rows@.len() - i,
    {
        if rows[i].0 == address && rows[i].1 == block {
            assert(rows@[i as int] == (address, block));
            return true;
        }
        i = i + 1;
    }
    false
}

fn without_superseded(rows: &Vec<(Felt, u64)>, last_kept: u64) -> (r: Vec<(Felt, u64)>)
    ensures
        r@ == changes_left(rows@, last_kept),
{
    let mut kept: Vec<(Felt, u64)> = Vec::new();
    let ghost f = |row: (Felt, u64)| !superseded(rows@, last_kept, row);
    let mut i: usize = 0;
    proof {
        reveal(Seq::filter);
        assert(rows@.subrange(0, 0).filter(f) =~= Seq::empty());
    }
    while i < rows.len()
        invariant
            i <= rows@.len(),
            f == (|row: (Felt, u64)| !superseded(rows@, last_kept, row)),
            kept@ == rows@.subrange(0, i as int).filter(f),
        decreases rows@.len() - i,
    {
        proof {
            reveal(Seq::filter);
            let done = rows@.subrange(0, i + 1);
            assert(done.drop_last() =~= rows@.subrange(0, i as int));
        }
        let row: (Felt, u64) = (rows[i].0, rows[i].1);
        if !(row.1 < last_kept && has_row(rows, row.0, last_kept)) {
            kept.push(row);
        }
        i = i + 1;
    }
    assert(rows@.subrange(0, i as int) =~= rows@);
    kept
}

/// Drops a block: its header; the event filter that ends with it; class changes that the next block
/// supersedes; and the nonce and storage entries that the state update of the next block makes
/// obsolete.
pub fn prune_block(
    tables: &mut BlockTables,
    store: &Store,
    block: u64,
    next_state_update: Option<&StateUpdateData>,
    filter_range_len: u64,
    batch: &mut Batch,
)
    requires
        block < u64::MAX,
        filter_range_len > 0,
        next_state_update is Some ==> block < u32::MAX,
    ensures
        final(tables).block_headers@ == numbers_left(old(tables).block_headers@, block),
        final(tables).event_filters@ == filters_left(
            old(tables).event_filters@,
            block,
            filter_range_len,
        ),
        final(tables).contract_updates@ == changes_left(
            old(tables).contract_updates@,
            (block + 1) as u64,
        ),
        match next_state_update {
            None => final(batch)@ == old(batch)@,
            Some(data) => exists|ops: Seq<Op>|
                #![trigger old(batch)@ + ops]
                final(batch)@ == old(batch)@ + ops && deletes(
                    ops,
                    update_gone(store@, *data, (block + 1) as u64),
                ),
        },
{
    tables.block_headers = without_number(&tables.block_headers, block);
    if (block + 1) % filter_range_len == 0 {
        tables.event_filters = without_number(&tables.event_filters, block);
    }
    let last_kept_block: u64 = block + 1;
    tables.contract_updates = without_superseded(&tables.contract_updates, last_kept_block);
    if let Some(data) = next_state_update {
        prune_entries(store, data, last_kept_block, batch);
    }
}

/// An entry of a run under a prefix is deleted exactly where its block is before the last one kept.
pub proof fn law_prior_entries(
    m: ColumnMap,
    p: Seq<u8>,
    last_kept: u64,
    block: u64,
)
    requires
        0 < last_kept <= u32::MAX,
        block <= u32::MAX,
    ensures
        prior(m, p, last_kept, p + be_u32((u32::MAX - block) as u32)) <==> m.contains_key(
            p + be_u32((u32::MAX - block) as u32),
        ) && block < last_kept,
{
    let x = (u32::MAX - block) as u32;
    let y = (u32::MAX - last_kept + 1) as u32;
    lemma_lex_prefix(p, be_u32(y), be_u32(x));
    lemma_be_u32_order(y, x);
    lemma_be_u32_order(x, y);
    let k = p + be_u32(x);
    assert(has_prefix(k, p));
    if prior_from(p, last_kept) == k {
        assert(be_u32(y) =~= k.subrange(p.len() as int, k.len() as int));
        assert(be_u32(x) =~= k.subrange(p.len() as int, k.len() as int));
    }
}

} // verus!
