//! What dropping a block from the front of the history keeps: everything that can be read at the blocks
//! that are left.
use vstd::prelude::*;

use crate::bytes::be_u32;
use crate::felt::Felt;
use crate::state_update::{
    keys_once, lemma_sets_nonce, lemma_sets_slot, has_item, sets_nonce, sets_slot, StateUpdateData,
};
use crate::storage::block_pruning::{
    changes_left, contract_gone, contracts_gone, deletes, filters_left, law_prior_entries,
    numbers_left, other_than, prior, storage_gone, systems_gone, update_gone,
};
use crate::storage::columns::{Column, ColumnMap};
use crate::storage::keys::storage_prefix_of;
use crate::storage::runs::{lemma_only_deletes, only_deletes};
use crate::storage::store::{apply_ops, Contents, Op};

verus! {

/// The key of the entry under a prefix for a block: the block number counts down behind the prefix,
/// so that later blocks come first.
pub open spec fn entry_key(p: Seq<u8>, block: u64) -> Seq<u8> {
    p + be_u32((u32::MAX - block) as u32)
}

/// The entry for block `b` is the latest one under a prefix up to block `n`.
pub open spec fn is_latest(m: ColumnMap, p: Seq<u8>, n: u64, b: u64) -> bool {
    &&& b <= n
    &&& m.contains_key(entry_key(p, b))
    &&& forall|x: u64| b < x <= n ==> !#[trigger] m.contains_key(entry_key(p, x))
}

/// A batch that deletes exactly some keys leaves the others.
proof fn lemma_left(
    db: Contents,
    ops: Seq<Op>,
    gone: spec_fn(Column, Seq<u8>) -> bool,
    c: Column,
    k: Seq<u8>,
)
    requires
        deletes(ops, gone),
    ensures
        apply_ops(db, ops)[c].contains_key(k) <==> db[c].contains_key(k) && !gone(c, k),
        apply_ops(db, ops)[c].contains_key(k) ==> apply_ops(db, ops)[c][k] == db[c][k],
{
    assert(only_deletes(ops)) by {
        assert forall|i: int| 0 <= i < ops.len() implies (#[trigger] ops[i]) is Delete by {
            assert(ops[i] matches Op::Delete(d, q) && gone(d, q));
        }
    }
    lemma_only_deletes(db, ops, c);
    if ops.contains(Op::Delete(c, k)) {
        let i = choose|i: int| 0 <= i < ops.len() && ops[i] == Op::Delete(c, k);
        assert(ops[i] matches Op::Delete(d, q) && gone(d, q));
    }
    if gone(c, k) {
        assert(ops.contains(Op::Delete(c, k)));
    }
}

/// An entry under a prefix is under another of the same length only where the two are one.
proof fn lemma_prefixes(p: Seq<u8>, q: Seq<u8>, tail: Seq<u8>)
    requires
        p.len() == q.len(),
        crate::bytes::has_prefix(p + tail, q),
    ensures
        p == q,
{
    assert forall|i: int| 0 <= i < p.len() implies p[i] == q[i] by {
        assert((p + tail)[i] == q[i]);
    }
    assert(p =~= q);
}

/// A nonce entry is dropped exactly where it is older than the last block kept and the state update
/// of that block sets the nonce of its contract.
pub proof fn law_pruned_nonces(
    db: Contents,
    data: StateUpdateData,
    last_kept: u64,
    ops: Seq<Op>,
    address: Felt,
    b: u64,
)
    requires
        deletes(ops, update_gone(db, data, last_kept)),
        keys_once(data),
        0 < last_kept <= u32::MAX,
        b <= u32::MAX,
    ensures
        ({
            let before = db[Column::NonceUpdates];
            let after = apply_ops(db, ops)[Column::NonceUpdates];
            let k = entry_key(address@, b);
            &&& after.contains_key(k) <==> before.contains_key(k) && !(b < last_kept && sets_nonce(
                data@,
                address,
            ))
            &&& after.contains_key(k) ==> after[k] == before[k]
        }),
{
    let k = entry_key(address@, b);
    let c = Column::NonceUpdates;
    let gone = update_gone(db, data, last_kept);
    lemma_left(db, ops, gone, c, k);
    lemma_sets_nonce(data, address);
    law_prior_entries(db[c], address@, last_kept, b);
    let items = data.contract_updates.items();
    if gone(c, k) {
        assert(contracts_gone(db, items, last_kept)(c, k)) by {
            if systems_gone(db, data.system_contract_updates.items(), last_kept)(c, k) {
                let i = choose|i: int|
                    0 <= i < data.system_contract_updates.items().len() && storage_gone(
                        db,
                        (#[trigger] data.system_contract_updates.items()[i]).0,
                        data.system_contract_updates.items()[i].1.storage.items(),
                        last_kept,
                    )(c, k);
                assert(false);
            }
        }
        let i = choose|i: int|
            0 <= i < items.len() && contract_gone(
                db,
                (#[trigger] items[i]).0,
                items[i].1,
                last_kept,
                c,
                k,
            );
        Felt::lemma_view_injective(address, items[i].0);
        Felt::lemma_view_injective(items[i].0, address);
        lemma_prefixes(address@, items[i].0@, be_u32((u32::MAX - b) as u32));
        assert(items[i].0 == address);
    }
    if sets_nonce(data@, address) && prior(db[c], address@, last_kept, k) {
        let i = choose|i: int|
            0 <= i < items.len() && (#[trigger] items[i]).0 == address && items[i].1.nonce is Some;
        assert(contract_gone(db, items[i].0, items[i].1, last_kept, c, k));
        assert(contracts_gone(db, items, last_kept)(c, k));
    }
}

/// A storage entry is dropped exactly where it is older than the last block kept and the state
/// update of that block sets that entry of the contract's storage.
pub proof fn law_pruned_storage(
    db: Contents,
    data: StateUpdateData,
    last_kept: u64,
    ops: Seq<Op>,
    address: Felt,
    key: Felt,
    b: u64,
)
    requires
        deletes(ops, update_gone(db, data, last_kept)),
        keys_once(data),
        0 < last_kept <= u32::MAX,
        b <= u32::MAX,
    ensures
        ({
            let before = db[Column::StorageUpdates];
            let after = apply_ops(db, ops)[Column::StorageUpdates];
            let k = entry_key(address@ + key@, b);
            &&& after.contains_key(k) <==> before.contains_key(k) && !(b < last_kept && sets_slot(
                data@,
                address,
                key,
            ))
            &&& after.contains_key(k) ==> after[k] == before[k]
        }),
{
    let k = entry_key(address@ + key@, b);
    let c = Column::StorageUpdates;
    let gone = update_gone(db, data, last_kept);
    lemma_left(db, ops, gone, c, k);
    lemma_sets_slot(data, address, key);
    law_prior_entries(db[c], address@ + key@, last_kept, b);
    let items = data.contract_updates.items();
    let systems = data.system_contract_updates.items();
    if contracts_gone(db, items, last_kept)(c, k) {
        let i = choose|i: int|
            0 <= i < items.len() && contract_gone(
                db,
                (#[trigger] items[i]).0,
                items[i].1,
                last_kept,
                c,
                k,
            );
        lemma_slot_gone(db, items[i].0, items[i].1.storage.items(), last_kept, address, key, b);
        assert(items[i].0 == address && has_item(items[i].1.storage.items(), key));
    }
    if systems_gone(db, systems, last_kept)(c, k) {
        let i = choose|i: int|
            0 <= i < systems.len() && storage_gone(
                db,
                (#[trigger] systems[i]).0,
                systems[i].1.storage.items(),
                last_kept,
            )(c, k);
        lemma_slot_gone(db, systems[i].0, systems[i].1.storage.items(), last_kept, address, key, b);
        assert(systems[i].0 == address && has_item(systems[i].1.storage.items(), key));
    }
    if sets_slot(data@, address, key) && prior(db[c], address@ + key@, last_kept, k) {
        if exists|i: int|
            0 <= i < items.len() && (#[trigger] items[i]).0 == address && has_item(
                items[i].1.storage.items(),
                key,
            ) {
            let i = choose|i: int|
                0 <= i < items.len() && (#[trigger] items[i]).0 == address && has_item(
                    items[i].1.storage.items(),
                    key,
                );
            let slots = items[i].1.storage.items();
            let j = choose|j: int| 0 <= j < slots.len() && (#[trigger] slots[j]).0 == key;
            assert(prior(db[c], storage_prefix_of(address, slots[j].0), last_kept, k));
            assert(storage_gone(db, address, slots, last_kept)(c, k));
            assert(contract_gone(db, items[i].0, items[i].1, last_kept, c, k));
            assert(contracts_gone(db, items, last_kept)(c, k));
        } else {
            let i = choose|i: int|
                0 <= i < systems.len() && (#[trigger] systems[i]).0 == address && has_item(
                    systems[i].1.storage.items(),
                    key,
                );
            let slots = systems[i].1.storage.items();
            let j = choose|j: int| 0 <= j < slots.len() && (#[trigger] slots[j]).0 == key;
            assert(prior(db[c], storage_prefix_of(address, slots[j].0), last_kept, k));
            assert(storage_gone(db, systems[i].0, slots, last_kept)(c, k));
            assert(systems_gone(db, systems, last_kept)(c, k));
        }
        assert(gone(c, k));
    }
}

proof fn lemma_slot_gone(
    db: Contents,
    other: Felt,
    slots: Seq<(Felt, Felt)>,
    last_kept: u64,
    address: Felt,
    key: Felt,
    b: u64,
)
    requires
        storage_gone(db, other, slots, last_kept)(
            Column::StorageUpdates,
            entry_key(address@ + key@, b),
        ),
    ensures
        other == address,
        has_item(slots, key),
        prior(db[Column::StorageUpdates], address@ + key@, last_kept, entry_key(address@ + key@, b)),
{
    let k = entry_key(address@ + key@, b);
    let j = choose|j: int|
        0 <= j < slots.len() && prior(
            db[Column::StorageUpdates],
            storage_prefix_of(other, (#[trigger] slots[j]).0),
            last_kept,
            k,
        );
    let p = address@ + key@;
    let q = other@ + slots[j].0@;
    Felt::lemma_view_injective(address, other);
    Felt::lemma_view_injective(other, address);
    Felt::lemma_view_injective(key, slots[j].0);
    Felt::lemma_view_injective(slots[j].0, key);
    lemma_prefixes(p, q, be_u32((u32::MAX - b) as u32));
    assert(address@ =~= p.subrange(0, 32));
    assert(other@ =~= q.subrange(0, 32));
    assert(key@ =~= p.subrange(32, 64));
    assert(slots[j].0@ =~= q.subrange(32, 64));
    assert(slots[j].0 == key);
}

/// Dropping a block touches nothing but nonce and storage entries.
pub proof fn law_pruning_spares_other_columns(
    db: Contents,
    data: StateUpdateData,
    last_kept: u64,
    ops: Seq<Op>,
    c: Column,
)
    requires
        deletes(ops, update_gone(db, data, last_kept)),
        c != Column::NonceUpdates,
        c != Column::StorageUpdates,
    ensures
        apply_ops(db, ops)[c] == db[c],
{
    let gone = update_gone(db, data, last_kept);
    assert forall|k: Seq<u8>| !#[trigger] gone(c, k) by {
        let items = data.contract_updates.items();
        let systems = data.system_contract_updates.items();
        if contracts_gone(db, items, last_kept)(c, k) {
            let i = choose|i: int|
                0 <= i < items.len() && contract_gone(
                    db,
                    (#[trigger] items[i]).0,
                    items[i].1,
                    last_kept,
                    c,
                    k,
                );
            assert(false);
        }
        if systems_gone(db, systems, last_kept)(c, k) {
            let i = choose|i: int|
                0 <= i < systems.len() && storage_gone(
                    db,
                    (#[trigger] systems[i]).0,
                    systems[i].1.storage.items(),
                    last_kept,
                )(c, k);
            assert(false);
        }
    }
    assert forall|k: Seq<u8>|
        (apply_ops(db, ops)[c].contains_key(k) <==> db[c].contains_key(k)) && (apply_ops(
            db,
            ops,
        )[c].contains_key(k) ==> #[trigger] apply_ops(db, ops)[c][k] == db[c][k]) by {
        lemma_left(db, ops, gone, c, k);
    }
    assert forall|k: Seq<u8>| #[trigger] apply_ops(db, ops)[c].contains_key(k) <==> db[c].contains_key(
        k,
    ) by {
        lemma_left(db, ops, gone, c, k);
    }
    assert(apply_ops(db, ops)[c] =~= db[c]);
}

/// The nonce of a contract at the last block kept and after it is the same before and after the
/// block before that one is dropped, where what the state update of the last block kept sets is
/// stored for that block.
pub proof fn law_pruning_keeps_nonces(
    db: Contents,
    data: StateUpdateData,
    last_kept: u64,
    ops: Seq<Op>,
    address: Felt,
    n: u64,
    b: u64,
)
    requires
        deletes(ops, update_gone(db, data, last_kept)),
        keys_once(data),
        0 < last_kept <= n <= u32::MAX,
        forall|a: Felt| #[trigger]
            sets_nonce(data@, a) ==> db[Column::NonceUpdates].contains_key(entry_key(a@, last_kept)),
    ensures
        ({
            let before = db[Column::NonceUpdates];
            let after = apply_ops(db, ops)[Column::NonceUpdates];
            &&& is_latest(after, address@, n, b) <==> is_latest(before, address@, n, b)
            &&& is_latest(after, address@, n, b) ==> after[entry_key(address@, b)]
                == before[entry_key(address@, b)]
        }),
{
    let before = db[Column::NonceUpdates];
    let after = apply_ops(db, ops)[Column::NonceUpdates];
    assert forall|x: u64| x <= n implies (#[trigger] after.contains_key(entry_key(address@, x)) <==> (
    before.contains_key(entry_key(address@, x)) && !(x < last_kept && sets_nonce(data@, address)))) by {
        law_pruned_nonces(db, data, last_kept, ops, address, x);
    }
    assert forall|x: u64|
        x <= n && #[trigger] before.contains_key(entry_key(address@, x)) implies after.contains_key(
        entry_key(address@, x),
    ) || (x < last_kept && sets_nonce(data@, address)) by {
        law_pruned_nonces(db, data, last_kept, ops, address, x);
    }
    if b <= n {
        law_pruned_nonces(db, data, last_kept, ops, address, b);
    }
    if sets_nonce(data@, address) {
        assert(before.contains_key(entry_key(address@, last_kept)));
        assert(after.contains_key(entry_key(address@, last_kept)));
    }
}

/// An entry of a contract's storage at the last block kept and after it is the same before and
/// after the block before that one is dropped, where what the state update of the last block kept
/// sets is stored for that block.
pub proof fn law_pruning_keeps_storage(
    db: Contents,
    data: StateUpdateData,
    last_kept: u64,
    ops: Seq<Op>,
    address: Felt,
    key: Felt,
    n: u64,
    b: u64,
)
    requires
        deletes(ops, update_gone(db, data, last_kept)),
        keys_once(data),
        0 < last_kept <= n <= u32::MAX,
        forall|a: Felt, s: Felt| #[trigger]
            sets_slot(data@, a, s) ==> db[Column::StorageUpdates].contains_key(
                entry_key(a@ + s@, last_kept),
            ),
    ensures
        ({
            let p = address@ + key@;
            let before = db[Column::StorageUpdates];
            let after = apply_ops(db, ops)[Column::StorageUpdates];
            &&& is_latest(after, p, n, b) <==> is_latest(before, p, n, b)
            &&& is_latest(after, p, n, b) ==> after[entry_key(p, b)] == before[entry_key(p, b)]
        }),
{
    let p = address@ + key@;
    let before = db[Column::StorageUpdates];
    let after = apply_ops(db, ops)[Column::StorageUpdates];
    assert forall|x: u64| x <= n implies (#[trigger] after.contains_key(entry_key(p, x)) <==> (
    before.contains_key(entry_key(p, x)) && !(x < last_kept && sets_slot(data@, address, key)))) by {
        law_pruned_storage(db, data, last_kept, ops, address, key, x);
    }
    assert forall|x: u64|
        x <= n && #[trigger] before.contains_key(entry_key(p, x)) implies after.contains_key(
        entry_key(p, x),
    ) || (x < last_kept && sets_slot(data@, address, key)) by {
        law_pruned_storage(db, data, last_kept, ops, address, key, x);
    }
    if b <= n {
        law_pruned_storage(db, data, last_kept, ops, address, key, b);
    }
    if sets_slot(data@, address, key) {
        assert(before.contains_key(entry_key(p, last_kept)));
        assert(after.contains_key(entry_key(p, last_kept)));
    }
}

proof fn lemma_filter_contains<A>(s: Seq<A>, f: spec_fn(A) -> bool, x: A)
    ensures
        s.filter(f).contains(x) <==> s.contains(x) && f(x),
    decreases s.len(),
{
    reveal(Seq::filter);
    if s.len() > 0 {
        let front = s.drop_last();
        lemma_filter_contains(front, f, x);
        assert(s.contains(x) <==> front.contains(x) || s.last() == x) by {
            if s.contains(x) {
                let i = choose|i: int| 0 <= i < s.len() && s[i] == x;
                if i < front.len() {
                    assert(front[i] == x);
                }
            }
            if front.contains(x) {
                let i = choose|i: int| 0 <= i < front.len() && front[i] == x;
                assert(s[i] == x);
            }
            assert(s[s.len() - 1] == s.last());
        }
        let kept = front.filter(f);
        if f(s.last()) {
            assert(s.filter(f) == kept.push(s.last()));
            assert(kept.push(s.last()).contains(x) <==> kept.contains(x) || s.last() == x) by {
                if kept.push(s.last()).contains(x) {
                    let i = choose|i: int|
                        0 <= i < kept.len() + 1 && kept.push(s.last())[i] == x;
                    if i < kept.len() {
                        assert(kept[i] == x);
                    }
                }
                if kept.contains(x) {
                    let i = choose|i: int| 0 <= i < kept.len() && kept[i] == x;
                    assert(kept.push(s.last())[i] == x);
                }
                assert(kept.push(s.last())[kept.len() as int] == s.last());
            }
        }
    }
}

/// Of the headers, that of the block dropped goes and every other stays.
pub proof fn law_pruned_headers(headers: Seq<u64>, block: u64, n: u64)
    ensures
        numbers_left(headers, block).contains(n) <==> headers.contains(n) && n != block,
{
    lemma_filter_contains(headers, other_than(block), n);
}

/// An event filter goes exactly where it ends with the block dropped and that block is the last one
/// of a range.
pub proof fn law_pruned_filters(filters: Seq<u64>, block: u64, range_len: u64, n: u64)
    requires
        range_len > 0,
    ensures
        filters_left(filters, block, range_len).contains(n) <==> filters.contains(n) && !(n == block
            && (block + 1) % (range_len as int) == 0),
{
    lemma_filter_contains(filters, other_than(block), n);
}

/// A class change goes exactly where it is older than the last block kept and the same contract's
/// class changed at that block. So the latest class change of a contract up to the last block kept,
/// or up to a later block, stays the latest.
pub proof fn law_pruned_class_changes(
    rows: Seq<(Felt, u64)>,
    last_kept: u64,
    address: Felt,
    b: u64,
    n: u64,
)
    requires
        last_kept <= n,
    ensures
        changes_left(rows, last_kept).contains((address, b)) <==> rows.contains((address, b)) && !(b
            < last_kept && rows.contains((address, last_kept))),
        ({
            let after = changes_left(rows, last_kept);
            (b <= n && after.contains((address, b)) && (forall|x: u64|
                b < x <= n ==> !#[trigger] after.contains((address, x)))) <==> (b <= n
                && rows.contains((address, b)) && (forall|x: u64|
                b < x <= n ==> !#[trigger] rows.contains((address, x))))
        }),
{
    let after = changes_left(rows, last_kept);
    let f = |row: (Felt, u64)|
        !crate::storage::block_pruning::superseded(rows, last_kept, row);
    assert forall|x: u64| #[trigger] after.contains((address, x)) <==> rows.contains((address, x)) && !(x
        < last_kept && rows.contains((address, last_kept))) by {
        lemma_filter_contains(rows, f, (address, x));
    }
    assert forall|x: u64| #[trigger] rows.contains((address, x)) implies after.contains((address, x)) || (
    x < last_kept && rows.contains((address, last_kept))) by {
        assert(after.contains((address, x)) <==> rows.contains((address, x)) && !(x < last_kept
            && rows.contains((address, last_kept))));
    }
    assert(after.contains((address, b)) <==> rows.contains((address, b)) && !(b < last_kept
        && rows.contains((address, last_kept))));
    assert(rows.contains((address, last_kept)) ==> after.contains((address, last_kept)));
}

} // verus!
