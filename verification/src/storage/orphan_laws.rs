//! What a reconciliation removes of orphaned blocks, and that it leaves confirmed blocks alone.
use vstd::prelude::*;

use crate::bytes::{
    be_u32, be_u64, lemma_be_u32_order, lemma_be_u64_injective, lemma_be_u64_order,
    lemma_be_value_bytes, lemma_lex_trichotomy,
};
use crate::felt::Felt;
use crate::state_update::{
    has_item, keys_once, lemma_mentions, lemma_sets_nonce, lemma_sets_slot, mentions, sets_nonce,
    sets_slot, ContractUpdate, StateUpdateData, SystemContractUpdate,
};
use crate::storage::columns::{Column, ColumnMap};
use crate::storage::keys::{nonce_key, storage_key};
use crate::storage::reconcile::{
    block_ops, contract_deletes, hash_deletes, highest_state_update, is_last_key, orphan_range,
    orphans_given, purge_all_ops, purge_ops, reconcile_ops, state_hash_deletes,
    state_update_deletes, storage_deletes, system_deletes, top_of, trie_ops, OrphanedBlock, RootRows,
};
use crate::storage::reconcile_laws::{
    lemma_last_key_exists, lemma_spared, lemma_spares_concat, of_tries,
};
use crate::storage::runs::{lemma_only_deletes, only_deletes};
use crate::storage::store::{apply_ops, lemma_apply_concat, Contents, Op};
use crate::storage::trie::TrieColumn;

verus! {

/// A batch deletes a key of a column.
pub open spec fn names(ops: Seq<Op>, c: Column, k: Seq<u8>) -> bool {
    ops.contains(Op::Delete(c, k))
}

pub proof fn lemma_names_concat(a: Seq<Op>, b: Seq<Op>, c: Column, k: Seq<u8>)
    ensures
        names(a + b, c, k) <==> names(a, c, k) || names(b, c, k),
{
    let op = Op::Delete(c, k);
    if (a + b).contains(op) {
        let i = choose|i: int| 0 <= i < (a + b).len() && (a + b)[i] == op;
        if i < a.len() {
            assert(a[i] == op);
        } else {
            assert(b[i - a.len()] == op);
        }
    }
    if a.contains(op) {
        let i = choose|i: int| 0 <= i < a.len() && a[i] == op;
        assert((a + b)[i] == op);
    }
    if b.contains(op) {
        let i = choose|i: int| 0 <= i < b.len() && b[i] == op;
        assert((a + b)[a.len() + i] == op);
    }
}

proof fn lemma_deletes_concat(a: Seq<Op>, b: Seq<Op>)
    requires
        only_deletes(a),
        only_deletes(b),
    ensures
        only_deletes(a + b),
{
    assert forall|i: int| 0 <= i < (a + b).len() implies (#[trigger] (a + b)[i]) is Delete by {
        if i < a.len() {
            assert((a + b)[i] == a[i]);
        } else {
            assert((a + b)[i] == b[i - a.len()]);
        }
    }
}

/// An address and what stands behind it can be told apart.
proof fn lemma_after_address(a: Felt, b: Felt, x: Seq<u8>, y: Seq<u8>)
    requires
        a@ + x == b@ + y,
    ensures
        a == b,
        x == y,
{
    Felt::lemma_view_injective(a, b);
    Felt::lemma_view_injective(b, a);
    assert(a@ =~= (a@ + x).subrange(0, 32));
    assert(b@ =~= (b@ + y).subrange(0, 32));
    assert(x =~= (a@ + x).subrange(32, (a@ + x).len() as int));
    assert(y =~= (b@ + y).subrange(32, (b@ + y).len() as int));
}

proof fn lemma_storage_deletes(
    block: u64,
    other: Felt,
    slots: Seq<(Felt, Felt)>,
    address: Felt,
    key: Felt,
    b: u64,
)
    requires
        block <= u32::MAX,
        b <= u32::MAX,
    ensures
        only_deletes(storage_deletes(block, other, slots)),
        forall|c: Column, k: Seq<u8>|
            c != Column::StorageUpdates ==> !#[trigger] names(storage_deletes(block, other, slots), c, k),
        names(
            storage_deletes(block, other, slots),
            Column::StorageUpdates,
            address@ + key@ + be_u32((u32::MAX - b) as u32),
        ) <==> block == b && other == address && has_item(slots, key),
{
    let ops = storage_deletes(block, other, slots);
    let k = address@ + key@ + be_u32((u32::MAX - b) as u32);
    if names(ops, Column::StorageUpdates, k) {
        let i = choose|i: int| 0 <= i < ops.len() && ops[i] == Op::Delete(Column::StorageUpdates, k);
        let tail = be_u32((u32::MAX - block) as u32);
        let mine = be_u32((u32::MAX - b) as u32);
        assert(storage_key(block, other, slots[i].0) == k);
        assert(k =~= address@ + (key@ + mine));
        assert(k =~= other@ + (slots[i].0@ + tail));
        lemma_after_address(address, other, key@ + mine, slots[i].0@ + tail);
        lemma_after_address(key, slots[i].0, mine, tail);
        lemma_be_u32_order((u32::MAX - block) as u32, (u32::MAX - b) as u32);
        assert(slots[i].0 == key);
    }
    if block == b && other == address && has_item(slots, key) {
        let i = choose|i: int| 0 <= i < slots.len() && (#[trigger] slots[i]).0 == key;
        assert(ops[i] == Op::Delete(Column::StorageUpdates, k));
    }
}

proof fn lemma_contract_deletes(
    block: u64,
    items: Seq<(Felt, ContractUpdate)>,
    address: Felt,
    key: Felt,
    b: u64,
)
    requires
        block <= u32::MAX,
        b <= u32::MAX,
    ensures
        only_deletes(contract_deletes(block, items)),
        forall|c: Column, k: Seq<u8>|
            c != Column::StorageUpdates && c != Column::NonceUpdates ==> !#[trigger] names(
                contract_deletes(block, items),
                c,
                k,
            ),
        names(
            contract_deletes(block, items),
            Column::NonceUpdates,
            address@ + be_u32((u32::MAX - b) as u32),
        ) <==> block == b && (exists|i: int|
            0 <= i < items.len() && (#[trigger] items[i]).0 == address && items[i].1.nonce is Some),
        names(
            contract_deletes(block, items),
            Column::StorageUpdates,
            address@ + key@ + be_u32((u32::MAX - b) as u32),
        ) <==> block == b && (exists|i: int|
            0 <= i < items.len() && (#[trigger] items[i]).0 == address && has_item(
                items[i].1.storage.items(),
                key,
            )),
    decreases items.len(),
{
    let nk = address@ + be_u32((u32::MAX - b) as u32);
    let sk = address@ + key@ + be_u32((u32::MAX - b) as u32);
    let all = contract_deletes(block, items);
    if items.len() > 0 {
        let rest = items.drop_last();
        let (other, update) = items.last();
        let n = items.len() - 1;
        lemma_contract_deletes(block, rest, address, key, b);
        let front = contract_deletes(block, rest);
        let nonce: Seq<Op> = if update.nonce is Some {
            seq![Op::Delete(Column::NonceUpdates, nonce_key(block, other))]
        } else {
            seq![]
        };
        let slots = update.storage.items();
        let storage = storage_deletes(block, other, slots);
        lemma_storage_deletes(block, other, slots, address, key, b);
        assert(all =~= front + nonce + storage);
        lemma_deletes_concat(front, nonce);
        lemma_deletes_concat(front + nonce, storage);
        assert forall|c: Column, k: Seq<u8>|
            c != Column::StorageUpdates && c != Column::NonceUpdates implies !#[trigger] names(
            all,
            c,
            k,
        ) by {
            lemma_names_concat(front, nonce, c, k);
            lemma_names_concat(front + nonce, storage, c, k);
        }
        lemma_names_concat(front, nonce, Column::NonceUpdates, nk);
        lemma_names_concat(front + nonce, storage, Column::NonceUpdates, nk);
        lemma_names_concat(front, nonce, Column::StorageUpdates, sk);
        lemma_names_concat(front + nonce, storage, Column::StorageUpdates, sk);
        assert(names(nonce, Column::NonceUpdates, nk) <==> block == b && other == address
            && update.nonce is Some) by {
            if names(nonce, Column::NonceUpdates, nk) {
                assert(nonce[0] == Op::Delete(Column::NonceUpdates, nk));
                lemma_after_address(
                    address,
                    other,
                    be_u32((u32::MAX - b) as u32),
                    be_u32((u32::MAX - block) as u32),
                );
                lemma_be_u32_order((u32::MAX - block) as u32, (u32::MAX - b) as u32);
            }
            if block == b && other == address && update.nonce is Some {
                assert(nonce[0] == Op::Delete(Column::NonceUpdates, nk));
            }
        }
        assert(forall|i: int| 0 <= i < rest.len() ==> rest[i] == items[i]);
        assert(items[n] == items.last());
        assert((exists|i: int|
            0 <= i < items.len() && (#[trigger] items[i]).0 == address && items[i].1.nonce is Some)
            <==> (exists|i: int|
            0 <= i < rest.len() && (#[trigger] rest[i]).0 == address && rest[i].1.nonce is Some) || (
        other == address && update.nonce is Some)) by {
            if exists|i: int|
                0 <= i < items.len() && (#[trigger] items[i]).0 == address && items[i].1.nonce is Some {
                let i = choose|i: int|
                    0 <= i < items.len() && (#[trigger] items[i]).0 == address
                        && items[i].1.nonce is Some;
                if i < n {
                    assert(rest[i].0 == address);
                }
            }
            if exists|i: int|
                0 <= i < rest.len() && (#[trigger] rest[i]).0 == address && rest[i].1.nonce is Some {
                let i = choose|i: int|
                    0 <= i < rest.len() && (#[trigger] rest[i]).0 == address
                        && rest[i].1.nonce is Some;
                assert(items[i].0 == address);
            }
            if other == address && update.nonce is Some {
                assert(items[n].0 == address);
            }
        }
        assert((exists|i: int|
            0 <= i < items.len() && (#[trigger] items[i]).0 == address && has_item(
                items[i].1.storage.items(),
                key,
            )) <==> (exists|i: int|
            0 <= i < rest.len() && (#[trigger] rest[i]).0 == address && has_item(
                rest[i].1.storage.items(),
                key,
            )) || (other == address && has_item(slots, key))) by {
            if exists|i: int|
                0 <= i < items.len() && (#[trigger] items[i]).0 == address && has_item(
                    items[i].1.storage.items(),
                    key,
                ) {
                let i = choose|i: int|
                    0 <= i < items.len() && (#[trigger] items[i]).0 == address && has_item(
                        items[i].1.storage.items(),
                        key,
                    );
                if i < n {
                    assert(rest[i].0 == address);
                }
            }
            if exists|i: int|
                0 <= i < rest.len() && (#[trigger] rest[i]).0 == address && has_item(
                    rest[i].1.storage.items(),
                    key,
                ) {
                let i = choose|i: int|
                    0 <= i < rest.len() && (#[trigger] rest[i]).0 == address && has_item(
                        rest[i].1.storage.items(),
                        key,
                    );
                assert(items[i].0 == address);
            }
            if other == address && has_item(slots, key) {
                assert(items[n].0 == address);
            }
        }
        assert(!names(nonce, Column::StorageUpdates, sk)) by {
            if names(nonce, Column::StorageUpdates, sk) {
                assert(nonce[0] == Op::Delete(Column::StorageUpdates, sk));
            }
        }
    }
}

proof fn lemma_system_deletes(
    block: u64,
    items: Seq<(Felt, SystemContractUpdate)>,
    address: Felt,
    key: Felt,
    b: u64,
)
    requires
        block <= u32::MAX,
        b <= u32::MAX,
    ensures
        only_deletes(system_deletes(block, items)),
        forall|c: Column, k: Seq<u8>|
            c != Column::StorageUpdates ==> !#[trigger] names(system_deletes(block, items), c, k),
        names(
            system_deletes(block, items),
            Column::StorageUpdates,
            address@ + key@ + be_u32((u32::MAX - b) as u32),
        ) <==> block == b && (exists|i: int|
            0 <= i < items.len() && (#[trigger] items[i]).0 == address && has_item(
                items[i].1.storage.items(),
                key,
            )),
    decreases items.len(),
{
    let sk = address@ + key@ + be_u32((u32::MAX - b) as u32);
    let all = system_deletes(block, items);
    if items.len() > 0 {
        let rest = items.drop_last();
        let (other, update) = items.last();
        let n = items.len() - 1;
        lemma_system_deletes(block, rest, address, key, b);
        let front = system_deletes(block, rest);
        let slots = update.storage.items();
        let storage = storage_deletes(block, other, slots);
        lemma_storage_deletes(block, other, slots, address, key, b);
        lemma_deletes_concat(front, storage);
        assert forall|c: Column, k: Seq<u8>| c != Column::StorageUpdates implies !#[trigger] names(
            all,
            c,
            k,
        ) by {
            lemma_names_concat(front, storage, c, k);
        }
        lemma_names_concat(front, storage, Column::StorageUpdates, sk);
        assert(forall|i: int| 0 <= i < rest.len() ==> rest[i] == items[i]);
        assert(items[n] == items.last());
        assert((exists|i: int|
            0 <= i < items.len() && (#[trigger] items[i]).0 == address && has_item(
                items[i].1.storage.items(),
                key,
            )) <==> (exists|i: int|
            0 <= i < rest.len() && (#[trigger] rest[i]).0 == address && has_item(
                rest[i].1.storage.items(),
                key,
            )) || (other == address && has_item(slots, key))) by {
            if exists|i: int|
                0 <= i < items.len() && (#[trigger] items[i]).0 == address && has_item(
                    items[i].1.storage.items(),
                    key,
                ) {
                let i = choose|i: int|
                    0 <= i < items.len() && (#[trigger] items[i]).0 == address && has_item(
                        items[i].1.storage.items(),
                        key,
                    );
                if i < n {
                    assert(rest[i].0 == address);
                }
            }
            if exists|i: int|
                0 <= i < rest.len() && (#[trigger] rest[i]).0 == address && has_item(
                    rest[i].1.storage.items(),
                    key,
                ) {
                let i = choose|i: int|
                    0 <= i < rest.len() && (#[trigger] rest[i]).0 == address && has_item(
                        rest[i].1.storage.items(),
                        key,
                    );
                assert(items[i].0 == address);
            }
            if other == address && has_item(slots, key) {
                assert(items[n].0 == address);
            }
        }
    }
}

proof fn lemma_state_hash_deletes<V>(block: u64, items: Seq<(Felt, V)>, address: Felt, b: u64)
    ensures
        only_deletes(state_hash_deletes(block, items)),
        forall|c: Column, k: Seq<u8>|
            c != Column::ContractStateHashes ==> !#[trigger] names(
                state_hash_deletes(block, items),
                c,
                k,
            ),
        names(
            state_hash_deletes(block, items),
            Column::ContractStateHashes,
            address@ + be_u64((u64::MAX - b) as u64),
        ) <==> block == b && has_item(items, address),
{
    let ops = state_hash_deletes(block, items);
    let c = Column::ContractStateHashes;
    let k = address@ + be_u64((u64::MAX - b) as u64);
    if names(ops, c, k) {
        let i = choose|i: int| 0 <= i < ops.len() && ops[i] == Op::Delete(c, k);
        lemma_after_address(
            address,
            items[i].0,
            be_u64((u64::MAX - b) as u64),
            be_u64((u64::MAX - block) as u64),
        );
        lemma_be_u64_injective((u64::MAX - b) as u64, (u64::MAX - block) as u64);
        assert(items[i].0 == address);
    }
    if block == b && has_item(items, address) {
        let i = choose|i: int| 0 <= i < items.len() && (#[trigger] items[i]).0 == address;
        assert(ops[i] == Op::Delete(c, k));
    }
}

/// The deletes of the state update of an orphaned block.
proof fn lemma_update_deletes(block: u64, data: StateUpdateData, address: Felt, key: Felt, b: u64)
    requires
        block <= u32::MAX,
        keys_once(data),
    ensures
        only_deletes(state_update_deletes(block, data)),
        forall|c: Column, k: Seq<u8>|
            c != Column::StorageUpdates && c != Column::NonceUpdates && c
                != Column::ContractStateHashes ==> !#[trigger] names(
                state_update_deletes(block, data),
                c,
                k,
            ),
        names(
            state_update_deletes(block, data),
            Column::ContractStateHashes,
            address@ + be_u64((u64::MAX - b) as u64),
        ) <==> block == b && mentions(data@, address),
        b <= u32::MAX ==> (names(
            state_update_deletes(block, data),
            Column::NonceUpdates,
            address@ + be_u32((u32::MAX - b) as u32),
        ) <==> block == b && sets_nonce(data@, address)),
        b <= u32::MAX ==> (names(
            state_update_deletes(block, data),
            Column::StorageUpdates,
            address@ + key@ + be_u32((u32::MAX - b) as u32),
        ) <==> block == b && sets_slot(data@, address, key)),
{
    let items = data.contract_updates.items();
    let systems = data.system_contract_updates.items();
    let w = contract_deletes(block, items);
    let x = system_deletes(block, systems);
    let y = state_hash_deletes(block, items);
    let z = state_hash_deletes(block, systems);
    let all = state_update_deletes(block, data);
    assert(all =~= w + x + y + z);
    let near: u64 = if b <= u32::MAX {
        b
    } else {
        0
    };
    lemma_contract_deletes(block, items, address, key, near);
    lemma_system_deletes(block, systems, address, key, near);
    lemma_state_hash_deletes(block, items, address, b);
    lemma_state_hash_deletes(block, systems, address, b);
    lemma_deletes_concat(w, x);
    lemma_deletes_concat(w + x, y);
    lemma_deletes_concat(w + x + y, z);
    assert forall|c: Column, k: Seq<u8>| #[trigger] names(all, c, k) <==> names(w, c, k) || names(
        x,
        c,
        k,
    ) || names(y, c, k) || names(z, c, k) by {
        lemma_names_concat(w, x, c, k);
        lemma_names_concat(w + x, y, c, k);
        lemma_names_concat(w + x + y, z, c, k);
    }
    lemma_mentions(data, address);
    lemma_sets_nonce(data, address);
    lemma_sets_slot(data, address, key);
    let hk = address@ + be_u64((u64::MAX - b) as u64);
    assert(!names(w, Column::ContractStateHashes, hk) && !names(x, Column::ContractStateHashes, hk));
    if b <= u32::MAX {
        let nk = address@ + be_u32((u32::MAX - b) as u32);
        let sk = address@ + key@ + be_u32((u32::MAX - b) as u32);
        assert(!names(x, Column::NonceUpdates, nk) && !names(y, Column::NonceUpdates, nk) && !names(
            z,
            Column::NonceUpdates,
            nk,
        ));
        assert(!names(y, Column::StorageUpdates, sk) && !names(z, Column::StorageUpdates, sk));
    }
}

/// What could be read of an orphaned block is in order.
pub open spec fn readable_in_order(orphan: OrphanedBlock, block: u64) -> bool {
    orphan.state_update matches Some(data) ==> block <= u32::MAX && keys_once(data)
}

/// The deletes that purge one block.
proof fn lemma_purge_names(
    block: u64,
    orphan: OrphanedBlock,
    address: Felt,
    key: Felt,
    hash: Felt,
    b: u64,
)
    requires
        readable_in_order(orphan, block),
    ensures
        only_deletes(purge_ops(block, orphan)),
        names(
            purge_ops(block, orphan),
            Column::ContractStateHashes,
            address@ + be_u64((u64::MAX - b) as u64),
        ) <==> block == b && (orphan.state_update matches Some(data) && mentions(data@, address)),
        b <= u32::MAX ==> (names(
            purge_ops(block, orphan),
            Column::NonceUpdates,
            address@ + be_u32((u32::MAX - b) as u32),
        ) <==> block == b && (orphan.state_update matches Some(data) && sets_nonce(data@, address))),
        b <= u32::MAX ==> (names(
            purge_ops(block, orphan),
            Column::StorageUpdates,
            address@ + key@ + be_u32((u32::MAX - b) as u32),
        ) <==> block == b && (orphan.state_update matches Some(data) && sets_slot(
            data@,
            address,
            key,
        ))),
        names(purge_ops(block, orphan), Column::TransactionHashes, hash@) <==> (
        orphan.transaction_hashes matches Some(hashes) && hashes@.contains(hash)),
        names(purge_ops(block, orphan), Column::StateUpdates, be_u64(b)) <==> block == b,
        names(purge_ops(block, orphan), Column::TransactionsAndReceipts, be_u64(b)) <==> block == b,
        names(purge_ops(block, orphan), Column::Events, be_u64(b)) <==> block == b,
        forall|c: Column, k: Seq<u8>|
            of_tries(c) ==> !#[trigger] names(purge_ops(block, orphan), c, k),
{
    let x: Seq<Op> = match orphan.transaction_hashes {
        Some(hashes) => hash_deletes(hashes@),
        None => seq![],
    };
    let y: Seq<Op> = match orphan.state_update {
        Some(data) => state_update_deletes(block, data),
        None => seq![],
    };
    let z = seq![
        Op::Delete(Column::StateUpdates, be_u64(block)),
        Op::Delete(Column::TransactionsAndReceipts, be_u64(block)),
        Op::Delete(Column::Events, be_u64(block)),
    ];
    let all = purge_ops(block, orphan);
    assert(all =~= x + y + z);
    if let Some(data) = orphan.state_update {
        lemma_update_deletes(block, data, address, key, b);
    }
    lemma_deletes_concat(x, y);
    lemma_deletes_concat(x + y, z);
    assert forall|c: Column, k: Seq<u8>| #[trigger] names(all, c, k) <==> names(x, c, k) || names(
        y,
        c,
        k,
    ) || names(z, c, k) by {
        lemma_names_concat(x, y, c, k);
        lemma_names_concat(x + y, z, c, k);
    }
    assert forall|c: Column, k: Seq<u8>| c != Column::TransactionHashes implies !#[trigger] names(
        x,
        c,
        k,
    ) by {
        if names(x, c, k) {
            let i = choose|i: int| 0 <= i < x.len() && x[i] == Op::Delete(c, k);
            assert(x[i] == Op::Delete(c, k));
        }
    }
    assert forall|c: Column, k: Seq<u8>| #[trigger] names(z, c, k) <==> (k == be_u64(block) && (c
        == Column::StateUpdates || c == Column::TransactionsAndReceipts || c == Column::Events)) by {
        assert(z[0] == Op::Delete(Column::StateUpdates, be_u64(block)));
        assert(z[1] == Op::Delete(Column::TransactionsAndReceipts, be_u64(block)));
        assert(z[2] == Op::Delete(Column::Events, be_u64(block)));
        if names(z, c, k) {
            let i = choose|i: int| 0 <= i < z.len() && z[i] == Op::Delete(c, k);
            assert(i == 0 || i == 1 || i == 2);
        }
    }
    assert(names(x, Column::TransactionHashes, hash@) <==> (orphan.transaction_hashes matches Some(
        hashes,
    ) && hashes@.contains(hash))) by {
        if let Some(hashes) = orphan.transaction_hashes {
            let op = Op::Delete(Column::TransactionHashes, hash@);
            if names(x, Column::TransactionHashes, hash@) {
                let i = choose|i: int| 0 <= i < x.len() && x[i] == op;
                Felt::lemma_view_injective(hashes@[i], hash);
                assert(hashes@[i] == hash);
            }
            if hashes@.contains(hash) {
                let i = choose|i: int| 0 <= i < hashes@.len() && hashes@[i] == hash;
                assert(x[i] == op);
            }
        }
    }
    if be_u64(b) == be_u64(block) {
        lemma_be_u64_injective(b, block);
    }
    if let None = orphan.state_update {
        assert(forall|c: Column, k: Seq<u8>| !#[trigger] names(y, c, k));
    }
    assert(!names(y, Column::TransactionHashes, hash@));
    assert(!names(y, Column::StateUpdates, be_u64(b)));
    assert(!names(y, Column::TransactionsAndReceipts, be_u64(b)));
    assert(!names(y, Column::Events, be_u64(b)));
}

/// The deletes that purge consecutive blocks are those that purge one of them.
proof fn lemma_purge_all_names(from: u64, orphans: Seq<OrphanedBlock>, c: Column, k: Seq<u8>)
    requires
        from + orphans.len() <= 0x1_0000_0000_0000_0000,
        forall|i: int|
            0 <= i < orphans.len() ==> readable_in_order(#[trigger] orphans[i], (from + i) as u64),
    ensures
        only_deletes(purge_all_ops(from, orphans)),
        names(purge_all_ops(from, orphans), c, k) <==> exists|i: int|
            0 <= i < orphans.len() && names(
                purge_ops((from + i) as u64, #[trigger] orphans[i]),
                c,
                k,
            ),
    decreases orphans.len(),
{
    if orphans.len() > 0 {
        let rest = orphans.drop_last();
        let n = orphans.len() - 1;
        assert(forall|i: int| 0 <= i < rest.len() ==> rest[i] == orphans[i]);
        lemma_purge_all_names(from, rest, c, k);
        let front = purge_all_ops(from, rest);
        let last = purge_ops((from + n) as u64, orphans[n]);
        lemma_purge_names((from + n) as u64, orphans[n], Felt::zero(), Felt::zero(), Felt::zero(), 0);
        lemma_deletes_concat(front, last);
        lemma_names_concat(front, last, c, k);
        assert(purge_all_ops(from, orphans) == front + last);
        if names(front, c, k) {
            let i = choose|i: int|
                0 <= i < rest.len() && names(purge_ops((from + i) as u64, #[trigger] rest[i]), c, k);
            assert(names(purge_ops((from + i) as u64, orphans[i]), c, k));
        }
        if exists|i: int|
            0 <= i < orphans.len() && names(
                purge_ops((from + i) as u64, #[trigger] orphans[i]),
                c,
                k,
            ) {
            let i = choose|i: int|
                0 <= i < orphans.len() && names(
                    purge_ops((from + i) as u64, #[trigger] orphans[i]),
                    c,
                    k,
                );
            if i < n {
                assert(names(purge_ops((from + i) as u64, rest[i]), c, k));
            }
        }
    } else {
        assert(purge_all_ops(from, orphans) =~= Seq::<Op>::empty());
    }
}

/// What could be read of block `b`, where only the key-value store has it: it is above the highest
/// block of the relational store, and not above that of the key-value store.
pub open spec fn orphan_at(
    sqlite_highest: Option<u64>,
    rocksdb_highest: Option<u64>,
    orphans: Seq<OrphanedBlock>,
    b: u64,
) -> Option<OrphanedBlock> {
    match (rocksdb_highest, sqlite_highest) {
        (Some(top), Some(confirmed)) => if confirmed < b <= top {
            Some(orphans[b - confirmed - 1])
        } else {
            None
        },
        (Some(top), None) => if b <= top {
            Some(orphans[b as int])
        } else {
            None
        },
        (None, _) => None,
    }
}

/// What could be read of the orphaned blocks is in order.
pub open spec fn orphans_in_order(orphans: Seq<OrphanedBlock>) -> bool {
    forall|i: int|
        0 <= i < orphans.len() ==> ((#[trigger] orphans[i]).state_update matches Some(data)
            ==> keys_once(data))
}

/// A reconciliation does to the columns that do not belong to the tries what the purge of the
/// orphaned blocks does.
proof fn lemma_reconciled_column(
    db: Contents,
    sqlite_highest: Option<u64>,
    orphans: Seq<OrphanedBlock>,
    rows: RootRows,
    c: Column,
)
    requires
        !of_tries(c),
    ensures
        apply_ops(db, reconcile_ops(db, sqlite_highest, orphans, rows))[c] == apply_ops(
            db,
            block_ops(
                sqlite_highest,
                highest_state_update(db[Column::StateUpdates])->Ok_0,
                orphans,
            ),
        )[c],
{
    let top = top_of(sqlite_highest);
    let blocks = block_ops(
        sqlite_highest,
        highest_state_update(db[Column::StateUpdates])->Ok_0,
        orphans,
    );
    let x = trie_ops(db, TrieColumn::Class, top, rows.class);
    let y = trie_ops(db, TrieColumn::Contract, top, rows.contract);
    let z = trie_ops(db, TrieColumn::Storage, top, rows.storage);
    let tail = x + y + z;
    assert(reconcile_ops(db, sqlite_highest, orphans, rows) =~= blocks + tail);
    lemma_spares_concat(x, y, c);
    lemma_spares_concat(x + y, z, c);
    lemma_apply_concat(db, blocks, tail);
    lemma_spared(apply_ops(db, blocks), tail, c);
}

/// Whether a reconciliation deletes a key outside the tries.
proof fn lemma_reconciled_key(
    db: Contents,
    sqlite_highest: Option<u64>,
    orphans: Seq<OrphanedBlock>,
    rows: RootRows,
    c: Column,
    k: Seq<u8>,
)
    requires
        orphans_given(db, sqlite_highest, orphans),
        orphans_in_order(orphans),
        highest_state_update(db[Column::StateUpdates]) is Ok,
        !of_tries(c),
    ensures
        ({
            let rocks = highest_state_update(db[Column::StateUpdates])->Ok_0;
            let after = apply_ops(db, reconcile_ops(db, sqlite_highest, orphans, rows))[c];
            &&& after.contains_key(k) <==> db[c].contains_key(k) && !(exists|x: u64|
                #[trigger] orphan_at(sqlite_highest, rocks, orphans, x) is Some && names(
                    purge_ops(x, orphan_at(sqlite_highest, rocks, orphans, x)->0),
                    c,
                    k,
                ))
            &&& after.contains_key(k) ==> after[k] == db[c][k]
        }),
{
    let rocks = highest_state_update(db[Column::StateUpdates])->Ok_0;
    let ops = block_ops(sqlite_highest, rocks, orphans);
    lemma_reconciled_column(db, sqlite_highest, orphans, rows, c);
    match orphan_range(sqlite_highest, rocks) {
        None => {
            assert(ops =~= Seq::<Op>::empty());
            assert(apply_ops(db, ops) == db);
            assert forall|x: u64| #[trigger] orphan_at(sqlite_highest, rocks, orphans, x) is None by {}
        },
        Some((from, to)) => {
            assert forall|i: int| 0 <= i < orphans.len() implies readable_in_order(
                #[trigger] orphans[i],
                (from + i) as u64,
            ) by {}
            lemma_purge_all_names(from, orphans, c, k);
            lemma_only_deletes(db, ops, c);
            if names(ops, c, k) {
                let i = choose|i: int|
                    0 <= i < orphans.len() && names(
                        purge_ops((from + i) as u64, #[trigger] orphans[i]),
                        c,
                        k,
                    );
                let x = (from + i) as u64;
                assert(orphan_at(sqlite_highest, rocks, orphans, x) == Some(orphans[i]));
            }
            if exists|x: u64|
                #[trigger] orphan_at(sqlite_highest, rocks, orphans, x) is Some && names(
                    purge_ops(x, orphan_at(sqlite_highest, rocks, orphans, x)->0),
                    c,
                    k,
                ) {
                let x = choose|x: u64|
                    #[trigger] orphan_at(sqlite_highest, rocks, orphans, x) is Some && names(
                        purge_ops(x, orphan_at(sqlite_highest, rocks, orphans, x)->0),
                        c,
                        k,
                    );
                let i = x - from;
                assert(orphans[i] == orphan_at(sqlite_highest, rocks, orphans, x)->0);
                assert(names(purge_ops((from + i) as u64, orphans[i]), c, k));
            }
        },
    }
}

/// The purge of one orphaned block is the purge of a block that is in order.
proof fn lemma_orphan_in_order(
    db: Contents,
    sqlite_highest: Option<u64>,
    orphans: Seq<OrphanedBlock>,
    x: u64,
)
    requires
        orphans_given(db, sqlite_highest, orphans),
        orphans_in_order(orphans),
        highest_state_update(db[Column::StateUpdates]) is Ok,
    ensures
        orphan_at(
            sqlite_highest,
            highest_state_update(db[Column::StateUpdates])->Ok_0,
            orphans,
            x,
        ) matches Some(orphan) ==> readable_in_order(orphan, x),
{
    let rocks = highest_state_update(db[Column::StateUpdates])->Ok_0;
    if let Some(orphan) = orphan_at(sqlite_highest, rocks, orphans, x) {
        if let Some((from, to)) = orphan_range(sqlite_highest, rocks) {
            assert(orphans[x - from] == orphan);
        }
    }
}

/// A reconciliation deletes the state hash of a contract at a block exactly where the block is
/// orphaned and its state update could be read and speaks of the contract.
pub proof fn law_reconciled_state_hashes(
    db: Contents,
    sqlite_highest: Option<u64>,
    orphans: Seq<OrphanedBlock>,
    rows: RootRows,
    address: Felt,
    b: u64,
)
    requires
        orphans_given(db, sqlite_highest, orphans),
        orphans_in_order(orphans),
        highest_state_update(db[Column::StateUpdates]) is Ok,
    ensures
        ({
            let rocks = highest_state_update(db[Column::StateUpdates])->Ok_0;
            let after = apply_ops(db, reconcile_ops(db, sqlite_highest, orphans, rows));
            let m = db[Column::ContractStateHashes];
            let n = after[Column::ContractStateHashes];
            let k = address@ + be_u64((u64::MAX - b) as u64);
            &&& n.contains_key(k) <==> m.contains_key(k) && !(orphan_at(
                sqlite_highest,
                rocks,
                orphans,
                b,
            ) matches Some(o) && o.state_update matches Some(data) && mentions(data@, address))
            &&& n.contains_key(k) ==> n[k] == m[k]
        }),
{
    let rocks = highest_state_update(db[Column::StateUpdates])->Ok_0;
    let c = Column::ContractStateHashes;
    let k = address@ + be_u64((u64::MAX - b) as u64);
    lemma_reconciled_key(db, sqlite_highest, orphans, rows, c, k);
    assert forall|x: u64| #[trigger] orphan_at(sqlite_highest, rocks, orphans, x) is Some implies (names(
        purge_ops(x, orphan_at(sqlite_highest, rocks, orphans, x)->0),
        c,
        k,
    ) <==> x == b && (orphan_at(sqlite_highest, rocks, orphans, x)->0.state_update matches Some(data)
        && mentions(data@, address))) by {
        lemma_orphan_in_order(db, sqlite_highest, orphans, x);
        lemma_purge_names(
            x,
            orphan_at(sqlite_highest, rocks, orphans, x)->0,
            address,
            address,
            address,
            b,
        );
    }
}

/// A reconciliation deletes the nonce of a contract at a block exactly where the block is orphaned
/// and its state update could be read and sets the nonce; and an entry of storage likewise.
pub proof fn law_reconciled_entries(
    db: Contents,
    sqlite_highest: Option<u64>,
    orphans: Seq<OrphanedBlock>,
    rows: RootRows,
    address: Felt,
    key: Felt,
    b: u64,
)
    requires
        orphans_given(db, sqlite_highest, orphans),
        orphans_in_order(orphans),
        highest_state_update(db[Column::StateUpdates]) is Ok,
        b <= u32::MAX,
    ensures
        ({
            let rocks = highest_state_update(db[Column::StateUpdates])->Ok_0;
            let after = apply_ops(db, reconcile_ops(db, sqlite_highest, orphans, rows));
            let orphan = orphan_at(sqlite_highest, rocks, orphans, b);
            let k = address@ + be_u32((u32::MAX - b) as u32);
            let s = address@ + key@ + be_u32((u32::MAX - b) as u32);
            &&& after[Column::NonceUpdates].contains_key(k) <==> db[Column::NonceUpdates].contains_key(
                k,
            ) && !(orphan matches Some(o) && o.state_update matches Some(data) && sets_nonce(
                data@,
                address,
            ))
            &&& after[Column::NonceUpdates].contains_key(k) ==> after[Column::NonceUpdates][k]
                == db[Column::NonceUpdates][k]
            &&& after[Column::StorageUpdates].contains_key(s)
                <==> db[Column::StorageUpdates].contains_key(s) && !(orphan matches Some(o)
                && o.state_update matches Some(data) && sets_slot(data@, address, key))
            &&& after[Column::StorageUpdates].contains_key(s) ==> after[Column::StorageUpdates][s]
                == db[Column::StorageUpdates][s]
        }),
{
    let rocks = highest_state_update(db[Column::StateUpdates])->Ok_0;
    let k = address@ + be_u32((u32::MAX - b) as u32);
    let s = address@ + key@ + be_u32((u32::MAX - b) as u32);
    lemma_reconciled_key(db, sqlite_highest, orphans, rows, Column::NonceUpdates, k);
    lemma_reconciled_key(db, sqlite_highest, orphans, rows, Column::StorageUpdates, s);
    assert forall|x: u64| #[trigger] orphan_at(sqlite_highest, rocks, orphans, x) is Some implies ({
        let o = orphan_at(sqlite_highest, rocks, orphans, x)->0;
        &&& names(purge_ops(x, o), Column::NonceUpdates, k) <==> x == b && (
        o.state_update matches Some(data) && sets_nonce(data@, address))
        &&& names(purge_ops(x, o), Column::StorageUpdates, s) <==> x == b && (
        o.state_update matches Some(data) && sets_slot(data@, address, key))
    }) by {
        lemma_orphan_in_order(db, sqlite_highest, orphans, x);
        lemma_purge_names(
            x,
            orphan_at(sqlite_highest, rocks, orphans, x)->0,
            address,
            key,
            address,
            b,
        );
    }
}

/// A reconciliation deletes where a transaction is exactly where the transaction is among those
/// that could be read of an orphaned block; and what is stored under a block number exactly where
/// the block is orphaned.
pub proof fn law_reconciled_blocks(
    db: Contents,
    sqlite_highest: Option<u64>,
    orphans: Seq<OrphanedBlock>,
    rows: RootRows,
    hash: Felt,
    b: u64,
)
    requires
        orphans_given(db, sqlite_highest, orphans),
        orphans_in_order(orphans),
        highest_state_update(db[Column::StateUpdates]) is Ok,
    ensures
        ({
            let rocks = highest_state_update(db[Column::StateUpdates])->Ok_0;
            let after = apply_ops(db, reconcile_ops(db, sqlite_highest, orphans, rows));
            let k = be_u64(b);
            let orphaned = orphan_at(sqlite_highest, rocks, orphans, b) is Some;
            &&& after[Column::TransactionHashes].contains_key(hash@)
                <==> db[Column::TransactionHashes].contains_key(hash@) && !(exists|x: u64|
                #[trigger] orphan_at(sqlite_highest, rocks, orphans, x) matches Some(o)
                    && o.transaction_hashes matches Some(hashes) && hashes@.contains(hash))
            &&& after[Column::TransactionHashes].contains_key(hash@)
                ==> after[Column::TransactionHashes][hash@] == db[Column::TransactionHashes][hash@]
            &&& after[Column::StateUpdates].contains_key(k) <==> db[Column::StateUpdates].contains_key(
                k,
            ) && !orphaned
            &&& after[Column::StateUpdates].contains_key(k) ==> after[Column::StateUpdates][k]
                == db[Column::StateUpdates][k]
            &&& after[Column::TransactionsAndReceipts].contains_key(k)
                <==> db[Column::TransactionsAndReceipts].contains_key(k) && !orphaned
            &&& after[Column::TransactionsAndReceipts].contains_key(k)
                ==> after[Column::TransactionsAndReceipts][k]
                == db[Column::TransactionsAndReceipts][k]
            &&& after[Column::Events].contains_key(k) <==> db[Column::Events].contains_key(k)
                && !orphaned
            &&& after[Column::Events].contains_key(k) ==> after[Column::Events][k]
                == db[Column::Events][k]
        }),
{
    let rocks = highest_state_update(db[Column::StateUpdates])->Ok_0;
    let k = be_u64(b);
    lemma_reconciled_key(db, sqlite_highest, orphans, rows, Column::TransactionHashes, hash@);
    lemma_reconciled_key(db, sqlite_highest, orphans, rows, Column::StateUpdates, k);
    lemma_reconciled_key(db, sqlite_highest, orphans, rows, Column::TransactionsAndReceipts, k);
    lemma_reconciled_key(db, sqlite_highest, orphans, rows, Column::Events, k);
    assert forall|x: u64| #[trigger] orphan_at(sqlite_highest, rocks, orphans, x) is Some implies ({
        let o = orphan_at(sqlite_highest, rocks, orphans, x)->0;
        &&& names(purge_ops(x, o), Column::TransactionHashes, hash@) <==> (
        o.transaction_hashes matches Some(hashes) && hashes@.contains(hash))
        &&& names(purge_ops(x, o), Column::StateUpdates, k) <==> x == b
        &&& names(purge_ops(x, o), Column::TransactionsAndReceipts, k) <==> x == b
        &&& names(purge_ops(x, o), Column::Events, k) <==> x == b
    }) by {
        lemma_orphan_in_order(db, sqlite_highest, orphans, x);
        lemma_purge_names(x, orphan_at(sqlite_highest, rocks, orphans, x)->0, hash, hash, hash, b);
    }
}

/// A reconciliation leaves everything that is stored for a block of the relational store as it is:
/// what is stored under its number, and its nonces, storage entries and state hashes.
pub proof fn law_confirmed_blocks_survive(
    db: Contents,
    confirmed: u64,
    orphans: Seq<OrphanedBlock>,
    rows: RootRows,
    address: Felt,
    key: Felt,
    b: u64,
)
    requires
        orphans_given(db, Some(confirmed), orphans),
        orphans_in_order(orphans),
        highest_state_update(db[Column::StateUpdates]) is Ok,
        b <= confirmed,
        b <= u32::MAX,
    ensures
        ({
            let after = apply_ops(db, reconcile_ops(db, Some(confirmed), orphans, rows));
            let same = |c: Column, k: Seq<u8>|
                (after[c].contains_key(k) <==> db[c].contains_key(k)) && (after[c].contains_key(k)
                    ==> after[c][k] == db[c][k]);
            let short = be_u32((u32::MAX - b) as u32);
            &&& same(Column::StateUpdates, be_u64(b))
            &&& same(Column::TransactionsAndReceipts, be_u64(b))
            &&& same(Column::Events, be_u64(b))
            &&& same(Column::NonceUpdates, address@ + short)
            &&& same(Column::StorageUpdates, address@ + key@ + short)
            &&& same(Column::ContractStateHashes, address@ + be_u64((u64::MAX - b) as u64))
        }),
{
    law_reconciled_blocks(db, Some(confirmed), orphans, rows, address, b);
    law_reconciled_entries(db, Some(confirmed), orphans, rows, address, key, b);
    law_reconciled_state_hashes(db, Some(confirmed), orphans, rows, address, b);
}

/// The highest block of a column of state updates has a state update, and no block above it has
/// one. There is none exactly where the column is empty, and it cannot be told only where a key of
/// the column is no block number.
pub proof fn law_highest_state_update(m: ColumnMap, y: u64)
    requires
        m.dom().finite(),
    ensures
        match highest_state_update(m) {
            Ok(Some(x)) => m.contains_key(be_u64(x)) && (m.contains_key(be_u64(y)) ==> y <= x),
            Ok(None) => forall|k: Seq<u8>| !#[trigger] m.contains_key(k),
            Err(_) => exists|k: Seq<u8>| #[trigger] m.contains_key(k) && k.len() != 8,
        },
{
    if m.dom().is_empty() {
        assert forall|k: Seq<u8>| !#[trigger] m.contains_key(k) by {
            if m.contains_key(k) {
                assert(m.dom().contains(k));
            }
        }
    } else {
        lemma_last_key_exists(m);
        let k = choose|k: Seq<u8>| is_last_key(m, k);
        assert(m.contains_key(k));
        if k.len() == 8 {
            lemma_be_value_bytes(k);
            let x = highest_state_update(m)->Ok_0->0;
            assert(be_u64(x) == k);
            lemma_be_u64_order(x, y);
            lemma_be_u64_order(y, x);
            lemma_lex_trichotomy(be_u64(y), k);
            if m.contains_key(be_u64(y)) && be_u64(y) == k {
                lemma_be_u64_injective(x, y);
            }
        }
    }
}

/// After a reconciliation no block above the highest one of the relational store has a state update.
pub proof fn law_no_block_above_the_confirmed_one(
    db: Contents,
    sqlite_highest: Option<u64>,
    orphans: Seq<OrphanedBlock>,
    rows: RootRows,
    b: u64,
)
    requires
        orphans_given(db, sqlite_highest, orphans),
        orphans_in_order(orphans),
        highest_state_update(db[Column::StateUpdates]) is Ok,
        db[Column::StateUpdates].dom().finite(),
        sqlite_highest matches Some(confirmed) ==> confirmed < b,
    ensures
        !apply_ops(
            db,
            reconcile_ops(db, sqlite_highest, orphans, rows),
        )[Column::StateUpdates].contains_key(be_u64(b)),
{
    law_reconciled_blocks(db, sqlite_highest, orphans, rows, Felt::zero(), b);
    law_highest_state_update(db[Column::StateUpdates], b);
}

} // verus!
