//! What a reconciliation keeps, what it removes, and that a second one finds nothing to do.
use vstd::prelude::*;

use crate::bytes::{
    be_u64, lemma_be_u64_injective, lemma_be_u64_order, lemma_be_u64_value, lemma_be_value_bytes,
    lemma_lex_trichotomy, lex_lt,
};
use crate::storage::columns::{without_range, Column, ColumnMap};
use crate::storage::reconcile::{
    block_ops, confirmed_tail, contract_deletes, found_next, found_ops, hash_deletes,
    highest_state_update, is_last_key,
    orphan_range, orphans_given, purge_all_ops, purge_ops, reconcile_ops, rewind_ops, rewound,
    search_root, state_hash_deletes, state_update_deletes, storage_deletes, stored_counter,
    system_deletes, top_of, trie_counter, trie_ops, FoundTrie, OrphanedBlock, RootRow,
    RootRows,
};
use crate::storage::store::{apply_op, apply_ops, lemma_apply_concat, Contents, Op};
use crate::storage::tail_laws::{complete, is_path, law_confirmed_tail, reachable};
use crate::storage::tail_search::{
    full_search, lemma_full_search, lemma_search_ends, node_at, refs, Found,
};
use crate::storage::trie::{
    lemma_next_index_keys, next_index_key, trie_column, TrieColumn,
};

verus! {

/// The column that a write is made to.
pub open spec fn op_column(op: Op) -> Column {
    match op {
        Op::Put(c, _, _) => c,
        Op::Delete(c, _) => c,
        Op::DeleteRange(c, _, _) => c,
    }
}

/// No write of a batch is made to column `c`.
pub open spec fn spares(ops: Seq<Op>, c: Column) -> bool {
    forall|i: int| 0 <= i < ops.len() ==> op_column(#[trigger] ops[i]) != c
}

/// A batch leaves the columns alone that it makes no write to.
pub proof fn lemma_spared(db: Contents, ops: Seq<Op>, c: Column)
    requires
        spares(ops, c),
    ensures
        apply_ops(db, ops)[c] == db[c],
    decreases ops.len(),
{
    if ops.len() > 0 {
        let front = ops.drop_last();
        assert(forall|i: int| 0 <= i < front.len() ==> front[i] == ops[i]);
        assert(op_column(ops[ops.len() - 1]) != c);
        lemma_spared(db, front, c);
    }
}

pub proof fn lemma_spares_concat(a: Seq<Op>, b: Seq<Op>, c: Column)
    requires
        spares(a, c),
        spares(b, c),
    ensures
        spares(a + b, c),
{
    assert forall|i: int| 0 <= i < (a + b).len() implies op_column(#[trigger] (a + b)[i]) != c by {
        if i < a.len() {
            assert((a + b)[i] == a[i]);
        } else {
            assert((a + b)[i] == b[i - a.len()]);
        }
    }
}

/// What is left of a trie's column when the indices from `new` up to `counter` are given up.
pub open spec fn cut(m: ColumnMap, new: u64, counter: u64) -> ColumnMap {
    if new < counter {
        without_range(m, be_u64(new), be_u64(counter))
    } else {
        m
    }
}

/// An index is left in a cut column exactly where it is outside the indices given up.
pub proof fn lemma_cut_index(m: ColumnMap, new: u64, counter: u64, x: u64)
    ensures
        cut(m, new, counter).contains_key(be_u64(x)) <==> m.contains_key(be_u64(x)) && !(new <= x
            < counter),
        cut(m, new, counter).contains_key(be_u64(x)) ==> cut(m, new, counter)[be_u64(x)]
            == m[be_u64(x)],
{
    lemma_be_u64_order(new, x);
    lemma_be_u64_order(x, new);
    lemma_be_u64_order(x, counter);
    lemma_lex_trichotomy(be_u64(new), be_u64(x));
    if be_u64(new) == be_u64(x) {
        lemma_be_u64_injective(new, x);
    }
}

/// What the writes for one trie do to the store.
pub proof fn lemma_rewind(db: Contents, counter: u64, tail: Option<u64>, t: TrieColumn)
    ensures
        ({
            let new = rewound(counter, tail);
            let after = apply_ops(db, rewind_ops(counter, tail, t));
            &&& after[trie_column(t)] == cut(db[trie_column(t)], new, counter)
            &&& new < counter ==> after[Column::TrieNextIndex] == db[Column::TrieNextIndex].insert(
                next_index_key(t),
                be_u64(new),
            )
            &&& new >= counter ==> after == db
            &&& forall|c: Column|
                c != trie_column(t) && c != Column::TrieNextIndex ==> #[trigger] after[c] == db[c]
        }),
{
    let new = rewound(counter, tail);
    let ops = rewind_ops(counter, tail, t);
    if new < counter {
        let first = ops.drop_last();
        assert(first =~= seq![ops[0]]);
        assert(first.drop_last() =~= Seq::<Op>::empty());
        assert(apply_ops(db, first.drop_last()) == db);
        assert(apply_ops(db, first) == apply_op(db, ops[0]));
        assert(apply_ops(db, ops) == apply_op(apply_ops(db, first), ops[1]));
    } else {
        assert(ops =~= Seq::<Op>::empty());
    }
}

/// The nodes that a confirmed root leads to are left as they are when the indices above its tail
/// are given up.
proof fn lemma_confirmed_kept(m: ColumnMap, root: u64, counter: u64, tail: u64, x: u64)
    requires
        full_search(m, root, counter) == Found::Tail(tail),
        reachable(m, root, x),
    ensures
        node_at(cut(m, rewound(counter, Some(tail)), counter), x) == node_at(m, x),
{
    law_confirmed_tail(m, root, counter);
    let new = rewound(counter, Some(tail));
    lemma_cut_index(m, new, counter, x);
    if new < counter {
        assert(complete(m, root, tail));
    }
}

/// A reconciliation of a trie leaves every node that its confirmed root leads to as it is.
pub proof fn law_confirmed_nodes_survive(
    db: Contents,
    t: TrieColumn,
    top: u64,
    row: Option<RootRow>,
    x: u64,
)
    requires
        stored_counter(db, t) is Ok,
        search_root(stored_counter(db, t)->Ok_0, top, row) is Some,
        reachable(
            db[trie_column(t)],
            search_root(stored_counter(db, t)->Ok_0, top, row)->Some_0,
            x,
        ),
    ensures
        node_at(apply_ops(db, trie_ops(db, t, top, row))[trie_column(t)], x) == node_at(
            db[trie_column(t)],
            x,
        ),
{
    let counter = stored_counter(db, t)->Ok_0;
    let tail = confirmed_tail(db, t, counter, top, row);
    lemma_rewind(db, counter, tail, t);
    let root = search_root(counter, top, row)->Some_0;
    if let Some(y) = tail {
        lemma_confirmed_kept(db[trie_column(t)], root, counter, y, x);
    }
}

/// After a reconciliation of a trie, no index from its next free one up to the former next free one
/// holds anything.
pub proof fn law_orphans_removed(
    db: Contents,
    t: TrieColumn,
    top: u64,
    row: Option<RootRow>,
    x: u64,
)
    requires
        stored_counter(db, t) is Ok,
        trie_counter(db, t, top, row) <= x < stored_counter(db, t)->Ok_0,
    ensures
        !apply_ops(db, trie_ops(db, t, top, row))[trie_column(t)].contains_key(be_u64(x)),
{
    let counter = stored_counter(db, t)->Ok_0;
    let tail = confirmed_tail(db, t, counter, top, row);
    lemma_rewind(db, counter, tail, t);
    lemma_cut_index(db[trie_column(t)], rewound(counter, tail), counter, x);
}

/// A path is the same in a column that keeps the nodes on it.
pub proof fn lemma_path_kept(m: ColumnMap, n: ColumnMap, root: u64, p: Seq<u64>)
    requires
        is_path(m, root, p),
        forall|x: u64| #[trigger] reachable(m, root, x) ==> node_at(n, x) == node_at(m, x),
    ensures
        is_path(n, root, p),
{
    assert forall|i: int| #![trigger p[i]] 0 < i < p.len() implies p[i] >= root && node_at(
        n,
        p[i - 1],
    ) is Some && refs(node_at(n, p[i - 1])->Some_0).contains(p[i]) by {
        let q = p.subrange(0, i);
        assert(is_path(m, root, q)) by {
            assert forall|j: int| #![trigger q[j]] 0 < j < q.len() implies q[j] >= root && node_at(
                m,
                q[j - 1],
            ) is Some && refs(node_at(m, q[j - 1])->Some_0).contains(q[j]) by {
                assert(q[j] == p[j]);
            }
        }
        assert(q.last() == p[i - 1]);
        assert(reachable(m, root, p[i - 1]));
    }
}

pub proof fn lemma_path_back(m: ColumnMap, n: ColumnMap, root: u64, p: Seq<u64>)
    requires
        is_path(n, root, p),
        forall|x: u64| #[trigger] reachable(m, root, x) ==> node_at(n, x) == node_at(m, x),
    ensures
        is_path(m, root, p),
    decreases p.len(),
{
    if p.len() > 1 {
        let q = p.drop_last();
        assert(is_path(n, root, q)) by {
            assert forall|j: int| #![trigger q[j]] 0 < j < q.len() implies q[j] >= root && node_at(
                n,
                q[j - 1],
            ) is Some && refs(node_at(n, q[j - 1])->Some_0).contains(q[j]) by {
                assert(q[j] == p[j]);
            }
        }
        lemma_path_back(m, n, root, q);
        assert(reachable(m, root, q.last()));
        assert forall|i: int| #![trigger p[i]] 0 < i < p.len() implies p[i] >= root && node_at(
            m,
            p[i - 1],
        ) is Some && refs(node_at(m, p[i - 1])->Some_0).contains(p[i]) by {
            if i < q.len() {
                assert(q[i] == p[i]);
            } else {
                assert(p[i - 1] == q.last());
            }
        }
    }
}

/// Once the indices above a tail are given up, a search up to the new counter finds that tail again.
proof fn lemma_tail_again(m: ColumnMap, root: u64, counter: u64, tail: u64)
    requires
        m.dom().finite(),
        full_search(m, root, counter) == Found::Tail(tail),
        tail + 1 < counter,
    ensures
        full_search(cut(m, (tail + 1) as u64, counter), root, (tail + 1) as u64) == Found::Tail(
            tail,
        ),
{
    let new = (tail + 1) as u64;
    let n = cut(m, new, counter);
    law_confirmed_tail(m, root, counter);
    assert(complete(m, root, tail));
    assert(n.dom().subset_of(m.dom()));
    vstd::set_lib::lemma_len_subset(n.dom(), m.dom());
    lemma_search_ends(n, root, new);
    lemma_full_search(n, root, new, n.dom().len() + 1);
    law_confirmed_tail(n, root, new);
    assert forall|x: u64| #[trigger] reachable(m, root, x) implies node_at(n, x) == node_at(
        m,
        x,
    ) by {
        lemma_confirmed_kept(m, root, counter, tail, x);
    }
    assert forall|x: u64| reachable(m, root, x) <==> #[trigger] reachable(n, root, x) by {
        if reachable(m, root, x) {
            let p = choose|p: Seq<u64>| #[trigger] is_path(m, root, p) && p.last() == x;
            lemma_path_kept(m, n, root, p);
        }
        if reachable(n, root, x) {
            let p = choose|p: Seq<u64>| #[trigger] is_path(n, root, p) && p.last() == x;
            lemma_path_back(m, n, root, p);
        }
    }
    match full_search(n, root, new) {
        Found::Tail(y) => {
            assert(reachable(m, root, y));
            assert(reachable(n, root, tail));
        },
        Found::Aborted => {
            let x = choose|x: u64| #[trigger] reachable(n, root, x) && node_at(n, x) is None;
            assert(reachable(m, root, x));
        },
        Found::Unfinished => {},
    }
}

/// Once a trie has been reconciled, reconciling it again does nothing.
proof fn lemma_trie_again(
    db: Contents,
    after: Contents,
    t: TrieColumn,
    top: u64,
    row: Option<RootRow>,
)
    requires
        stored_counter(db, t) is Ok,
        db[trie_column(t)].dom().finite(),
        after[trie_column(t)] == cut(
            db[trie_column(t)],
            trie_counter(db, t, top, row),
            stored_counter(db, t)->Ok_0,
        ),
        stored_counter(after, t) == Ok::<u64, usize>(trie_counter(db, t, top, row)),
    ensures
        trie_ops(after, t, top, row) == Seq::<Op>::empty(),
        trie_counter(after, t, top, row) == trie_counter(db, t, top, row),
{
    let counter = stored_counter(db, t)->Ok_0;
    let tail = confirmed_tail(db, t, counter, top, row);
    let new = rewound(counter, tail);
    if new < counter {
        let root = search_root(counter, top, row)->Some_0;
        lemma_tail_again(db[trie_column(t)], root, counter, tail->Some_0);
    } else {
        assert(after[trie_column(t)] == db[trie_column(t)]);
    }
    assert(trie_ops(after, t, top, row) =~= Seq::<Op>::empty());
}

/// The writes for a trie leave the other tries as they are.
proof fn lemma_other_trie(
    db: Contents,
    counter: u64,
    tail: Option<u64>,
    t: TrieColumn,
    u: TrieColumn,
)
    requires
        t != u,
    ensures
        apply_ops(db, rewind_ops(counter, tail, t))[trie_column(u)] == db[trie_column(u)],
        stored_counter(apply_ops(db, rewind_ops(counter, tail, t)), u) == stored_counter(db, u),
{
    lemma_rewind(db, counter, tail, t);
    lemma_next_index_keys(t, u);
}

/// The stored next free index after the writes for a trie.
proof fn lemma_counter_after(db: Contents, counter: u64, tail: Option<u64>, t: TrieColumn)
    requires
        stored_counter(db, t) == Ok::<u64, usize>(counter),
    ensures
        stored_counter(apply_ops(db, rewind_ops(counter, tail, t)), t) == Ok::<u64, usize>(
            rewound(counter, tail),
        ),
{
    lemma_rewind(db, counter, tail, t);
    lemma_be_u64_value(rewound(counter, tail));
}

/// Whether a column holds what is stored under block numbers.
pub open spec fn block_keyed(c: Column) -> bool {
    c == Column::StateUpdates || c == Column::TransactionsAndReceipts || c == Column::Events
}

/// Whether a column belongs to the tries.
pub open spec fn of_tries(c: Column) -> bool {
    c == Column::TrieClass || c == Column::TrieContract || c == Column::TrieStorage || c
        == Column::TrieNextIndex
}

proof fn lemma_contract_deletes_spare(
    block: u64,
    items: Seq<(crate::felt::Felt, crate::state_update::ContractUpdate)>,
    c: Column,
)
    requires
        block_keyed(c) || of_tries(c),
    ensures
        spares(contract_deletes(block, items), c),
    decreases items.len(),
{
    if items.len() > 0 {
        lemma_contract_deletes_spare(block, items.drop_last(), c);
        let (address, update) = items.last();
        let front = contract_deletes(block, items.drop_last());
        let nonce: Seq<Op> = if update.nonce is Some {
            seq![
                Op::Delete(Column::NonceUpdates, crate::storage::keys::nonce_key(block, address)),
            ]
        } else {
            seq![]
        };
        let storage = storage_deletes(block, address, update.storage.items());
        lemma_spares_concat(front, nonce, c);
        lemma_spares_concat(front + nonce, storage, c);
    }
}

proof fn lemma_system_deletes_spare(
    block: u64,
    items: Seq<(crate::felt::Felt, crate::state_update::SystemContractUpdate)>,
    c: Column,
)
    requires
        block_keyed(c) || of_tries(c),
    ensures
        spares(system_deletes(block, items), c),
    decreases items.len(),
{
    if items.len() > 0 {
        lemma_system_deletes_spare(block, items.drop_last(), c);
        let (address, update) = items.last();
        lemma_spares_concat(
            system_deletes(block, items.drop_last()),
            storage_deletes(block, address, update.storage.items()),
            c,
        );
    }
}

/// The part of a purge that is read out of the block.
spec fn targeted_ops(block: u64, orphan: OrphanedBlock) -> Seq<Op> {
    (match orphan.transaction_hashes {
        Some(hashes) => hash_deletes(hashes@),
        None => seq![],
    }) + (match orphan.state_update {
        Some(data) => state_update_deletes(block, data),
        None => seq![],
    })
}

proof fn lemma_targeted_spare(block: u64, orphan: OrphanedBlock, c: Column)
    requires
        block_keyed(c) || of_tries(c),
    ensures
        spares(targeted_ops(block, orphan), c),
{
    let hashes: Seq<Op> = match orphan.transaction_hashes {
        Some(hashes) => hash_deletes(hashes@),
        None => seq![],
    };
    let update: Seq<Op> = match orphan.state_update {
        Some(data) => state_update_deletes(block, data),
        None => seq![],
    };
    if let Some(data) = orphan.state_update {
        let a = contract_deletes(block, data.contract_updates.items());
        let b = system_deletes(block, data.system_contract_updates.items());
        let x = state_hash_deletes(block, data.contract_updates.items());
        let y = state_hash_deletes(block, data.system_contract_updates.items());
        lemma_contract_deletes_spare(block, data.contract_updates.items(), c);
        lemma_system_deletes_spare(block, data.system_contract_updates.items(), c);
        lemma_spares_concat(a, b, c);
        lemma_spares_concat(a + b, x, c);
        lemma_spares_concat(a + b + x, y, c);
    }
    lemma_spares_concat(hashes, update, c);
}

/// What purging one block does to the columns that are keyed by block, and to the tries.
proof fn lemma_purge_block(db: Contents, block: u64, orphan: OrphanedBlock, c: Column)
    ensures
        block_keyed(c) ==> apply_ops(db, purge_ops(block, orphan))[c] == db[c].remove(
            be_u64(block),
        ),
        of_tries(c) ==> apply_ops(db, purge_ops(block, orphan))[c] == db[c],
{
    if block_keyed(c) || of_tries(c) {
        let head = targeted_ops(block, orphan);
        let tail = seq![
            Op::Delete(Column::StateUpdates, be_u64(block)),
            Op::Delete(Column::TransactionsAndReceipts, be_u64(block)),
            Op::Delete(Column::Events, be_u64(block)),
        ];
        assert(purge_ops(block, orphan) =~= head + tail);
        lemma_apply_concat(db, head, tail);
        lemma_targeted_spare(block, orphan, c);
        lemma_spared(db, head, c);
        let mid = apply_ops(db, head);
        let two = tail.drop_last();
        let one = two.drop_last();
        assert(one.drop_last() =~= Seq::<Op>::empty());
        assert(apply_ops(mid, one.drop_last()) == mid);
        assert(apply_ops(mid, one) == apply_op(mid, tail[0]));
        assert(apply_ops(mid, two) == apply_op(apply_ops(mid, one), tail[1]));
        assert(apply_ops(mid, tail) == apply_op(apply_ops(mid, two), tail[2]));
    }
}

/// A column without what is stored under the block numbers from `from` on, `n` of them.
pub open spec fn without_blocks(m: ColumnMap, from: u64, n: nat) -> ColumnMap {
    Map::new(
        |k: Seq<u8>| m.contains_key(k) && !(exists|i: int|
            0 <= i < n && k == be_u64(#[trigger] add_block(from, i))),
        |k: Seq<u8>| m[k],
    )
}

/// The block `i` blocks above `from`.
pub open spec fn add_block(from: u64, i: int) -> u64 {
    (from + i) as u64
}

/// Purging consecutive blocks removes what is stored under their numbers, and nothing else from
/// the columns that are keyed by block; the tries stay as they are.
pub proof fn law_purge(db: Contents, from: u64, orphans: Seq<OrphanedBlock>, c: Column)
    requires
        from + orphans.len() <= 0x1_0000_0000_0000_0000,
    ensures
        block_keyed(c) ==> apply_ops(db, purge_all_ops(from, orphans))[c] == without_blocks(
            db[c],
            from,
            orphans.len(),
        ),
        of_tries(c) ==> apply_ops(db, purge_all_ops(from, orphans))[c] == db[c],
    decreases orphans.len(),
{
    if orphans.len() == 0 {
        assert(without_blocks(db[c], from, 0) =~= db[c]);
    } else {
        let front = orphans.drop_last();
        let n = front.len();
        let last = (from + n) as u64;
        law_purge(db, from, front, c);
        lemma_apply_concat(db, purge_all_ops(from, front), purge_ops(last, orphans.last()));
        lemma_purge_block(apply_ops(db, purge_all_ops(from, front)), last, orphans.last(), c);
        let a = without_blocks(db[c], from, n).remove(be_u64(last));
        let b = without_blocks(db[c], from, n + 1);
        assert forall|k: Seq<u8>| a.contains_key(k) <==> b.contains_key(k) by {
            if a.contains_key(k) {
                assert forall|i: int| 0 <= i < n + 1 implies k != be_u64(
                    #[trigger] add_block(from, i),
                ) by {
                    if i < n {
                        assert(k != be_u64(add_block(from, i)));
                    }
                }
            }
            if b.contains_key(k) {
                assert(k != be_u64(add_block(from, n as int)));
                assert forall|i: int| 0 <= i < n implies k != be_u64(
                    #[trigger] add_block(from, i),
                ) by {
                    assert(k != be_u64(add_block(from, i)));
                }
            }
        }
        assert(a =~= b);
    }
}

pub proof fn lemma_last_key_exists(m: ColumnMap)
    requires
        m.dom().finite(),
        !m.dom().is_empty(),
    ensures
        exists|k: Seq<u8>| is_last_key(m, k),
    decreases m.dom().len(),
{
    let k0 = m.dom().choose();
    let rest = m.remove(k0);
    assert(rest.dom() =~= m.dom().remove(k0));
    if rest.dom().is_empty() {
        assert forall|q: Seq<u8>| #[trigger] m.contains_key(q) implies q == k0 by {
            if q != k0 {
                assert(rest.dom().contains(q));
            }
        }
        assert(is_last_key(m, k0));
    } else {
        lemma_last_key_exists(rest);
        let k1 = choose|k: Seq<u8>| is_last_key(rest, k);
        assert(rest.contains_key(k1));
        lemma_lex_trichotomy(k0, k1);
        if lex_lt(k0, k1) {
            assert forall|q: Seq<u8>| #[trigger] m.contains_key(q) implies q == k1 || lex_lt(
                q,
                k1,
            ) by {
                if q != k0 {
                    assert(rest.contains_key(q));
                }
            }
            assert(is_last_key(m, k1));
        } else {
            assert forall|q: Seq<u8>| #[trigger] m.contains_key(q) implies q == k0 || lex_lt(
                q,
                k0,
            ) by {
                if q != k0 {
                    assert(rest.contains_key(q));
                    if q != k1 {
                        crate::bytes::lemma_lex_transitive(q, k1, k0);
                    }
                }
            }
            assert(is_last_key(m, k0));
        }
    }
}

/// Every key of a column is a block number.
pub open spec fn keys_are_blocks(m: ColumnMap) -> bool {
    forall|k: Seq<u8>| #[trigger] m.contains_key(k) ==> k.len() == 8
}

/// After a purge of the orphaned blocks there are none.
proof fn lemma_no_orphans_left(m: ColumnMap, sqlite_highest: Option<u64>)
    requires
        m.dom().finite(),
        keys_are_blocks(m),
    ensures
        highest_state_update(m) is Ok,
        ({
            let rocks = highest_state_update(m)->Ok_0;
            let left = match orphan_range(sqlite_highest, rocks) {
                Some((from, to)) => without_blocks(m, from, (to - from + 1) as nat),
                None => m,
            };
            highest_state_update(left) is Ok && orphan_range(
                sqlite_highest,
                highest_state_update(left)->Ok_0,
            ) is None
        }),
{
    if !m.dom().is_empty() {
        lemma_last_key_exists(m);
        let k = choose|k: Seq<u8>| is_last_key(m, k);
        assert(m.contains_key(k));
        lemma_be_value_bytes(k);
        let top = be_value_u64(k);
        if let Some((from, to)) = orphan_range(sqlite_highest, Some(top)) {
            let n = (to - from + 1) as nat;
            let left = without_blocks(m, from, n);
            assert(left.dom().subset_of(m.dom()));
            vstd::set_lib::lemma_len_subset(left.dom(), m.dom());
            if !left.dom().is_empty() {
                lemma_last_key_exists(left);
                let q = choose|q: Seq<u8>| is_last_key(left, q);
                assert(left.contains_key(q));
                assert(m.contains_key(q));
                lemma_be_value_bytes(q);
                let x = be_value_u64(q);
                lemma_be_u64_order(x, top);
                if x >= from {
                    assert(add_block(from, x - from) == x);
                    assert(q == be_u64(add_block(from, x - from)));
                    assert(false);
                }
            }
        }
    }
}

/// The block number that a key of eight bytes stands for.
pub open spec fn be_value_u64(k: Seq<u8>) -> u64 {
    crate::bytes::be_value(k) as u64
}

/// What the three tries hold after a reconciliation.
proof fn lemma_tries_after(
    db: Contents,
    sqlite_highest: Option<u64>,
    orphans: Seq<OrphanedBlock>,
    rows: RootRows,
)
    requires
        orphans_given(db, sqlite_highest, orphans),
        highest_state_update(db[Column::StateUpdates]) is Ok,
        forall|t: TrieColumn| #[trigger] stored_counter(db, t) is Ok,
    ensures
        ({
            let after = apply_ops(db, reconcile_ops(db, sqlite_highest, orphans, rows));
            let top = top_of(sqlite_highest);
            let blocks = block_ops(
                sqlite_highest,
                highest_state_update(db[Column::StateUpdates])->Ok_0,
                orphans,
            );
            &&& after[Column::TrieClass] == cut(
                db[Column::TrieClass],
                trie_counter(db, TrieColumn::Class, top, rows.class),
                stored_counter(db, TrieColumn::Class)->Ok_0,
            )
            &&& after[Column::TrieContract] == cut(
                db[Column::TrieContract],
                trie_counter(db, TrieColumn::Contract, top, rows.contract),
                stored_counter(db, TrieColumn::Contract)->Ok_0,
            )
            &&& after[Column::TrieStorage] == cut(
                db[Column::TrieStorage],
                trie_counter(db, TrieColumn::Storage, top, rows.storage),
                stored_counter(db, TrieColumn::Storage)->Ok_0,
            )
            &&& stored_counter(after, TrieColumn::Class) == Ok::<u64, usize>(
                trie_counter(db, TrieColumn::Class, top, rows.class),
            )
            &&& stored_counter(after, TrieColumn::Contract) == Ok::<u64, usize>(
                trie_counter(db, TrieColumn::Contract, top, rows.contract),
            )
            &&& stored_counter(after, TrieColumn::Storage) == Ok::<u64, usize>(
                trie_counter(db, TrieColumn::Storage, top, rows.storage),
            )
            &&& forall|c: Column| block_keyed(c) ==> #[trigger] after[c] == apply_ops(db, blocks)[c]
        }),
{
    let top = top_of(sqlite_highest);
    let blocks = block_ops(
        sqlite_highest,
        highest_state_update(db[Column::StateUpdates])->Ok_0,
        orphans,
    );
    let a = trie_ops(db, TrieColumn::Class, top, rows.class);
    let b = trie_ops(db, TrieColumn::Contract, top, rows.contract);
    let s = trie_ops(db, TrieColumn::Storage, top, rows.storage);
    lemma_apply_concat(db, blocks, a);
    lemma_apply_concat(db, blocks + a, b);
    lemma_apply_concat(db, blocks + a + b, s);
    let db1 = apply_ops(db, blocks);
    let db2 = apply_ops(db1, a);
    let db3 = apply_ops(db2, b);
    let ca = stored_counter(db, TrieColumn::Class)->Ok_0;
    let cb = stored_counter(db, TrieColumn::Contract)->Ok_0;
    let cs = stored_counter(db, TrieColumn::Storage)->Ok_0;
    let ta = confirmed_tail(db, TrieColumn::Class, ca, top, rows.class);
    let tb = confirmed_tail(db, TrieColumn::Contract, cb, top, rows.contract);
    let ts = confirmed_tail(db, TrieColumn::Storage, cs, top, rows.storage);
    assert(stored_counter(db, TrieColumn::Class) is Ok);
    assert(stored_counter(db, TrieColumn::Contract) is Ok);
    assert(stored_counter(db, TrieColumn::Storage) is Ok);
    if let Some((from, to)) = orphan_range(
        sqlite_highest,
        highest_state_update(db[Column::StateUpdates])->Ok_0,
    ) {
        law_purge(db, from, orphans, Column::TrieClass);
        law_purge(db, from, orphans, Column::TrieContract);
        law_purge(db, from, orphans, Column::TrieStorage);
        law_purge(db, from, orphans, Column::TrieNextIndex);
    }
    assert(stored_counter(db1, TrieColumn::Class) == stored_counter(db, TrieColumn::Class));
    assert(stored_counter(db1, TrieColumn::Contract) == stored_counter(db, TrieColumn::Contract));
    assert(stored_counter(db1, TrieColumn::Storage) == stored_counter(db, TrieColumn::Storage));
    lemma_rewind(db1, ca, ta, TrieColumn::Class);
    lemma_counter_after(db1, ca, ta, TrieColumn::Class);
    lemma_other_trie(db1, ca, ta, TrieColumn::Class, TrieColumn::Contract);
    lemma_other_trie(db1, ca, ta, TrieColumn::Class, TrieColumn::Storage);
    lemma_rewind(db2, cb, tb, TrieColumn::Contract);
    lemma_counter_after(db2, cb, tb, TrieColumn::Contract);
    lemma_other_trie(db2, cb, tb, TrieColumn::Contract, TrieColumn::Class);
    lemma_other_trie(db2, cb, tb, TrieColumn::Contract, TrieColumn::Storage);
    lemma_rewind(db3, cs, ts, TrieColumn::Storage);
    lemma_counter_after(db3, cs, ts, TrieColumn::Storage);
    lemma_other_trie(db3, cs, ts, TrieColumn::Storage, TrieColumn::Class);
    lemma_other_trie(db3, cs, ts, TrieColumn::Storage, TrieColumn::Contract);
}

/// A second reconciliation succeeds, whatever is given of orphaned blocks, finds nothing to do and
/// gives the next free indices that the first one left.
pub proof fn law_reconcile_idempotent(
    db: Contents,
    sqlite_highest: Option<u64>,
    orphans: Seq<OrphanedBlock>,
    more: Seq<OrphanedBlock>,
    rows: RootRows,
)
    requires
        orphans_given(db, sqlite_highest, orphans),
        forall|c: Column| #[trigger] db[c].dom().finite(),
        keys_are_blocks(db[Column::StateUpdates]),
        forall|t: TrieColumn| #[trigger] stored_counter(db, t) is Ok,
    ensures
        ({
            let after = apply_ops(db, reconcile_ops(db, sqlite_highest, orphans, rows));
            let top = top_of(sqlite_highest);
            &&& orphans_given(after, sqlite_highest, more)
            &&& highest_state_update(after[Column::StateUpdates]) is Ok
            &&& forall|t: TrieColumn| #[trigger] stored_counter(after, t) is Ok
            &&& reconcile_ops(after, sqlite_highest, more, rows) == Seq::<Op>::empty()
            &&& trie_counter(after, TrieColumn::Class, top, rows.class) == trie_counter(
                db,
                TrieColumn::Class,
                top,
                rows.class,
            )
            &&& trie_counter(after, TrieColumn::Contract, top, rows.contract) == trie_counter(
                db,
                TrieColumn::Contract,
                top,
                rows.contract,
            )
            &&& trie_counter(after, TrieColumn::Storage, top, rows.storage) == trie_counter(
                db,
                TrieColumn::Storage,
                top,
                rows.storage,
            )
        }),
{
    let after = apply_ops(db, reconcile_ops(db, sqlite_highest, orphans, rows));
    let top = top_of(sqlite_highest);
    lemma_no_orphans_left(db[Column::StateUpdates], sqlite_highest);
    lemma_tries_after(db, sqlite_highest, orphans, rows);
    assert(stored_counter(db, TrieColumn::Class) is Ok);
    assert(stored_counter(db, TrieColumn::Contract) is Ok);
    assert(stored_counter(db, TrieColumn::Storage) is Ok);
    assert(db[trie_column(TrieColumn::Class)].dom().finite());
    assert(db[trie_column(TrieColumn::Contract)].dom().finite());
    assert(db[trie_column(TrieColumn::Storage)].dom().finite());
    lemma_trie_again(db, after, TrieColumn::Class, top, rows.class);
    lemma_trie_again(db, after, TrieColumn::Contract, top, rows.contract);
    lemma_trie_again(db, after, TrieColumn::Storage, top, rows.storage);
    assert(block_keyed(Column::StateUpdates));
    if let Some((from, to)) = orphan_range(
        sqlite_highest,
        highest_state_update(db[Column::StateUpdates])->Ok_0,
    ) {
        law_purge(db, from, orphans, Column::StateUpdates);
    }
    assert forall|t: TrieColumn| #[trigger] stored_counter(after, t) is Ok by {
        match t {
            TrieColumn::Class => {},
            TrieColumn::Contract => {},
            TrieColumn::Storage => {},
        }
    }
    assert(reconcile_ops(after, sqlite_highest, more, rows) =~= Seq::<Op>::empty());
}

/// A recorded root is relied on exactly where the trie has nodes, the root's block is at most a
/// hundred blocks below the highest one, and its index is in range; the search then starts from
/// that index. Without a recorded root nothing is given up.
pub proof fn law_root_that_is_relied_on(
    db: Contents,
    t: TrieColumn,
    counter: u64,
    top: u64,
    index: i64,
    block: u64,
)
    ensures
        search_root(counter, top, Some((index, block))) is Some <==> counter > 0 && top <= block + 100
            && 0 <= index,
        search_root(counter, top, Some((index, block))) matches Some(x) ==> x == index,
        search_root(counter, top, None) is None,
        confirmed_tail(db, t, counter, top, None) is None,
        rewind_ops(counter, None, t).len() == 0,
{
}

/// The next free index after a reconciliation is the one behind the confirmed tail, unless that is
/// not below the present one; it is never raised.
pub proof fn law_counter_is_never_raised(counter: u64, tail: Option<u64>)
    ensures
        rewound(counter, tail) <= counter,
        tail matches Some(x) ==> (rewound(counter, tail) == x + 1 || (rewound(counter, tail) == counter
            && counter <= x + 1)),
        tail is None ==> rewound(counter, tail) == counter,
{
}

/// The next free index that a reconciliation comes to for what was found of the tries is the one
/// behind the confirmed tail, where that is lower; the indices from there on are then given up, in
/// the trie's own column, and the new one is stored. Without a confirmed tail it is the one found.
pub proof fn law_found_tails_set_the_indices(
    sqlite_highest: Option<u64>,
    rocks: Option<u64>,
    orphans: Seq<OrphanedBlock>,
    class: FoundTrie,
    contract: FoundTrie,
    storage: FoundTrie,
)
    ensures
        ({
            let next = found_next(class, contract, storage);
            let ops = found_ops(sqlite_highest, rocks, orphans, class, contract, storage);
            let settled = |found: FoundTrie, x: u64|
                match found.tail {
                    None => x == found.counter,
                    Some(i) => if i@ + 1 < found.counter {
                        x == i@ + 1
                    } else {
                        x == found.counter
                    },
                };
            let given_up = |t: TrieColumn, c: Column, found: FoundTrie, x: u64|
                x < found.counter ==> ops.contains(
                    Op::DeleteRange(c, be_u64(x), be_u64(found.counter)),
                ) && ops.contains(Op::Put(Column::TrieNextIndex, next_index_key(t), be_u64(x)));
            &&& settled(class, next.class)
            &&& settled(contract, next.contract)
            &&& settled(storage, next.storage)
            &&& given_up(TrieColumn::Class, Column::TrieClass, class, next.class)
            &&& given_up(TrieColumn::Contract, Column::TrieContract, contract, next.contract)
            &&& given_up(TrieColumn::Storage, Column::TrieStorage, storage, next.storage)
        }),
{
    let a = block_ops(sqlite_highest, rocks, orphans);
    let b = rewind_ops(class.counter, class.tail_index(), TrieColumn::Class);
    let c = rewind_ops(contract.counter, contract.tail_index(), TrieColumn::Contract);
    let d = rewind_ops(storage.counter, storage.tail_index(), TrieColumn::Storage);
    let ops = a + b + c + d;
    let next = found_next(class, contract, storage);
    if next.class < class.counter {
        let n = a.len() as int;
        assert(ops[n] == b[0] && ops[n + 1] == b[1]);
    }
    if next.contract < contract.counter {
        let n = (a + b).len() as int;
        assert(ops[n] == c[0] && ops[n + 1] == c[1]);
    }
    if next.storage < storage.counter {
        let n = (a + b + c).len() as int;
        assert(ops[n] == d[0] && ops[n + 1] == d[1]);
    }
}

} // verus!
