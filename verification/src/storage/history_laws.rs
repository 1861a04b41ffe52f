//! What is kept of the tries' history: recorded roots are read back, and removed nodes stay until no
//! block that is kept needs them.
use vstd::prelude::*;

use crate::bytes::{be_u64, lemma_be_u64_injective};
use crate::felt::{is_felt, Felt};
use crate::storage::codec::{
    lemma_varint_read_back, node_encoding, node_fits, packed, Flaw, NodeView, StoredNode,
    TrieStorageIndex, MAX_STORAGE_INDEX,
};
use crate::storage::columns::Column;
use crate::storage::markers::{index_values, law_marker_read_back, parse_marker};
use crate::storage::orphan_laws::{lemma_names_concat, names};
use crate::storage::reconcile::NextIndices;
use crate::storage::roots::{is_floor, law_history_needed_is_kept, lemma_floor, value_at};
use crate::storage::runs::only_deletes;
use crate::storage::store::{apply_ops, Contents, Op};
use crate::storage::tail_search::{entry_node, node_at};
use crate::storage::transaction::{
    hash_read, node_read, prune_before, recorded, root_index_is, root_read, with_root,
    Transaction, TransactionError, TriePruneMode,
};
use crate::storage::trie::{
    all_encode, assigned, children, encoding_front, stored_at, stored_ops, trie_column, Node,
    NodeRef, RootIndexUpdate, TrieColumn, TrieUpdate,
};
use crate::storage::trie_laws::{
    after_insert, law_root_gets_first_index, law_stored_node_reads_back, lemma_stored_fits,
    lemma_walks_in, paths_fit, refers_below, walks_in,
};
use crate::storage::trie_pruning::{
    coalesced, counter_of, lemma_prune_prefix, next_after, node_deletes, nodes_stored, prune_made,
    prune_ops, pruned_ops, pruned_rows, removals_of, root_without_nodes, rows_after, rows_from,
    staged_ops, storable, trie_inserted, tries_pruned, with_counter, with_removed,
};

verus! {

/// A row holds from its block on, up to the next row.
pub proof fn law_row_holds_until_the_next<V>(m: Map<u64, V>, k: u64, b: u64)
    requires
        m.contains_key(k),
        k <= b,
        forall|j: u64| k < j <= b ==> !(#[trigger] m.contains_key(j)),
    ensures
        value_at(m, b) == Some(m[k]),
{
    assert(is_floor(m, b, k));
    lemma_floor(m, b, k);
}

/// Nothing holds before the first row.
pub proof fn law_nothing_holds_before_the_first_row<V>(m: Map<u64, V>, b: u64)
    requires
        forall|j: u64| j <= b ==> !(#[trigger] m.contains_key(j)),
    ensures
        value_at(m, b) is None,
{
    if exists|k: u64| is_floor(m, b, k) {
        let k = choose|k: u64| is_floor(m, b, k);
        assert(m.contains_key(k));
    }
}

/// A root that is recorded at a block holds there, and at every later block where none is recorded.
/// What held at an earlier block still does, unless the block is among those whose history is given
/// up: that is, more than the number of blocks kept before it.
pub proof fn law_recorded_root_holds(
    m: Map<u64, Option<i64>>,
    block: u64,
    index: Option<i64>,
    mode: TriePruneMode,
    b: u64,
)
    ensures
        value_at(with_root(m, block, index, mode), block) == Some(index),
        b >= block && (forall|j: u64| block < j <= b ==> !(#[trigger] m.contains_key(j)))
            ==> value_at(with_root(m, block, index, mode), b) == Some(index),
        b < block && (mode matches TriePruneMode::Prune { num_blocks_kept } ==> b + num_blocks_kept
            >= block) ==> value_at(with_root(m, block, index, mode), b) == value_at(m, b),
{
    let all = m.insert(block, index);
    assert(is_floor(all, block, block));
    lemma_floor(all, block, block);
    if b >= block && (forall|j: u64| block < j <= b ==> !(#[trigger] m.contains_key(j))) {
        assert(is_floor(all, b, block)) by {
            assert forall|j: u64| #[trigger] all.contains_key(j) && j <= b implies j <= block by {
                if j > block {
                    assert(m.contains_key(j));
                }
            }
        }
        lemma_floor(all, b, block);
    }
    if b < block {
        lemma_same_below(m, block, index, b);
    }
    if let Some(before) = prune_before(mode, block) {
        law_history_needed_is_kept(all, before, block);
        if b >= before {
            law_history_needed_is_kept(all, before, b);
        }
    }
}

proof fn lemma_same_below(m: Map<u64, Option<i64>>, block: u64, index: Option<i64>, b: u64)
    requires
        b < block,
    ensures
        value_at(m.insert(block, index), b) == value_at(m, b),
{
    let all = m.insert(block, index);
    assert forall|k: u64| is_floor(all, b, k) == is_floor(m, b, k) by {
        if is_floor(m, b, k) {
            assert forall|j: u64| #[trigger] all.contains_key(j) && j <= b implies j <= k by {
                assert(m.contains_key(j));
            }
        }
        if is_floor(all, b, k) {
            assert forall|j: u64| #[trigger] m.contains_key(j) && j <= b implies j <= k by {
                assert(all.contains_key(j));
            }
        }
    }
    if exists|k: u64| is_floor(m, b, k) {
        let k = choose|k: u64| is_floor(m, b, k);
        assert(is_floor(all, b, k));
        lemma_floor(m, b, k);
        lemma_floor(all, b, k);
    } else if exists|k: u64| is_floor(all, b, k) {
        let k = choose|k: u64| is_floor(all, b, k);
        assert(is_floor(m, b, k));
    }
}

/// Recording a root leaves every other row that is kept as it is. Nothing is given up where all
/// history is kept; otherwise a row is, where a later one stands at or before the oldest block
/// kept.
pub proof fn law_old_roots_are_given_up(
    m: Map<u64, Option<i64>>,
    block: u64,
    index: Option<i64>,
    mode: TriePruneMode,
    k: u64,
)
    requires
        m.contains_key(k),
        k != block,
    ensures
        ({
            let after = with_root(m, block, index, mode);
            &&& after.contains_key(k) ==> after[k] == m[k]
            &&& mode is Archive ==> after.contains_key(k)
            &&& mode matches TriePruneMode::Prune { num_blocks_kept } ==> (!after.contains_key(k)
                <==> exists|j: u64|
                k < j && j + num_blocks_kept <= block && #[trigger] m.insert(
                    block,
                    index,
                ).contains_key(j))
        }),
{
    let all = m.insert(block, index);
    if let Some(before) = prune_before(mode, block) {
        if exists|f: u64| is_floor(all, before, f) {
            let f = choose|f: u64| is_floor(all, before, f);
            lemma_floor(all, before, f);
            assert(all.contains_key(f));
            if !with_root(m, block, index, mode).contains_key(k) {
                assert(k < f);
            }
        } else {
            lemma_some_floor(all, before, k);
            if exists|j: u64|
                k < j && j <= before && #[trigger] all.contains_key(j) {
                let j = choose|j: u64| k < j && j <= before && #[trigger] all.contains_key(j);
                lemma_some_floor(all, before, j);
            }
        }
    }
}

/// Where there is a row at or before a block, there is a last one.
proof fn lemma_some_floor<V>(m: Map<u64, V>, b: u64, k: u64)
    ensures
        m.contains_key(k) && k <= b ==> exists|f: u64| is_floor(m, b, f),
    decreases b - k,
{
    if m.contains_key(k) && k <= b && !is_floor(m, b, k) {
        let j = choose|j: u64| #[trigger] m.contains_key(j) && j <= b && j > k;
        lemma_some_floor(m, b, j);
    }
}

/// What an update says of a trie's root is what is read of it: the index of the new root, none
/// where the trie became empty, and what was there before where nothing changed.
pub proof fn law_updated_root_is_read(
    m: Map<u64, Option<i64>>,
    block: u64,
    update: RootIndexUpdate,
    mode: TriePruneMode,
    r: Result<Option<TrieStorageIndex>, TransactionError>,
)
    requires
        update matches RootIndexUpdate::Updated(i) ==> i@ <= MAX_STORAGE_INDEX,
        recorded(update) matches Some(index) ==> root_index_is(
            value_at(with_root(m, block, index, mode), block),
            r,
        ),
    ensures
        update matches RootIndexUpdate::Updated(i) ==> (r matches Ok(Some(x)) && x@ == i@),
        update is TrieEmpty ==> (r matches Ok(None)),
        update is Unchanged <==> recorded(update) is None,
{
    if let Some(index) = recorded(update) {
        law_recorded_root_holds(m, block, index, mode, block);
    }
}

/// A node is read from under its index in the column of its own trie: what is stored there is told,
/// with the hash in front of it, and nothing where nothing is stored.
pub proof fn law_stored_node_is_read(
    db: Contents,
    t: TrieColumn,
    index: u64,
    hash: Felt,
    n: NodeView,
    node: Result<Option<StoredNode>, TransactionError>,
    read_hash: Result<Option<Felt>, TransactionError>,
)
    requires
        node_read(db, t, index, node),
        hash_read(db, t, index, read_hash),
        is_felt(hash@),
    ensures
        ({
            let m = db[match t {
                TrieColumn::Class => Column::TrieClass,
                TrieColumn::Contract => Column::TrieContract,
                TrieColumn::Storage => Column::TrieStorage,
            }];
            &&& !m.contains_key(be_u64(index)) <==> (node matches Ok(None))
            &&& !m.contains_key(be_u64(index)) <==> (read_hash matches Ok(None))
            &&& node_at(m, index) == Some(n) ==> (node matches Ok(Some(s)) && s@ == n)
            &&& m.contains_key(be_u64(index)) && m[be_u64(index)].len() >= 32 && m[be_u64(
                index,
            )].subrange(0, 32) == hash@ ==> (read_hash matches Ok(Some(h)) && h == hash)
            &&& m.contains_key(be_u64(index)) && m[be_u64(index)].len() < 32 ==> node is Err
                && read_hash is Err
        }),
{
    reveal(entry_node);
    if let Ok(Some(h)) = read_hash {
        Felt::lemma_view_injective(h, hash);
    }
}

/// What is stored of a node that refers to others: its own kind and path, and for each reference
/// the index under which the hash of the node referred to is found, or the index that was known
/// before.
pub proof fn law_stored_references_resolve(
    db: Contents,
    nodes: Seq<(Felt, Node)>,
    order: Seq<usize>,
    base: u64,
    t: TrieColumn,
    k: int,
)
    requires
        walks_in(nodes, order),
        nodes.len() <= usize::MAX,
        paths_fit(nodes),
        refers_below(nodes, base),
        base + order.len() <= MAX_STORAGE_INDEX,
        0 <= k < order.len(),
    ensures
        ({
            let m = after_insert(db, nodes, order, base, t)[trie_column(t)];
            let stored = node_at(m, assigned(order, base as int)[order[k]] as u64);
            let leads_to = |x: u64, to: NodeRef|
                match to {
                    NodeRef::StorageIndex(s) => x == s@,
                    NodeRef::Index(i) => m.contains_key(be_u64(x)) && m[be_u64(x)].subrange(0, 32)
                        == nodes[i as int].0@,
                };
            match nodes[order[k] as int].1 {
                Node::Binary { left, right } => stored matches Some(
                    NodeView::Binary { left: l, right: r },
                ) && leads_to(l, left) && leads_to(r, right),
                Node::Edge { child, path } => stored matches Some(
                    NodeView::Edge { child: c, path: p },
                ) && leads_to(c, child) && p == path@,
                Node::LeafBinary => stored matches Some(NodeView::LeafBinary),
                Node::LeafEdge { path } => stored matches Some(NodeView::LeafEdge { path: p }) && p
                    == path@,
            }
        }),
{
    law_stored_node_reads_back(db, nodes, order, base, t, k);
    lemma_walks_in(nodes, order);
    lemma_stored_fits(nodes, order, base, k);
    let n = nodes[order[k] as int].1;
    match n {
        Node::Binary { left, right } => {
            assert(children(n)[0] == left && children(n)[1] == right);
            lemma_reference(db, nodes, order, base, t, k, 0);
            lemma_reference(db, nodes, order, base, t, k, 1);
        },
        Node::Edge { child, path } => {
            assert(children(n)[0] == child);
            lemma_reference(db, nodes, order, base, t, k, 0);
        },
        _ => {},
    }
}

proof fn lemma_reference(
    db: Contents,
    nodes: Seq<(Felt, Node)>,
    order: Seq<usize>,
    base: u64,
    t: TrieColumn,
    k: int,
    c: int,
)
    requires
        walks_in(nodes, order),
        nodes.len() <= usize::MAX,
        paths_fit(nodes),
        refers_below(nodes, base),
        base + order.len() <= MAX_STORAGE_INDEX,
        0 <= k < order.len(),
        0 <= c < children(nodes[order[k] as int].1).len(),
    ensures
        children(nodes[order[k] as int].1)[c] matches NodeRef::Index(i) ==> {
            let m = after_insert(db, nodes, order, base, t)[trie_column(t)];
            let x = assigned(order, base as int)[i] as u64;
            &&& order.contains(i)
            &&& m.contains_key(be_u64(x))
            &&& m[be_u64(x)].subrange(0, 32) == nodes[i as int].0@
        },
{
    lemma_walks_in(nodes, order);
    if let NodeRef::Index(i) = children(nodes[order[k] as int].1)[c] {
        assert(order.contains(order[k]));
        assert(order.contains(i));
        let j = choose|j: int| 0 <= j < order.len() && order[j] == i;
        law_stored_node_reads_back(db, nodes, order, base, t, j);
    }
}

/// Once a trie update was stored and committed, and its root recorded at a block, the root hash
/// read at the block is that of the root node: the last node of the update.
pub proof fn law_committed_root_is_read(
    db: Contents,
    update: TrieUpdate,
    next: NextIndices,
    t: TrieColumn,
    order: Seq<usize>,
    root: TrieStorageIndex,
    m: Map<u64, Option<i64>>,
    block: u64,
    mode: TriePruneMode,
    r: Result<Option<Felt>, TransactionError>,
)
    requires
        walks_in(update.nodes_added@, order),
        paths_fit(update.nodes_added@),
        refers_below(update.nodes_added@, counter_of(next, t)),
        storable(update, order, counter_of(next, t) as int),
        is_felt(update.nodes_added@.last().0@),
        update.nodes_added@.len() <= usize::MAX,
        nodes_stored(
            update,
            t,
            next,
            Ok::<RootIndexUpdate, TransactionError>(RootIndexUpdate::Updated(root)),
        ),
        recorded(RootIndexUpdate::Updated(root)) matches Some(index) && root_read(
            apply_ops(db, staged_ops(update, t, next)),
            t,
            value_at(with_root(m, block, index, mode), block),
            r,
        ),
    ensures
        r matches Ok(Some(h)) && h == update.nodes_added@.last().0,
{
    let nodes = update.nodes_added@;
    let base = counter_of(next, t);
    let after = apply_ops(db, staged_ops(update, t, next));
    law_recorded_root_holds(
        m,
        block,
        recorded(RootIndexUpdate::Updated(root))->Some_0,
        mode,
        block,
    );
    lemma_walks_in(nodes, order);
    law_root_gets_first_index(nodes, order, base);
    law_stored_node_reads_back(db, nodes, order, base, t, 0);
    assert(after == after_insert(db, nodes, order, base, t));
    reveal(entry_node);
    assert(nodes[order[0] as int] == nodes.last());
    if let Ok(Some(h)) = r {
        Felt::lemma_view_injective(h, nodes.last().0);
    }
}

/// The nodes of a trie that are deleted before a block are exactly those that a marker of an
/// earlier block names; the deletes name nothing outside the trie's own column. They cannot be made
/// exactly where the marker of an earlier block cannot be read.
pub proof fn law_nodes_removed_earlier_are_deleted(
    rows: Seq<(u64, Seq<u8>)>,
    before: u64,
    t: TrieColumn,
)
    ensures
        prune_ops(rows, before, t) is Err <==> exists|i: int|
            0 <= i < rows.len() && (#[trigger] rows[i]).0 < before && parse_marker(rows[i].1) is Err,
        prune_ops(rows, before, t) matches Ok(ops) ==> {
            &&& only_deletes(ops)
            &&& forall|c: Column, k: Seq<u8>| #[trigger]
                names(ops, c, k) <==> c == trie_column(t) && exists|i: int, j: int|
                    #![trigger parse_marker(rows[i].1)->Ok_0[j]]
                    0 <= i < rows.len() && rows[i].0 < before && parse_marker(rows[i].1) is Ok && 0
                        <= j < parse_marker(rows[i].1)->Ok_0.len() && k == be_u64(
                        parse_marker(rows[i].1)->Ok_0[j],
                    )
        },
    decreases rows.len(),
{
    if rows.len() > 0 {
        let front = rows.drop_last();
        law_nodes_removed_earlier_are_deleted(front, before, t);
        let n = rows.len() - 1;
        assert(forall|i: int| 0 <= i < n ==> front[i] == rows[i]);
        if prune_ops(front, before, t) is Err {
            let i = choose|i: int|
                0 <= i < front.len() && (#[trigger] front[i]).0 < before && parse_marker(
                    front[i].1,
                ) is Err;
            assert(rows[i].0 < before);
        } else {
            if prune_ops(rows, before, t) is Err {
                assert(rows[n].0 < before && parse_marker(rows[n].1) is Err);
            } else {
                let old = prune_ops(front, before, t)->Ok_0;
                let ops = prune_ops(rows, before, t)->Ok_0;
                let last = rows[n];
                let added = if last.0 < before {
                    node_deletes(parse_marker(last.1)->Ok_0, t)
                } else {
                    Seq::empty()
                };
                assert(ops =~= old + added);
                assert forall|i: int| 0 <= i < ops.len() implies (#[trigger] ops[i]) is Delete by {
                    if i < old.len() {
                        assert(old[i] is Delete);
                    }
                }
                assert forall|c: Column, k: Seq<u8>| #[trigger]
                    names(ops, c, k) <==> c == trie_column(t) && exists|i: int, j: int|
                        #![trigger parse_marker(rows[i].1)->Ok_0[j]]
                        0 <= i < rows.len() && rows[i].0 < before && parse_marker(rows[i].1) is Ok
                            && 0 <= j < parse_marker(rows[i].1)->Ok_0.len() && k == be_u64(
                            parse_marker(rows[i].1)->Ok_0[j],
                        ) by {
                    lemma_names_concat(old, added, c, k);
                    if names(old, c, k) {
                        let (i, j) = choose|i: int, j: int|
                            #![trigger parse_marker(front[i].1)->Ok_0[j]]
                            0 <= i < front.len() && front[i].0 < before && parse_marker(
                                front[i].1,
                            ) is Ok && 0 <= j < parse_marker(front[i].1)->Ok_0.len() && k == be_u64(
                                parse_marker(front[i].1)->Ok_0[j],
                            );
                        assert(parse_marker(rows[i].1)->Ok_0[j] == parse_marker(
                            front[i].1,
                        )->Ok_0[j]);
                    }
                    if names(added, c, k) {
                        let j = choose|j: int|
                            0 <= j < added.len() && added[j] == Op::Delete(c, k);
                        assert(k == be_u64(parse_marker(rows[n].1)->Ok_0[j]));
                    }
                    if c == trie_column(t) && exists|i: int, j: int|
                        #![trigger parse_marker(rows[i].1)->Ok_0[j]]
                        0 <= i < rows.len() && rows[i].0 < before && parse_marker(rows[i].1) is Ok
                            && 0 <= j < parse_marker(rows[i].1)->Ok_0.len() && k == be_u64(
                            parse_marker(rows[i].1)->Ok_0[j],
                        ) {
                        let (i, j) = choose|i: int, j: int|
                            #![trigger parse_marker(rows[i].1)->Ok_0[j]]
                            0 <= i < rows.len() && rows[i].0 < before && parse_marker(
                                rows[i].1,
                            ) is Ok && 0 <= j < parse_marker(rows[i].1)->Ok_0.len() && k == be_u64(
                                parse_marker(rows[i].1)->Ok_0[j],
                            );
                        if i < n {
                            assert(k == be_u64(parse_marker(front[i].1)->Ok_0[j]));
                        } else {
                            assert(added[j] == Op::Delete(c, k));
                        }
                    }
                }
            }
            if exists|i: int|
                0 <= i < rows.len() && (#[trigger] rows[i]).0 < before && parse_marker(
                    rows[i].1,
                ) is Err {
                let i = choose|i: int|
                    0 <= i < rows.len() && (#[trigger] rows[i]).0 < before && parse_marker(
                        rows[i].1,
                    ) is Err;
                if i < n {
                    assert(front[i].0 < before && parse_marker(front[i].1) is Err);
                }
            }
        }
    } else if let Ok(ops) = prune_ops(rows, before, t) {
        assert(ops.len() == 0);
    }
}

/// The markers that are left before a block are those of that block and later ones, in their order.
pub proof fn law_later_markers_are_left(rows: Seq<(u64, Seq<u8>)>, before: u64)
    ensures
        forall|row: (u64, Seq<u8>)| #[trigger]
            rows_from(rows, before).contains(row) <==> rows.contains(row) && row.0 >= before,
        forall|i: int| 0 <= i < rows.len() ==> (#[trigger] rows[i]).0 >= before ==> rows_from(
            rows,
            before,
        ) == rows_from(rows.take(i), before).push(rows[i]) + rows_from(rows.skip(i + 1), before),
    decreases rows.len(),
{
    if rows.len() > 0 {
        let front = rows.drop_last();
        let n = rows.len() - 1;
        law_later_markers_are_left(front, before);
        assert(rows =~= front.push(rows[n]));
        let kept = rows_from(front, before);
        assert forall|row: (u64, Seq<u8>)| #[trigger]
            rows_from(rows, before).contains(row) <==> rows.contains(row) && row.0 >= before by {
            lemma_contains_push(front, rows[n], row);
            lemma_contains_push(kept, rows[n], row);
        }
        assert forall|i: int| 0 <= i < rows.len() && (#[trigger] rows[i]).0 >= before implies rows_from(
            rows,
            before,
        ) == rows_from(rows.take(i), before).push(rows[i]) + rows_from(rows.skip(i + 1), before) by {
            if i < n {
                assert(front[i] == rows[i]);
                assert(front.take(i) =~= rows.take(i));
                assert(rows.skip(i + 1).drop_last() =~= front.skip(i + 1));
                assert(rows.skip(i + 1).last() == rows[n]);
            } else {
                assert(rows.take(i) =~= front);
                assert(rows.skip(i + 1) =~= Seq::empty());
            }
        }
    }
}

proof fn lemma_contains_push<A>(s: Seq<A>, x: A, y: A)
    ensures
        s.push(x).contains(y) <==> s.contains(y) || x == y,
{
    let t = s.push(x);
    if s.contains(y) {
        let i = choose|i: int| 0 <= i < s.len() && s[i] == y;
        assert(t[i] == y);
    }
    if x == y {
        assert(t[s.len() as int] == y);
    }
    if t.contains(y) {
        let i = choose|i: int| 0 <= i < t.len() && t[i] == y;
        if i < s.len() {
            assert(s[i] == y);
        }
    }
}

/// Nodes that are removed at a block are deleted once more blocks were stored after it than are
/// kept, and not before; their marker is dropped when they are. Where all history is kept they
/// stay.
pub proof fn law_removed_nodes_stay_while_needed(
    rows: Seq<(u64, Seq<u8>)>,
    removed: Seq<u64>,
    at: u64,
    mode: TriePruneMode,
    latest: u64,
    t: TrieColumn,
    x: u64,
)
    requires
        removed.contains(x),
        removed.len() <= u64::MAX,
        forall|i: int| 0 <= i < removed.len() ==> removed[i] <= MAX_STORAGE_INDEX,
    ensures
        ({
            let marked = with_removed(rows, removed, at);
            let row = marked.last();
            let ops = pruned_ops(marked, prune_before(mode, latest), t);
            let left = pruned_rows(marked, prune_before(mode, latest));
            &&& marked == rows.push(row)
            &&& row.0 == at
            &&& parse_marker(row.1) == Ok::<Seq<u64>, Flaw>(removed)
            &&& match mode {
                TriePruneMode::Archive => ops is Ok && ops->Ok_0.len() == 0 && left == marked,
                TriePruneMode::Prune { num_blocks_kept } => {
                    &&& at + num_blocks_kept >= latest ==> left.contains(row)
                    &&& at + num_blocks_kept >= latest && ops is Ok && names(
                        ops->Ok_0,
                        trie_column(t),
                        be_u64(x),
                    ) ==> exists|i: int, j: int|
                        #![trigger parse_marker(rows[i].1)->Ok_0[j]]
                        0 <= i < rows.len() && rows[i].0 + num_blocks_kept < latest && 0 <= j
                            < parse_marker(rows[i].1)->Ok_0.len() && parse_marker(
                            rows[i].1,
                        )->Ok_0[j] == x
                    &&& at + num_blocks_kept < latest ==> !left.contains(row)
                    &&& at + num_blocks_kept < latest && ops is Ok ==> names(
                        ops->Ok_0,
                        trie_column(t),
                        be_u64(x),
                    )
                },
            }
        }),
{
    let marked = with_removed(rows, removed, at);
    let row = marked.last();
    let p = choose|p: int| 0 <= p < removed.len() && removed[p] == x;
    law_marker_read_back(removed);
    assert(marked[marked.len() - 1] == row);
    if let Some(before) = prune_before(mode, latest) {
        law_nodes_removed_earlier_are_deleted(marked, before, t);
        law_later_markers_are_left(marked, before);
        assert(marked.contains(row));
        assert(parse_marker(marked[marked.len() - 1].1)->Ok_0[p] == x);
        if let Ok(ops) = pruned_ops(marked, Some(before), t) {
            if at >= before && names(ops, trie_column(t), be_u64(x)) {
                let (i, j) = choose|i: int, j: int|
                    #![trigger parse_marker(marked[i].1)->Ok_0[j]]
                    0 <= i < marked.len() && marked[i].0 < before && parse_marker(marked[i].1) is Ok
                        && 0 <= j < parse_marker(marked[i].1)->Ok_0.len() && be_u64(x) == be_u64(
                        parse_marker(marked[i].1)->Ok_0[j],
                    );
                lemma_be_u64_injective(x, parse_marker(marked[i].1)->Ok_0[j]);
                assert(marked[i] == rows[i]);
                assert(parse_marker(rows[i].1)->Ok_0[j] == x);
            }
        }
    } else {
        assert(marked.contains(row));
    }
}

/// Where nothing was removed, nothing is marked.
pub proof fn law_nothing_removed_nothing_marked(rows: Seq<(u64, Seq<u8>)>, at: u64)
    ensures
        with_removed(rows, Seq::empty(), at) == rows,
{
}

/// When the blocks after a block are dropped, what was removed at one of them counts as removed at
/// that block: no marker is lost or changed, none stands after the block, and those up to it are
/// not touched.
pub proof fn law_markers_of_dropped_blocks_move(rows: Seq<(u64, Seq<u8>)>, target: u64, i: int)
    requires
        0 <= i < rows.len(),
    ensures
        coalesced(rows, target).len() == rows.len(),
        coalesced(rows, target)[i].1 == rows[i].1,
        rows[i].0 <= target ==> coalesced(rows, target)[i] == rows[i],
        rows[i].0 > target ==> coalesced(rows, target)[i].0 == target,
        coalesced(coalesced(rows, target), target) == coalesced(rows, target),
{
    assert(coalesced(coalesced(rows, target), target) =~= coalesced(rows, target));
}

/// Setting the next free index of a trie sets it, and leaves those of the others.
pub proof fn law_indices_are_kept_apart(next: NextIndices, t: TrieColumn, u: TrieColumn, value: u64)
    ensures
        counter_of(with_counter(next, t, value), t) == value,
        u != t ==> counter_of(with_counter(next, t, value), u) == counter_of(next, u),
{
}

/// An update takes as many indices as it has nodes to store, from the next free one on, and none of
/// another trie. Without new nodes it takes none, and the trie is empty afterwards exactly where
/// nodes were removed and the root commitment is zero.
pub proof fn law_update_takes_its_indices(
    update: TrieUpdate,
    t: TrieColumn,
    u: TrieColumn,
    next: NextIndices,
    order: Seq<usize>,
)
    ensures
        update.nodes_added@.len() == 0 ==> next_after(update, t, next) == next,
        update.nodes_added@.len() == 0 ==> staged_ops(update, t, next).len() == 0,
        u != t ==> counter_of(next_after(update, t, next), u) == counter_of(next, u),
        walks_in(update.nodes_added@, order) && storable(update, order, counter_of(next, t) as int)
            ==> counter_of(next_after(update, t, next), t) == counter_of(next, t) + order.len(),
        root_without_nodes(update) is TrieEmpty <==> update.nodes_removed@.len() > 0
            && update.root_commitment == Felt::zero(),
        root_without_nodes(update) !is Updated,
{
}

/// Pruning a trie stops at the first marker of an earlier block that cannot be read: the error is
/// that of the marker, and the deletes made are those of the markers in front of it.
pub proof fn law_pruning_stops_at_the_first_flaw(
    rows: Seq<(u64, Seq<u8>)>,
    before: u64,
    t: TrieColumn,
    i: int,
)
    requires
        0 <= i < rows.len(),
        rows[i].0 < before,
        parse_marker(rows[i].1) is Err,
        forall|j: int| 0 <= j < i && (#[trigger] rows[j]).0 < before ==> parse_marker(rows[j].1) is Ok,
    ensures
        prune_ops(rows, before, t) == Err::<Seq<Op>, Flaw>(parse_marker(rows[i].1)->Err_0),
        prune_ops(rows.take(i), before, t) == Ok::<Seq<Op>, Flaw>(prune_made(rows, before, t)),
{
    let front = rows.take(i);
    let upto = rows.subrange(0, i + 1);
    assert(upto.drop_last() =~= front);
    assert(upto.last() == rows[i]);
    assert(forall|j: int| 0 <= j < front.len() ==> front[j] == rows[j]);
    law_nodes_removed_earlier_are_deleted(front, before, t);
    lemma_prune_prefix(rows, before, t, i + 1);
}

/// Pruning all tries prunes each of them, and deletes in a trie's column what pruning that trie
/// deletes. It fails where one of them cannot be pruned; what is left of the markers of the others
/// is not affected by a trie that comes after them.
pub proof fn law_all_tries_are_pruned(
    old: Transaction,
    new: Transaction,
    before: Option<u64>,
    r: Result<(), TransactionError>,
    t: TrieColumn,
    k: Seq<u8>,
)
    requires
        tries_pruned(old, new, before, r),
    ensures
        r is Ok <==> forall|u: TrieColumn| pruned_ops(#[trigger] removals_of(old, u), before, u) is Ok,
        r is Ok ==> {
            &&& removals_of(new, t) == pruned_rows(removals_of(old, t), before)
            &&& names(new.batch@, trie_column(t), k) <==> names(old.batch@, trie_column(t), k)
                || names(pruned_ops(removals_of(old, t), before, t)->Ok_0, trie_column(t), k)
        },
        pruned_ops(removals_of(old, t), before, t) is Err ==> removals_of(new, t) == removals_of(
            old,
            t,
        ),
{
    let contract = pruned_ops(removals_of(old, TrieColumn::Contract), before, TrieColumn::Contract);
    let class = pruned_ops(removals_of(old, TrieColumn::Class), before, TrieColumn::Class);
    let storage = pruned_ops(removals_of(old, TrieColumn::Storage), before, TrieColumn::Storage);
    if contract is Ok && class is Ok && storage is Ok {
        let (a, b, c) = (contract->Ok_0, class->Ok_0, storage->Ok_0);
        assert forall|u: TrieColumn| pruned_ops(#[trigger] removals_of(old, u), before, u) is Ok by {
            match u {
                TrieColumn::Class => {},
                TrieColumn::Contract => {},
                TrieColumn::Storage => {},
            }
        }
        lemma_names_concat(old.batch@ + a + b, c, trie_column(t), k);
        lemma_names_concat(old.batch@ + a, b, trie_column(t), k);
        lemma_names_concat(old.batch@, a, trie_column(t), k);
        if let Some(limit) = before {
            law_nodes_removed_earlier_are_deleted(
                removals_of(old, TrieColumn::Contract),
                limit,
                TrieColumn::Contract,
            );
            law_nodes_removed_earlier_are_deleted(
                removals_of(old, TrieColumn::Class),
                limit,
                TrieColumn::Class,
            );
            law_nodes_removed_earlier_are_deleted(
                removals_of(old, TrieColumn::Storage),
                limit,
                TrieColumn::Storage,
            );
            assert(names(a, trie_column(t), k) ==> t is Contract);
            assert(names(b, trie_column(t), k) ==> t is Class);
            assert(names(c, trie_column(t), k) ==> t is Storage);
        }
    }
}

/// An update marks the nodes that it removed, at its block, where history is pruned; the markers of
/// blocks that are still kept stay. Where all history is kept, the markers are not touched.
pub proof fn law_update_marks_what_it_removed(
    tx: Transaction,
    update: TrieUpdate,
    block: u64,
    t: TrieColumn,
    row: (u64, Seq<u8>),
)
    requires
        forall|i: int|
            0 <= i < update.nodes_removed@.len() ==> (#[trigger] update.nodes_removed@[i])@
                <= MAX_STORAGE_INDEX,
        update.nodes_removed@.len() <= u64::MAX,
    ensures
        ({
            let rows = rows_after(tx, update, block, t);
            match tx.trie_prune_mode {
                TriePruneMode::Archive => rows == removals_of(tx, t),
                TriePruneMode::Prune { num_blocks_kept } => {
                    &&& removals_of(tx, t).contains(row) && row.0 + num_blocks_kept >= block
                        ==> rows.contains(row)
                    &&& update.nodes_removed@.len() > 0 ==> {
                        &&& rows.len() > 0
                        &&& rows.last().0 == block
                        &&& parse_marker(rows.last().1) is Ok
                        &&& parse_marker(rows.last().1)->Ok_0.len() == update.nodes_removed@.len()
                        &&& forall|i: int|
                            0 <= i < update.nodes_removed@.len() ==> parse_marker(
                                rows.last().1,
                            )->Ok_0[i] == (#[trigger] update.nodes_removed@[i])@
                    }
                },
            }
        }),
{
    let removed = index_values(update.nodes_removed@);
    law_marker_read_back(removed);
    if let TriePruneMode::Prune { num_blocks_kept } = tx.trie_prune_mode {
        let old = removals_of(tx, t);
        let kept = pruned_rows(old, prune_before(tx.trie_prune_mode, block));
        if let Some(before) = prune_before(tx.trie_prune_mode, block) {
            law_later_markers_are_left(old, before);
        }
        if removed.len() > 0 {
            lemma_contains_push(kept, rows_after(tx, update, block, t).last(), row);
        }
    }
}

/// An update cannot be stored only where it runs out of indices, or where a node takes more than
/// 224 bytes; none does that has a path of at most 255 bits.
pub proof fn law_nodes_with_short_paths_fit(update: TrieUpdate, order: Seq<usize>, base: u64)
    requires
        walks_in(update.nodes_added@, order),
        update.nodes_added@.len() <= usize::MAX,
        refers_below(update.nodes_added@, base),
        base + order.len() <= MAX_STORAGE_INDEX,
    ensures
        storable(update, order, base as int) <==> forall|k: int|
            #![trigger order[k]]
            0 <= k < order.len() ==> node_encoding(
                stored_at(update.nodes_added@, order, base as int, order[k] as int),
            ).len() <= 224,
        paths_fit(update.nodes_added@) ==> storable(update, order, base as int),
{
    let nodes = update.nodes_added@;
    if paths_fit(nodes) {
        assert forall|k: int| #![trigger order[k]] 0 <= k < order.len() implies node_encoding(
            stored_at(nodes, order, base as int, order[k] as int),
        ).len() <= 224 by {
            lemma_stored_fits(nodes, order, base, k);
            lemma_encoding_is_short(stored_at(nodes, order, base as int, order[k] as int));
        }
    }
}

proof fn lemma_encoding_is_short(n: NodeView)
    requires
        node_fits(n),
    ensures
        node_encoding(n).len() <= 224,
{
    match n {
        NodeView::Binary { left, right } => {
            lemma_varint_read_back(left, Seq::empty());
            lemma_varint_read_back(right, Seq::empty());
        },
        NodeView::Edge { child, path } => {
            lemma_varint_read_back(child, Seq::empty());
            lemma_varint_read_back((packed(path).len() + 1) as u64, Seq::empty());
        },
        NodeView::LeafBinary => {},
        NodeView::LeafEdge { path } => {
            lemma_varint_read_back((packed(path).len() + 1) as u64, Seq::empty());
        },
    }
}

/// Storing an update changes nothing but what belongs to its own trie: the store is as before until
/// the staged writes are committed, no root is recorded, the other tries keep their markers and
/// their next free indices, and what was staged before stays in front.
pub proof fn law_update_touches_its_own_trie(
    old: Transaction,
    new: Transaction,
    update: TrieUpdate,
    block: u64,
    t: TrieColumn,
    u: TrieColumn,
    r: Result<RootIndexUpdate, TransactionError>,
)
    requires
        trie_inserted(old, new, update, block, t, r),
    ensures
        new.store@ == old.store@,
        new.class_roots@ == old.class_roots@,
        new.storage_roots@ == old.storage_roots@,
        new.contract_roots@ == old.contract_roots@,
        new.latest_block == old.latest_block,
        new.trie_prune_mode == old.trie_prune_mode,
        new.blocks == old.blocks,
        u != t ==> removals_of(new, u) == removals_of(old, u),
        u != t ==> counter_of(new.next, u) == counter_of(old.next, u),
        new.batch@.len() >= old.batch@.len(),
        new.batch@.take(old.batch@.len() as int) == old.batch@,
        r is Err && removals_of(new, t) == removals_of(old, t) && new.next == old.next || removals_of(new, t)
            == rows_after(old, update, block, t),
{
    let rows = removals_of(old, t);
    let before = prune_before(old.trie_prune_mode, block);
    assert(new.batch@.take(old.batch@.len() as int) =~= old.batch@);
}

/// Where a node of an update does not fit, the nodes met before it are staged, each under its
/// index, and nothing else; where there are not enough indices, nothing is staged.
pub proof fn law_nodes_before_one_that_does_not_fit_are_staged(
    nodes: Seq<(Felt, Node)>,
    order: Seq<usize>,
    base: u64,
    t: TrieColumn,
    k: int,
    i: int,
)
    requires
        0 <= k < order.len(),
        node_encoding(stored_at(nodes, order, base as int, order[k] as int)).len() > 224,
        forall|j: int|
            #![trigger order[j]]
            0 <= j < k ==> node_encoding(
                stored_at(nodes, order, base as int, order[j] as int),
            ).len() <= 224,
    ensures
        ({
            let ops = stored_ops(nodes, order, base as int, t);
            &&& base + order.len() - 1 > MAX_STORAGE_INDEX ==> ops.len() == 0
            &&& base + order.len() - 1 <= MAX_STORAGE_INDEX ==> {
                &&& ops.len() == k
                &&& 0 <= i < k ==> ops[i] == Op::Put(
                    trie_column(t),
                    be_u64(assigned(order, base as int)[order[i]] as u64),
                    nodes[order[i] as int].0@ + node_encoding(
                        stored_at(nodes, order, base as int, order[i] as int),
                    ),
                )
            }
        }),
{
    lemma_front_that_fits(nodes, order, base as int, k, order.len() as int);
    assert(!all_encode(nodes, order, base as int)) by {
        assert(node_encoding(stored_at(nodes, order, base as int, order[k] as int)).len() > 224);
    }
}

proof fn lemma_front_that_fits(nodes: Seq<(Felt, Node)>, order: Seq<usize>, base: int, k: int, n: int)
    requires
        0 <= k < order.len(),
        0 <= n <= order.len(),
        node_encoding(stored_at(nodes, order, base, order[k] as int)).len() > 224,
        forall|j: int|
            #![trigger order[j]]
            0 <= j < k ==> node_encoding(stored_at(nodes, order, base, order[j] as int)).len() <= 224,
    ensures
        encoding_front(nodes, order, base, n) == (if n <= k {
            n
        } else {
            k
        }),
    decreases n,
{
    if n > 0 {
        lemma_front_that_fits(nodes, order, base, k, n - 1);
        if n <= k {
            assert(node_encoding(stored_at(nodes, order, base, order[n - 1] as int)).len() <= 224);
        }
    }
}

} // verus!
