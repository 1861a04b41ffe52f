//! What storing a trie update guarantees: nodes are read back, the root gets the first index, and a
//! reconciliation gives up exactly what was not confirmed.
use vstd::prelude::*;

use crate::bytes::{be_u64, be_value, lemma_be_u64_injective, lemma_be_u64_value, lemma_be_value_bytes};
use crate::felt::Felt;
use crate::storage::codec::{
    lemma_node_read_back, node_encoding, node_fits, NodeView, MAX_STORAGE_INDEX,
};
use crate::storage::columns::{Column, ColumnMap};
use crate::storage::reconcile::{
    confirmed_tail, search_root, stored_counter, trie_counter, trie_ops, RootRow,
};
use crate::storage::reconcile_laws::{cut, keys_are_blocks, lemma_cut_index, lemma_rewind};
use crate::storage::store::{apply_op, apply_ops, Contents, Op};
use crate::storage::tail_laws::{complete, is_path, law_confirmed_tail, reachable};
use crate::storage::tail_search::{
    entry_node, full_search, lemma_full_search, lemma_search_ends, node_at, refs, Found,
};
use crate::storage::trie::{
    assigned, children, closed_under_children, full_walk, insert_ops, lemma_assigned,
    lemma_assigned_at, lemma_full_walk, lemma_walk_closed, lemma_walk_steps, next_index_key,
    node_op, node_value, root_ref, stored_at, stored_view, trie_column, walk, walk_ends, Node,
    NodeRef, TrieColumn, Walk,
};

verus! {

/// The walk over the added nodes ends, and meets them in the order given.
pub open spec fn walks_in(nodes: Seq<(Felt, Node)>, order: Seq<usize>) -> bool {
    nodes.len() > 0 && walk_ends(nodes) && full_walk(nodes) == Walk::Order(order)
}

/// What a walk in order tells of the nodes met.
pub proof fn lemma_walks_in(nodes: Seq<(Felt, Node)>, order: Seq<usize>)
    requires
        walks_in(nodes, order),
        nodes.len() <= usize::MAX,
    ensures
        exists|steps: nat| #[trigger] walk(nodes, root_ref(nodes), steps) == Walk::Order(order),
        forall|k: int| 0 <= k < order.len() ==> (#[trigger] order[k]) < nodes.len(),
        closed_under_children(nodes, order),
        order.len() > 0,
        order[0] == nodes.len() - 1,
{
    let steps = choose|steps: nat| walk(nodes, root_ref(nodes), steps) !is Unfinished;
    lemma_full_walk(nodes, steps);
    lemma_walk_closed(nodes, root_ref(nodes), steps);
    assert(root_ref(nodes)[0] == NodeRef::Index((nodes.len() - 1) as usize));
    assert(order.contains((nodes.len() - 1) as usize));
}

/// Whether a key is an index from `from` up to but not including `to`.
pub open spec fn is_index_in(k: Seq<u8>, from: int, to: int) -> bool {
    k.len() == 8 && from <= be_value(k) < to
}

/// What the writes for the first `n` nodes met do to the store.
proof fn lemma_after_nodes(
    db: Contents,
    nodes: Seq<(Felt, Node)>,
    order: Seq<usize>,
    base: int,
    t: TrieColumn,
    n: nat,
)
    requires
        n <= order.len(),
        0 <= base,
        base + order.len() <= u64::MAX,
    ensures
        ({
            let ops = Seq::new(n, |k: int| node_op(nodes, order, base, t, k));
            let after = apply_ops(db, ops);
            &&& forall|j: int|
                #![trigger order[j]]
                0 <= j < n ==> after[trie_column(t)].contains_key(
                    be_u64(assigned(order, base)[order[j]] as u64),
                ) && after[trie_column(t)][be_u64(assigned(order, base)[order[j]] as u64)]
                    == node_value(
                    nodes[order[j] as int].0,
                    stored_at(nodes, order, base, order[j] as int),
                )
            &&& forall|k: Seq<u8>|
                !is_index_in(k, base as int, base + order.len()) ==> (
                #[trigger] after[trie_column(t)].contains_key(k)
                    == db[trie_column(t)].contains_key(k) && (db[trie_column(t)].contains_key(k) ==> after[trie_column(t)][k]
                    == db[trie_column(t)][k]))
            &&& forall|c: Column| c != trie_column(t) ==> #[trigger] after[c] == db[c]
            &&& db[trie_column(t)].dom().finite() ==> after[trie_column(t)].dom().finite()
        }),
    decreases n,
{
    let ops = Seq::new(n, |k: int| node_op(nodes, order, base, t, k));
    if n > 0 {
        let m = (n - 1) as nat;
        let front = Seq::new(m, |k: int| node_op(nodes, order, base, t, k));
        assert(ops.drop_last() =~= front);
        lemma_after_nodes(db, nodes, order, base, t, m);
        let after = apply_ops(db, ops);
        assert(order.contains(order[m as int]));
        lemma_assigned_at(order, base, order[m as int]);
        let here = assigned(order, base)[order[m as int]];
        lemma_be_u64_value(here as u64);
        let before = apply_ops(db, front);
        let value = node_value(
            nodes[order[m as int] as int].0,
            stored_at(nodes, order, base, order[m as int] as int),
        );
        assert(ops.last() == node_op(nodes, order, base, t, m as int));
        assert(after == apply_op(before, ops.last()));
        assert(after[trie_column(t)] == before[trie_column(t)].insert(
            be_u64(here as u64),
            value,
        ));
        assert(after[trie_column(t)].dom() =~= before[trie_column(t)].dom().insert(
            be_u64(here as u64),
        ));
        assert(is_index_in(be_u64(here as u64), base, base + order.len()));
        assert forall|j: int| #![trigger order[j]] 0 <= j < n implies after[trie_column(
            t,
        )].contains_key(be_u64(assigned(order, base)[order[j]] as u64)) && after[trie_column(
            t,
        )][be_u64(assigned(order, base)[order[j]] as u64)] == node_value(
            nodes[order[j] as int].0,
            stored_at(nodes, order, base, order[j] as int),
        ) by {
            assert(order.contains(order[j]));
            lemma_assigned_at(order, base, order[j]);
            let there = assigned(order, base)[order[j]];
            if be_u64(there as u64) == be_u64(here as u64) {
                lemma_be_u64_injective(there as u64, here as u64);
                assert(order[there - base] == order[here - base]);
            }
        }
    } else {
        assert(ops =~= Seq::<Op>::empty());
    }
}

/// The store after a trie update was stored.
pub open spec fn after_insert(
    db: Contents,
    nodes: Seq<(Felt, Node)>,
    order: Seq<usize>,
    base: u64,
    t: TrieColumn,
) -> Contents {
    apply_ops(db, insert_ops(nodes, order, base as int, t))
}

/// What storing an update does to the store: each node met is under its index, the next free index
/// follows the last one given out, and everything else is as before.
proof fn lemma_after_insert(
    db: Contents,
    nodes: Seq<(Felt, Node)>,
    order: Seq<usize>,
    base: u64,
    t: TrieColumn,
)
    requires
        base + order.len() <= MAX_STORAGE_INDEX,
    ensures
        ({
            let after = after_insert(db, nodes, order, base, t);
            &&& forall|j: int|
                #![trigger order[j]]
                0 <= j < order.len() ==> after[trie_column(t)].contains_key(
                    be_u64(assigned(order, base as int)[order[j]] as u64),
                ) && after[trie_column(t)][be_u64(assigned(order, base as int)[order[j]] as u64)]
                    == node_value(
                    nodes[order[j] as int].0,
                    stored_at(nodes, order, base as int, order[j] as int),
                )
            &&& forall|k: Seq<u8>|
                !is_index_in(k, base as int, base + order.len()) ==> (
                #[trigger] after[trie_column(t)].contains_key(k)
                    == db[trie_column(t)].contains_key(k) && (db[trie_column(t)].contains_key(k) ==> after[trie_column(t)][k]
                    == db[trie_column(t)][k]))
            &&& forall|c: Column|
                c != trie_column(t) && c != Column::TrieNextIndex ==> #[trigger] after[c] == db[c]
            &&& stored_counter(after, t) == Ok::<u64, usize>((base + order.len()) as u64)
            &&& db[trie_column(t)].dom().finite() ==> after[trie_column(t)].dom().finite()
        }),
{
    let ops = Seq::new(order.len(), |k: int| node_op(nodes, order, base as int, t, k));
    let all = insert_ops(nodes, order, base as int, t);
    assert(all.drop_last() =~= ops);
    lemma_after_nodes(db, nodes, order, base as int, t, order.len());
    lemma_be_u64_value((base + order.len()) as u64);
    let mid = apply_ops(db, ops);
    let after = after_insert(db, nodes, order, base, t);
    assert(after == apply_op(mid, all.last()));
    assert(after[trie_column(t)] == mid[trie_column(t)]);
    assert(after[Column::TrieNextIndex] == mid[Column::TrieNextIndex].insert(
        next_index_key(t),
        be_u64((base + order.len()) as u64),
    ));
    assert(forall|c: Column|
        c != trie_column(t) && c != Column::TrieNextIndex ==> #[trigger] after[c] == mid[c]);
}

/// Whether the nodes met can be read back: paths are at most 255 bits long.
pub open spec fn paths_fit(nodes: Seq<(Felt, Node)>) -> bool {
    forall|i: int|
        #![trigger nodes[i]]
        0 <= i < nodes.len() ==> match nodes[i].1 {
            Node::Edge { path, .. } => path@.len() <= 255,
            Node::LeafEdge { path } => path@.len() <= 255,
            _ => true,
        }
}

/// Whether the references to stored nodes are below the indices given out now.
pub open spec fn refers_below(nodes: Seq<(Felt, Node)>, base: u64) -> bool {
    forall|i: int, c: int|
        #![trigger children(nodes[i].1)[c]]
        0 <= i < nodes.len() && 0 <= c < children(nodes[i].1).len() ==> match children(
            nodes[i].1,
        )[c] {
            NodeRef::StorageIndex(s) => s@ < base,
            NodeRef::Index(_) => true,
        }
}

/// The stored form of a node met has its references in range.
pub proof fn lemma_stored_fits(nodes: Seq<(Felt, Node)>, order: Seq<usize>, base: u64, k: int)
    requires
        walks_in(nodes, order),
        nodes.len() <= usize::MAX,
        paths_fit(nodes),
        refers_below(nodes, base),
        base + order.len() <= MAX_STORAGE_INDEX,
        0 <= k < order.len(),
    ensures
        stored_view(nodes[order[k] as int].1, assigned(order, base as int)) is Some,
        node_fits(stored_at(nodes, order, base as int, order[k] as int)),
        forall|y: u64|
            refs(stored_at(nodes, order, base as int, order[k] as int)).contains(y) ==> y < base || (
            base <= y < base + order.len()),
{
    lemma_walks_in(nodes, order);
    lemma_assigned(order, base as int);
    let n = nodes[order[k] as int].1;
    assert(paths_fit(nodes));
    match n {
        Node::Binary { left, right } => {
            assert(children(n)[0] == left);
            assert(children(n)[1] == right);
        },
        Node::Edge { child, path } => {
            assert(children(n)[0] == child);
        },
        _ => {},
    }
}

/// A node that was stored is read back under its index, with its references resolved and with its
/// hash before it.
pub proof fn law_stored_node_reads_back(
    db: Contents,
    nodes: Seq<(Felt, Node)>,
    order: Seq<usize>,
    base: u64,
    t: TrieColumn,
    k: int,
)
    requires
        walks_in(nodes, order),
        nodes.len() <= usize::MAX,
        paths_fit(nodes),
        refers_below(nodes, base),
        base + order.len() <= MAX_STORAGE_INDEX,
        0 <= k < order.len(),
    ensures
        ({
            let m = after_insert(db, nodes, order, base, t)[trie_column(t)];
            let index = assigned(order, base as int)[order[k]] as u64;
            &&& base <= index < base + order.len()
            &&& m.contains_key(be_u64(index))
            &&& m[be_u64(index)].subrange(0, 32) == nodes[order[k] as int].0@
            &&& node_at(m, index) == Some(
                stored_at(nodes, order, base as int, order[k] as int),
            )
        }),
{
    lemma_after_insert(db, nodes, order, base, t);
    lemma_stored_fits(nodes, order, base, k);
    assert(order.contains(order[k]));
    lemma_assigned_at(order, base as int, order[k]);
    let m = after_insert(db, nodes, order, base, t)[trie_column(t)];
    let index = assigned(order, base as int)[order[k]] as u64;
    let stored = stored_at(nodes, order, base as int, order[k] as int);
    let hash = nodes[order[k] as int].0;
    assert(m[be_u64(index)] == node_value(hash, stored));
    lemma_value_read_back(hash, stored);
}

/// A node and its hash are read back from the value stored for it.
pub proof fn lemma_value_read_back(hash: Felt, n: NodeView)
    requires
        node_fits(n),
    ensures
        node_value(hash, n).subrange(0, 32) == hash@,
        entry_node(node_value(hash, n)) == Some(n),
{
    let value = node_value(hash, n);
    Felt::lemma_view_injective(hash, hash);
    assert(value.subrange(0, 32) =~= hash@);
    assert(value.subrange(32, value.len() as int) =~= node_encoding(n) + Seq::<u8>::empty());
    lemma_node_read_back(n, Seq::empty());
    reveal(entry_node);
}

/// What a walk meets with part of the stack below left out.
proof fn lemma_walk_top(
    nodes: Seq<(Felt, Node)>,
    below: Seq<NodeRef>,
    stack: Seq<NodeRef>,
    steps: nat,
)
    requires
        walk(nodes, below + stack, steps) is Order,
    ensures
        walk(nodes, stack, steps) is Order,
    decreases steps,
{
    if stack.len() > 0 {
        let all = below + stack;
        assert(all.last() == stack.last());
        assert(all.drop_last() =~= below + stack.drop_last());
        match stack.last() {
            NodeRef::StorageIndex(_) => {
                lemma_walk_top(nodes, below, stack.drop_last(), (steps - 1) as nat);
            },
            NodeRef::Index(i) => {
                let kids = children(nodes[i as int].1);
                assert(all.drop_last() + kids =~= below + (stack.drop_last() + kids));
                lemma_walk_top(nodes, below, stack.drop_last() + kids, (steps - 1) as nat);
            },
        }
    }
}

/// A node met after `k` others is walked through with `k` steps less.
proof fn lemma_walk_sub(nodes: Seq<(Felt, Node)>, stack: Seq<NodeRef>, steps: nat, k: int) -> (r: nat)
    requires
        walk(nodes, stack, steps) is Order,
        0 <= k < walk(nodes, stack, steps)->Order_0.len(),
    ensures
        r + k <= steps,
        walk(nodes, seq![NodeRef::Index(walk(nodes, stack, steps)->Order_0[k])], r) is Order,
    decreases steps,
{
    let below = stack.drop_last();
    assert(stack =~= below + seq![stack.last()]);
    match stack.last() {
        NodeRef::StorageIndex(_) => lemma_walk_sub(nodes, below, (steps - 1) as nat, k),
        NodeRef::Index(i) => {
            if k == 0 {
                lemma_walk_top(nodes, below, seq![stack.last()], steps);
                steps
            } else {
                let next = below + children(nodes[i as int].1);
                let rest = walk(nodes, next, (steps - 1) as nat)->Order_0;
                assert(walk(nodes, stack, steps)->Order_0[k] == rest[k - 1]);
                lemma_walk_sub(nodes, next, (steps - 1) as nat, k - 1)
            }
        },
    }
}

/// A walk that ends does not come back to the node that it starts from.
proof fn lemma_start_once(nodes: Seq<(Felt, Node)>, i: usize, steps: nat, k: int)
    requires
        walk(nodes, seq![NodeRef::Index(i)], steps) is Order,
        0 < k < walk(nodes, seq![NodeRef::Index(i)], steps)->Order_0.len(),
    ensures
        walk(nodes, seq![NodeRef::Index(i)], steps)->Order_0[k] != i,
    decreases steps,
{
    let order = walk(nodes, seq![NodeRef::Index(i)], steps)->Order_0;
    if order[k] == i {
        let fewer = lemma_walk_sub(nodes, seq![NodeRef::Index(i)], steps, k);
        lemma_walk_steps(nodes, seq![NodeRef::Index(i)], fewer, steps);
        lemma_start_once(nodes, i, fewer, k);
    }
}

/// The root of an update gets the first of the indices given out.
pub proof fn law_root_gets_first_index(nodes: Seq<(Felt, Node)>, order: Seq<usize>, base: u64)
    requires
        walks_in(nodes, order),
        nodes.len() <= usize::MAX,
    ensures
        assigned(order, base as int).contains_key((nodes.len() - 1) as usize),
        assigned(order, base as int)[(nodes.len() - 1) as usize] == base,
{
    lemma_walks_in(nodes, order);
    let root = (nodes.len() - 1) as usize;
    assert(order[0] == root);
    assert(order.contains(root));
    lemma_assigned_at(order, base as int, root);
    let p = assigned(order, base as int)[root] - base;
    if p > 0 {
        let steps = choose|steps: nat| #[trigger]
            walk(nodes, root_ref(nodes), steps) == Walk::Order(order);
        assert(root_ref(nodes) =~= seq![NodeRef::Index(root)]);
        lemma_start_once(nodes, root, steps, p);
    }
}

/// From the root's index, references lead to the index of every node met.
proof fn lemma_all_reachable(
    m: ColumnMap,
    nodes: Seq<(Felt, Node)>,
    order: Seq<usize>,
    base: u64,
    stack: Seq<NodeRef>,
    steps: nat,
)
    requires
        base + order.len() <= MAX_STORAGE_INDEX,
        forall|i: usize| #[trigger]
            order.contains(i) ==> node_at(m, assigned(order, base as int)[i] as u64) == Some(
                stored_at(nodes, order, base as int, i as int),
            ) && stored_view(nodes[i as int].1, assigned(order, base as int)) is Some,
        closed_under_children(nodes, order),
        walk(nodes, stack, steps) is Order,
        forall|k: int|
            0 <= k < walk(nodes, stack, steps)->Order_0.len() ==> order.contains(
                #[trigger] walk(nodes, stack, steps)->Order_0[k],
            ),
        forall|j: int|
            0 <= j < stack.len() ==> (#[trigger] stack[j] matches NodeRef::Index(i) ==> reachable(
                m,
                base,
                assigned(order, base as int)[i] as u64,
            )),
    ensures
        forall|k: int|
            0 <= k < walk(nodes, stack, steps)->Order_0.len() ==> reachable(
                m,
                base,
                assigned(order, base as int)[#[trigger] walk(nodes, stack, steps)->Order_0[k]] as u64,
            ),
    decreases steps,
{
    if stack.len() > 0 {
        let below = stack.drop_last();
        let met = walk(nodes, stack, steps)->Order_0;
        match stack.last() {
            NodeRef::StorageIndex(_) => {
                assert forall|j: int| 0 <= j < below.len() implies (#[trigger] below[j] matches NodeRef::Index(
                    i,
                ) ==> reachable(m, base, assigned(order, base as int)[i] as u64)) by {
                    assert(below[j] == stack[j]);
                }
                lemma_all_reachable(m, nodes, order, base, below, (steps - 1) as nat);
            },
            NodeRef::Index(top) => {
                let kids = children(nodes[top as int].1);
                let next = below + kids;
                let rest = walk(nodes, next, (steps - 1) as nat)->Order_0;
                assert(met =~= seq![top] + rest);
                assert(met[0] == top);
                assert(order.contains(top));
                assert(stack[stack.len() - 1] == NodeRef::Index(top));
                let here = assigned(order, base as int)[top] as u64;
                let stored = stored_at(nodes, order, base as int, top as int);
                lemma_kids_resolved(nodes, order, base, top);
                assert forall|j: int| 0 <= j < next.len() implies (#[trigger] next[j] matches NodeRef::Index(
                    i,
                ) ==> reachable(m, base, assigned(order, base as int)[i] as u64)) by {
                    if j < below.len() {
                        assert(next[j] == stack[j]);
                    } else {
                        let c = j - below.len();
                        assert(next[j] == kids[c]);
                        if let NodeRef::Index(i) = kids[c] {
                            let p = choose|p: int| 0 <= p < order.len() && order[p] == top;
                            assert(children(nodes[order[p] as int].1)[c] == kids[c]);
                            assert(order.contains(i));
                            lemma_assigned_at(order, base as int, i);
                            let to = assigned(order, base as int)[i] as u64;
                            assert(refs(stored).contains(to));
                            lemma_step(m, base, here, to);
                        }
                    }
                }
                assert forall|k: int| 0 <= k < rest.len() implies order.contains(
                    #[trigger] rest[k],
                ) by {
                    assert(met[k + 1] == rest[k]);
                }
                lemma_all_reachable(m, nodes, order, base, next, (steps - 1) as nat);
                assert forall|k: int| 0 <= k < met.len() implies reachable(
                    m,
                    base,
                    assigned(order, base as int)[#[trigger] met[k]] as u64,
                ) by {
                    if k > 0 {
                        assert(met[k] == rest[k - 1]);
                    }
                }
            },
        }
    }
}

/// The stored form of a node refers to the indices of its children.
proof fn lemma_kids_resolved(nodes: Seq<(Felt, Node)>, order: Seq<usize>, base: u64, i: usize)
    requires
        stored_view(nodes[i as int].1, assigned(order, base as int)) is Some,
    ensures
        forall|c: int|
            #![trigger children(nodes[i as int].1)[c]]
            0 <= c < children(nodes[i as int].1).len() ==> (children(
                nodes[i as int].1,
            )[c] matches NodeRef::Index(x) ==> refs(
                stored_at(nodes, order, base as int, i as int),
            ).contains(assigned(order, base as int)[x] as u64)),
{
    let n = nodes[i as int].1;
    let r = refs(stored_at(nodes, order, base as int, i as int));
    match n {
        Node::Binary { left, right } => {
            assert(children(n)[0] == left);
            assert(children(n)[1] == right);
            assert(r.contains(r[0]) && r.contains(r[1]));
        },
        Node::Edge { child, path } => {
            assert(children(n)[0] == child);
            assert(r.contains(r[0]));
        },
        _ => {},
    }
}

proof fn lemma_step(m: ColumnMap, root: u64, x: u64, y: u64)
    requires
        reachable(m, root, x),
        y >= root,
        node_at(m, x) is Some,
        refs(node_at(m, x)->Some_0).contains(y),
    ensures
        reachable(m, root, y),
{
    let p = choose|p: Seq<u64>| #[trigger] is_path(m, root, p) && p.last() == x;
    let q = p.push(y);
    assert forall|i: int| #![trigger q[i]] 0 < i < q.len() implies q[i] >= root && node_at(
        m,
        q[i - 1],
    ) is Some && refs(node_at(m, q[i - 1])->Some_0).contains(q[i]) by {
        if i < p.len() {
            assert(q[i] == p[i]);
        }
    }
    assert(is_path(m, root, q));
    assert(q.last() == y);
}

/// Storing an update takes up the indices up to the next free one: everything that the new root
/// leads to from its own index on is stored, and the highest of it is the last index given out.
pub proof fn law_update_fills_its_indices(
    db: Contents,
    nodes: Seq<(Felt, Node)>,
    order: Seq<usize>,
    base: u64,
    t: TrieColumn,
)
    requires
        walks_in(nodes, order),
        nodes.len() <= usize::MAX,
        paths_fit(nodes),
        refers_below(nodes, base),
        base + order.len() <= MAX_STORAGE_INDEX,
    ensures
        complete(
            after_insert(db, nodes, order, base, t)[trie_column(t)],
            base,
            (base + order.len() - 1) as u64,
        ),
        reachable(
            after_insert(db, nodes, order, base, t)[trie_column(t)],
            base,
            (base + order.len() - 1) as u64,
        ),
{
    let m = after_insert(db, nodes, order, base, t)[trie_column(t)];
    let ix = assigned(order, base as int);
    lemma_walks_in(nodes, order);
    law_root_gets_first_index(nodes, order, base);
    assert forall|i: usize| #[trigger] order.contains(i) implies node_at(m, ix[i] as u64) == Some(
        stored_at(nodes, order, base as int, i as int),
    ) && stored_view(nodes[i as int].1, ix) is Some by {
        let k = choose|k: int| 0 <= k < order.len() && order[k] == i;
        law_stored_node_reads_back(db, nodes, order, base, t, k);
        lemma_stored_fits(nodes, order, base, k);
    }
    let steps = choose|steps: nat| #[trigger]
        walk(nodes, root_ref(nodes), steps) == Walk::Order(order);
    let start = seq![base];
    assert(is_path(m, base, start));
    assert(start.last() == base);
    assert(reachable(m, base, base));
    assert forall|k: int| 0 <= k < walk(nodes, root_ref(nodes), steps)->Order_0.len() implies order.contains(
        #[trigger] walk(nodes, root_ref(nodes), steps)->Order_0[k],
    ) by {}
    lemma_all_reachable(m, nodes, order, base, root_ref(nodes), steps);
    // The node met last has the last index.
    let last = order[order.len() - 1];
    assert(ix[last] == base + order.len() - 1);
    assert(walk(nodes, root_ref(nodes), steps)->Order_0[order.len() - 1] == last);
    assert(reachable(m, base, ix[last] as u64));
    assert forall|x: u64| #[trigger] reachable(m, base, x) implies node_at(m, x) is Some && x
        <= base + order.len() - 1 by {
        let p = choose|p: Seq<u64>| #[trigger] is_path(m, base, p) && p.last() == x;
        lemma_path_within(m, nodes, order, base, p, p.len() - 1);
        assert(p[p.len() - 1] == x);
        let i = choose|i: usize| #[trigger] order.contains(i) && ix[i] == x;
        lemma_assigned_at(order, base as int, i);
    }
}

/// Every index on a path from the root is that of a node met.
proof fn lemma_path_within(
    m: ColumnMap,
    nodes: Seq<(Felt, Node)>,
    order: Seq<usize>,
    base: u64,
    p: Seq<u64>,
    j: int,
)
    requires
        walks_in(nodes, order),
        nodes.len() <= usize::MAX,
        paths_fit(nodes),
        refers_below(nodes, base),
        base + order.len() <= MAX_STORAGE_INDEX,
        forall|i: usize| #[trigger]
            order.contains(i) ==> node_at(m, assigned(order, base as int)[i] as u64) == Some(
                stored_at(nodes, order, base as int, i as int),
            ),
        is_path(m, base, p),
        0 <= j < p.len(),
    ensures
        exists|i: usize| #[trigger]
            order.contains(i) && assigned(order, base as int)[i] == p[j],
    decreases j,
{
    lemma_walks_in(nodes, order);
    law_root_gets_first_index(nodes, order, base);
    let ix = assigned(order, base as int);
    if j == 0 {
        let root = (nodes.len() - 1) as usize;
        assert(order.contains(root));
        assert(ix[root] == p[0]);
    } else {
        lemma_path_within(m, nodes, order, base, p, j - 1);
        let i = choose|i: usize| #[trigger] order.contains(i) && ix[i] == p[j - 1];
        lemma_assigned_at(order, base as int, i);
        let k = choose|k: int| 0 <= k < order.len() && order[k] == i;
        lemma_stored_fits(nodes, order, base, k);
        assert(refs(node_at(m, p[j - 1])->Some_0).contains(p[j]));
        lemma_ref_is_met(nodes, order, base, k, p[j]);
    }
}

/// A reference of a stored node at or above the first index is the index of a node met.
proof fn lemma_ref_is_met(nodes: Seq<(Felt, Node)>, order: Seq<usize>, base: u64, k: int, y: u64)
    requires
        walks_in(nodes, order),
        nodes.len() <= usize::MAX,
        refers_below(nodes, base),
        base + order.len() <= MAX_STORAGE_INDEX,
        0 <= k < order.len(),
        stored_view(nodes[order[k] as int].1, assigned(order, base as int)) is Some,
        refs(stored_at(nodes, order, base as int, order[k] as int)).contains(y),
        y >= base,
    ensures
        exists|i: usize| #[trigger] order.contains(i) && assigned(order, base as int)[i] == y,
{
    lemma_walks_in(nodes, order);
    lemma_assigned(order, base as int);
    let ix = assigned(order, base as int);
    let n = nodes[order[k] as int].1;
    let r = refs(stored_at(nodes, order, base as int, order[k] as int));
    let c = choose|c: int| 0 <= c < r.len() && r[c] == y;
    match n {
        Node::Binary { left, right } => {
            assert(children(n)[0] == left);
            assert(children(n)[1] == right);
        },
        Node::Edge { child, path } => {
            assert(children(n)[0] == child);
        },
        _ => {},
    }
    match children(n)[c] {
        NodeRef::Index(i) => {
            assert(order.contains(i));
            assert(ix[i] == y);
        },
        NodeRef::StorageIndex(s) => {},
    }
}

/// What a reconciliation finds where the confirmed root leads up to `counter` and more indices were
/// given out after it: it gives up exactly those.
pub proof fn law_unconfirmed_indices_given_up(
    db: Contents,
    confirmed: ColumnMap,
    t: TrieColumn,
    counter: u64,
    top: u64,
    row: Option<RootRow>,
)
    requires
        db[trie_column(t)].dom().finite(),
        stored_counter(db, t) is Ok,
        0 < counter <= stored_counter(db, t)->Ok_0,
        counter <= MAX_STORAGE_INDEX,
        search_root(stored_counter(db, t)->Ok_0, top, row) matches Some(root) && complete(
            confirmed,
            root,
            (counter - 1) as u64,
        ) && reachable(confirmed, root, (counter - 1) as u64),
        cut(db[trie_column(t)], counter, stored_counter(db, t)->Ok_0) == confirmed,
    ensures
        apply_ops(db, trie_ops(db, t, top, row))[trie_column(t)] == confirmed,
        trie_counter(db, t, top, row) == counter,
{
    let m = db[trie_column(t)];
    let end = stored_counter(db, t)->Ok_0;
    let root = search_root(end, top, row)->Some_0;
    let tail = (counter - 1) as u64;
    assert forall|x: u64| #[trigger] reachable(confirmed, root, x) implies node_at(m, x) == node_at(
        confirmed,
        x,
    ) by {
        lemma_cut_index(m, counter, end, x);
    }
    assert forall|x: u64| reachable(confirmed, root, x) <==> #[trigger] reachable(m, root, x) by {
        if reachable(confirmed, root, x) {
            let p = choose|p: Seq<u64>| #[trigger] is_path(confirmed, root, p) && p.last() == x;
            crate::storage::reconcile_laws::lemma_path_kept(confirmed, m, root, p);
        }
        if reachable(m, root, x) {
            let p = choose|p: Seq<u64>| #[trigger] is_path(m, root, p) && p.last() == x;
            crate::storage::reconcile_laws::lemma_path_back(confirmed, m, root, p);
        }
    }
    lemma_search_ends(m, root, end);
    lemma_full_search(m, root, end, m.dom().len() + 1);
    law_confirmed_tail(m, root, end);
    match full_search(m, root, end) {
        Found::Tail(y) => {
            assert(reachable(confirmed, root, y));
            assert(reachable(m, root, tail));
            if y + 1 == end {
                assert(y <= tail);
            }
        },
        Found::Aborted => {
            let x = choose|x: u64| #[trigger] reachable(m, root, x) && node_at(m, x) is None;
            assert(reachable(confirmed, root, x));
        },
        Found::Unfinished => {},
    }
    assert(full_search(m, root, end) == Found::Tail(tail));
    lemma_rewind(db, end, confirmed_tail(db, t, end, top, row), t);
}

/// A commit whose root was not confirmed is undone by a reconciliation: after a confirmed update was
/// stored from `base` on, and a second update behind it whose root is not recorded, the trie's
/// column and its next free index come back to what they were before the second update.
pub proof fn law_unconfirmed_commit_undone(
    db: Contents,
    first: Seq<(Felt, Node)>,
    first_order: Seq<usize>,
    second: Seq<(Felt, Node)>,
    second_order: Seq<usize>,
    base: u64,
    t: TrieColumn,
    top: u64,
    row: Option<RootRow>,
)
    requires
        db[trie_column(t)].dom().finite(),
        keys_are_blocks(db[trie_column(t)]),
        forall|x: u64|
            x >= base + first_order.len() ==> !db[trie_column(t)].contains_key(
                #[trigger] be_u64(x),
            ),
        walks_in(first, first_order),
        first.len() <= usize::MAX,
        paths_fit(first),
        refers_below(first, base),
        base + first_order.len() + second_order.len() <= MAX_STORAGE_INDEX,
        search_root((base + first_order.len() + second_order.len()) as u64, top, row) == Some(base),
    ensures
        ({
            let confirmed = after_insert(db, first, first_order, base, t);
            let next = (base + first_order.len()) as u64;
            let crashed = after_insert(confirmed, second, second_order, next, t);
            &&& stored_counter(confirmed, t) == Ok::<u64, usize>(next)
            &&& apply_ops(crashed, trie_ops(crashed, t, top, row))[trie_column(t)]
                == confirmed[trie_column(t)]
            &&& trie_counter(crashed, t, top, row) == next
        }),
{
    let c = trie_column(t);
    let confirmed = after_insert(db, first, first_order, base, t);
    let next = (base + first_order.len()) as u64;
    let end = (next + second_order.len()) as u64;
    let crashed = after_insert(confirmed, second, second_order, next, t);
    lemma_walks_in(first, first_order);
    lemma_after_insert(db, first, first_order, base, t);
    lemma_after_insert(confirmed, second, second_order, next, t);
    law_update_fills_its_indices(db, first, first_order, base, t);
    let m = cut(crashed[c], next, end);
    assert forall|k: Seq<u8>| #[trigger] confirmed[c].contains_key(k) implies k.len() == 8
        && be_value(k) < next by {
        if !is_index_in(k, base as int, next as int) {
            assert(db[c].contains_key(k));
            lemma_be_value_bytes(k);
            if be_value(k) >= next {
                assert(db[c].contains_key(be_u64(be_value(k) as u64)));
            }
        }
    }
    assert forall|k: Seq<u8>| m.contains_key(k) <==> confirmed[c].contains_key(k) by {
        if m.contains_key(k) {
            if is_index_in(k, next as int, end as int) {
                lemma_be_value_bytes(k);
                lemma_cut_index(crashed[c], next, end, be_value(k) as u64);
            }
        }
        if confirmed[c].contains_key(k) {
            lemma_be_value_bytes(k);
            lemma_cut_index(crashed[c], next, end, be_value(k) as u64);
            assert(crashed[c].contains_key(k));
        }
    }
    assert forall|k: Seq<u8>| m.contains_key(k) implies m[k] == confirmed[c][k] by {
        assert(confirmed[c].contains_key(k));
    }
    assert(m =~= confirmed[c]);
    law_unconfirmed_indices_given_up(crashed, confirmed[c], t, next, top, row);
}

} // verus!
