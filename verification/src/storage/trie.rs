//! Storing the nodes of a trie under consecutive indices.
use std::collections::HashMap;
use vstd::prelude::*;

use crate::bytes::{be_u64, copy_bytes, push_bytes, u64_to_be_bytes};
use crate::felt::Felt;
use crate::storage::codec::{
    node_encoding, NodeView, StoredNode, TrieStorageIndex, MAX_STORAGE_INDEX,
};
use crate::storage::columns::Column;
use crate::storage::store::{Batch, Op};

verus! {

broadcast use vstd::std_specs::hash::group_hash_axioms;

pub const TRIE_CLASS_COLUMN: Column = Column::TrieClass;

pub const TRIE_CONTRACT_COLUMN: Column = Column::TrieContract;

pub const TRIE_STORAGE_COLUMN: Column = Column::TrieStorage;

pub const TRIE_NEXT_INDEX_COLUMN: Column = Column::TrieNextIndex;

/// The number of bytes that an encoded node may take.
pub const MAX_NODE_BYTES: usize = 224;

/// Selects one of the three tries.
#[derive(Clone, Copy, Debug, PartialEq, Eq, Structural)]
pub enum TrieColumn {
    Class,
    Contract,
    Storage,
}

/// The column that holds the nodes of a trie.
pub open spec fn trie_column(t: TrieColumn) -> Column {
    match t {
        TrieColumn::Class => Column::TrieClass,
        TrieColumn::Contract => Column::TrieContract,
        TrieColumn::Storage => Column::TrieStorage,
    }
}

/// The name of the column that holds the nodes of a trie.
pub open spec fn trie_name(t: TrieColumn) -> Seq<char> {
    match t {
        TrieColumn::Class => "trie_class"@,
        TrieColumn::Contract => "trie_contract"@,
        TrieColumn::Storage => "trie_storage"@,
    }
}

/// The key under which the next free index of a trie is kept: the name of its column.
pub open spec fn next_index_key(t: TrieColumn) -> Seq<u8> {
    vstd::utf8::encode_utf8(trie_name(t))
}

/// Each trie has a key of its own for its next free index.
pub proof fn lemma_next_index_keys(a: TrieColumn, b: TrieColumn)
    requires
        a != b,
    ensures
        next_index_key(a) != next_index_key(b),
{
    reveal_strlit("trie_class");
    reveal_strlit("trie_contract");
    reveal_strlit("trie_storage");
    broadcast use vstd::utf8::encode_utf8_decode_utf8;

    assert(trie_name(a).len() != trie_name(b).len());
    assert(vstd::utf8::decode_utf8(next_index_key(a)) == trie_name(a));
    assert(vstd::utf8::decode_utf8(next_index_key(b)) == trie_name(b));
}

impl TrieColumn {
    /// The column that holds the nodes of the trie.
    pub fn column(self) -> (r: Column)
        ensures
            r == trie_column(self),
    {
        match self {
            TrieColumn::Class => TRIE_CLASS_COLUMN,
            TrieColumn::Contract => TRIE_CONTRACT_COLUMN,
            TrieColumn::Storage => TRIE_STORAGE_COLUMN,
        }
    }

    /// The trie whose nodes a column holds.
    pub fn from_column(column: Column) -> (r: Option<TrieColumn>)
        ensures
            r matches Some(t) ==> trie_column(t) == column,
            r is None ==> forall|t: TrieColumn| trie_column(t) != column,
    {
        match column {
            Column::TrieClass => Some(TrieColumn::Class),
            Column::TrieContract => Some(TrieColumn::Contract),
            Column::TrieStorage => Some(TrieColumn::Storage),
            _ => None,
        }
    }

    /// The name of the column that holds the nodes of the trie.
    pub fn name(self) -> (r: &'static str)
        ensures
            r@ == trie_name(self),
    {
        match self {
            TrieColumn::Class => "trie_class",
            TrieColumn::Contract => "trie_contract",
            TrieColumn::Storage => "trie_storage",
        }
    }

    /// The key under which the next free index of the trie is kept.
    pub fn next_index_key(self) -> (r: Vec<u8>)
        ensures
            r@ == next_index_key(self),
    {
        copy_bytes(self.name().as_bytes())
    }
}

/// A reference from one node to another.
#[derive(Clone, Copy, Debug, PartialEq, Eq, Structural)]
pub enum NodeRef {
    /// A node that is in storage already.
    StorageIndex(TrieStorageIndex),
    /// A node that is not in storage yet, by its position among the added nodes.
    Index(usize),
}

/// A trie node whose children may not be in storage yet.
#[derive(Debug)]
pub enum Node {
    Binary { left: NodeRef, right: NodeRef },
    Edge { child: NodeRef, path: Vec<bool> },
    LeafBinary,
    LeafEdge { path: Vec<bool> },
}

/// The result of committing a Merkle tree.
#[derive(Debug)]
pub struct TrieUpdate {
    /// The new nodes with their hashes. The last one is the root of the trie.
    pub nodes_added: Vec<(Felt, Node)>,
    /// Stored nodes that the trie no longer holds.
    pub nodes_removed: Vec<TrieStorageIndex>,
    /// The new root commitment of the trie.
    pub root_commitment: Felt,
}

/// What storing a `TrieUpdate` does to the root of the trie.
#[derive(Clone, Copy, Debug, PartialEq, Eq, Structural)]
pub enum RootIndexUpdate {
    Unchanged,
    Updated(TrieStorageIndex),
    TrieEmpty,
}

/// Why a trie update cannot be stored.
#[derive(Clone, Copy, Debug, PartialEq, Eq, Structural)]
pub enum TrieError {
    /// A reference points past the added nodes.
    NodeIndexMissing,
    /// The storage indices are used up.
    IndexOverflow,
    /// A node takes too many bytes.
    EncodingNode,
}

impl TrieError {
    pub fn message(&self) -> (r: &'static str)
        ensures
            r@ == match self {
                TrieError::NodeIndexMissing => "Node index missing"@,
                TrieError::IndexOverflow => "TrieStorageIndex overflow"@,
                TrieError::EncodingNode => "Encoding node"@,
            },
    {
        match self {
            TrieError::NodeIndexMissing => "Node index missing",
            TrieError::IndexOverflow => "TrieStorageIndex overflow",
            TrieError::EncodingNode => "Encoding node",
        }
    }
}

/// The references that a node holds.
pub open spec fn children(n: Node) -> Seq<NodeRef> {
    match n {
        Node::Binary { left, right } => seq![left, right],
        Node::Edge { child, .. } => seq![child],
        Node::LeafBinary => seq![],
        Node::LeafEdge { .. } => seq![],
    }
}

/// How a walk over the added nodes ends.
pub enum Walk {
    /// The positions of the nodes met, in order.
    Order(Seq<usize>),
    /// A reference points past the added nodes.
    Missing,
    /// The walk is not over after the number of steps given.
    Unfinished,
}

/// Walks the added nodes depth first, the last reference of a node first. References to stored
/// nodes are not followed.
pub open spec fn walk(nodes: Seq<(Felt, Node)>, stack: Seq<NodeRef>, steps: nat) -> Walk
    decreases steps,
{
    if stack.len() == 0 {
        Walk::Order(Seq::empty())
    } else if steps == 0 {
        Walk::Unfinished
    } else {
        match stack.last() {
            NodeRef::StorageIndex(_) => walk(nodes, stack.drop_last(), (steps - 1) as nat),
            NodeRef::Index(i) => if i >= nodes.len() {
                Walk::Missing
            } else {
                match walk(
                    nodes,
                    stack.drop_last() + children(nodes[i as int].1),
                    (steps - 1) as nat,
                ) {
                    Walk::Order(rest) => Walk::Order(seq![i] + rest),
                    other => other,
                }
            },
        }
    }
}

/// The reference to the root of an update: the last node added.
pub open spec fn root_ref(nodes: Seq<(Felt, Node)>) -> Seq<NodeRef> {
    seq![NodeRef::Index((nodes.len() - 1) as usize)]
}

/// The walk over the added nodes from the root comes to an end. It does where no node is its own
/// descendant.
pub open spec fn walk_ends(nodes: Seq<(Felt, Node)>) -> bool {
    nodes.len() > 0 ==> exists|steps: nat| walk(nodes, root_ref(nodes), steps) !is Unfinished
}

/// The walk over the added nodes from the root, taken to its end.
pub open spec fn full_walk(nodes: Seq<(Felt, Node)>) -> Walk {
    let steps = choose|steps: nat| walk(nodes, root_ref(nodes), steps) !is Unfinished;
    walk(nodes, root_ref(nodes), steps)
}

/// A walk that is over stays as it is with more steps.
pub proof fn lemma_walk_steps(nodes: Seq<(Felt, Node)>, stack: Seq<NodeRef>, a: nat, b: nat)
    requires
        a <= b,
        walk(nodes, stack, a) !is Unfinished,
    ensures
        walk(nodes, stack, b) == walk(nodes, stack, a),
    decreases a,
{
    if stack.len() > 0 && a > 0 {
        match stack.last() {
            NodeRef::StorageIndex(_) => {
                lemma_walk_steps(nodes, stack.drop_last(), (a - 1) as nat, (b - 1) as nat);
            },
            NodeRef::Index(i) => {
                if i < nodes.len() {
                    lemma_walk_steps(
                        nodes,
                        stack.drop_last() + children(nodes[i as int].1),
                        (a - 1) as nat,
                        (b - 1) as nat,
                    );
                }
            },
        }
    }
}

/// The walk taken to its end is the walk with any number of steps that suffices.
pub proof fn lemma_full_walk(nodes: Seq<(Felt, Node)>, steps: nat)
    requires
        walk(nodes, root_ref(nodes), steps) !is Unfinished,
    ensures
        full_walk(nodes) == walk(nodes, root_ref(nodes), steps),
        full_walk(nodes) !is Unfinished,
{
    let s = choose|s: nat| walk(nodes, root_ref(nodes), s) !is Unfinished;
    if s <= steps {
        lemma_walk_steps(nodes, root_ref(nodes), s, steps);
    } else {
        lemma_walk_steps(nodes, root_ref(nodes), steps, s);
    }
}

/// The storage indices given to nodes met in the order `order`, from `base` on: each meeting takes
/// the next index, and the last one counts.
pub open spec fn assigned(order: Seq<usize>, base: int) -> Map<usize, int>
    decreases order.len(),
{
    if order.len() == 0 {
        Map::empty()
    } else {
        assigned(order.drop_last(), base).insert(order.last(), base + order.len() - 1)
    }
}

/// The index of a referenced node.
pub open spec fn resolve(r: NodeRef, indices: Map<usize, int>) -> Option<int> {
    match r {
        NodeRef::StorageIndex(s) => Some(s@ as int),
        NodeRef::Index(i) => if indices.contains_key(i) {
            Some(indices[i])
        } else {
            None
        },
    }
}

/// A node with its references resolved.
pub open spec fn stored_view(n: Node, indices: Map<usize, int>) -> Option<NodeView> {
    match n {
        Node::Binary { left, right } => match (resolve(left, indices), resolve(right, indices)) {
            (Some(l), Some(r)) => Some(NodeView::Binary { left: l as u64, right: r as u64 }),
            _ => None,
        },
        Node::Edge { child, path } => match resolve(child, indices) {
            Some(c) => Some(NodeView::Edge { child: c as u64, path: path@ }),
            None => None,
        },
        Node::LeafBinary => Some(NodeView::LeafBinary),
        Node::LeafEdge { path } => Some(NodeView::LeafEdge { path: path@ }),
    }
}

/// The indices of an exec map, as integers.
pub open spec fn index_map(indices: Map<usize, TrieStorageIndex>) -> Map<usize, int> {
    indices.map_values(|i: TrieStorageIndex| i@ as int)
}

fn copy_path(path: &Vec<bool>) -> (r: Vec<bool>)
    ensures
        r@ == path@,
{
    let mut r: Vec<bool> = Vec::new();
    let mut i: usize = 0;
    while i < path.len()
        invariant
            i <= path@.len(),
            r@ == path@.subrange(0, i as int),
        decreases path@.len() - i,
    {
        r.push(path[i]);
        i = i + 1;
        assert(r@ =~= path@.subrange(0, i as int));
    }
    assert(r@ =~= path@);
    r
}

fn resolve_ref(r: &NodeRef, indices: &HashMap<usize, TrieStorageIndex>) -> (res: Result<
    TrieStorageIndex,
    TrieError,
>)
    ensures
        match resolve(*r, index_map(indices@)) {
            Some(x) => res matches Ok(i) && i@ == x,
            None => res == Err::<TrieStorageIndex, TrieError>(TrieError::NodeIndexMissing),
        },
{
    match r {
        NodeRef::StorageIndex(id) => Ok(*id),
        NodeRef::Index(i) => match indices.get(i) {
            Some(id) => Ok(*id),
            None => Err(TrieError::NodeIndexMissing),
        },
    }
}

impl Node {
    /// The node with its references resolved.
    pub fn as_stored(&self, indices: &HashMap<usize, TrieStorageIndex>) -> (r: Result<
        StoredNode,
        TrieError,
    >)
        ensures
            match stored_view(*self, index_map(indices@)) {
                Some(n) => r matches Ok(s) && s@ == n,
                None => r == Err::<StoredNode, TrieError>(TrieError::NodeIndexMissing),
            },
    {
        match self {
            Node::Binary { left, right } => {
                let left: TrieStorageIndex = match resolve_ref(left, indices) {
                    Ok(i) => i,
                    Err(e) => {
                        return Err(e);
                    },
                };
                let right: TrieStorageIndex = match resolve_ref(right, indices) {
                    Ok(i) => i,
                    Err(e) => {
                        return Err(e);
                    },
                };
                Ok(StoredNode::Binary { left, right })
            },
            Node::Edge { child, path } => {
                let child: TrieStorageIndex = match resolve_ref(child, indices) {
                    Ok(i) => i,
                    Err(e) => {
                        return Err(e);
                    },
                };
                Ok(StoredNode::Edge { child, path: copy_path(path) })
            },
            Node::LeafBinary => Ok(StoredNode::LeafBinary),
            Node::LeafEdge { path } => Ok(StoredNode::LeafEdge { path: copy_path(path) }),
        }
    }
}

/// The value stored for a node: its hash, then its byte form.
pub open spec fn node_value(hash: Felt, n: NodeView) -> Seq<u8> {
    hash@ + node_encoding(n)
}

/// The stored form of the node at position `i`.
pub open spec fn stored_at(nodes: Seq<(Felt, Node)>, order: Seq<usize>, base: int, i: int) -> NodeView {
    stored_view(nodes[i].1, assigned(order, base))->Some_0
}

/// The write that stores the node met as number `k`.
pub open spec fn node_op(
    nodes: Seq<(Felt, Node)>,
    order: Seq<usize>,
    base: int,
    t: TrieColumn,
    k: int,
) -> Op {
    Op::Put(
        trie_column(t),
        be_u64(assigned(order, base)[order[k]] as u64),
        node_value(nodes[order[k] as int].0, stored_at(nodes, order, base, order[k] as int)),
    )
}

/// The writes that store the nodes met in the order `order`: the nodes, then the next free index.
pub open spec fn insert_ops(
    nodes: Seq<(Felt, Node)>,
    order: Seq<usize>,
    base: int,
    t: TrieColumn,
) -> Seq<Op> {
    Seq::new(order.len(), |k: int| node_op(nodes, order, base, t, k)).push(
        Op::Put(TRIE_NEXT_INDEX_COLUMN, next_index_key(t), be_u64((base + order.len()) as u64)),
    )
}

/// Every node met fits into the space for an encoded node.
pub open spec fn all_encode(nodes: Seq<(Felt, Node)>, order: Seq<usize>, base: int) -> bool {
    forall|k: int|
        #![trigger order[k]]
        0 <= k < order.len() ==> node_encoding(
            stored_at(nodes, order, base, order[k] as int),
        ).len() <= MAX_NODE_BYTES
}

/// Whether the node met as number `k` fits into the space for an encoded node.
pub open spec fn encodes(nodes: Seq<(Felt, Node)>, order: Seq<usize>, base: int, k: int) -> bool {
    node_encoding(stored_at(nodes, order, base, order[k] as int)).len() <= MAX_NODE_BYTES
}

/// How many of the first `n` nodes met fit, from the front.
pub open spec fn encoding_front(
    nodes: Seq<(Felt, Node)>,
    order: Seq<usize>,
    base: int,
    n: int,
) -> int
    decreases n,
{
    if n <= 0 {
        0
    } else {
        let front = encoding_front(nodes, order, base, n - 1);
        if front == n - 1 && encodes(nodes, order, base, n - 1) {
            n
        } else {
            front
        }
    }
}

/// The writes that are made to store the nodes met in the order `order`. Where they cannot all be
/// stored, that is the nodes up to the first one that does not fit, without the next free index; and
/// nothing, where there are not enough indices for them.
pub open spec fn stored_ops(
    nodes: Seq<(Felt, Node)>,
    order: Seq<usize>,
    base: int,
    t: TrieColumn,
) -> Seq<Op> {
    if base + order.len() - 1 > MAX_STORAGE_INDEX {
        Seq::empty()
    } else if all_encode(nodes, order, base) && base + order.len() <= MAX_STORAGE_INDEX {
        insert_ops(nodes, order, base, t)
    } else {
        Seq::new(
            encoding_front(nodes, order, base, order.len() as int) as nat,
            |k: int| node_op(nodes, order, base, t, k),
        )
    }
}

proof fn lemma_encoding_front(
    nodes: Seq<(Felt, Node)>,
    order: Seq<usize>,
    base: int,
    k: int,
    n: int,
)
    requires
        0 <= k <= n,
        forall|j: int| 0 <= j < k ==> encodes(nodes, order, base, j),
        k < n ==> !encodes(nodes, order, base, k),
    ensures
        encoding_front(nodes, order, base, n) == k,
    decreases n,
{
    if n > 0 {
        if k == n {
            assert(encodes(nodes, order, base, n - 1));
            lemma_encoding_front(nodes, order, base, k - 1, n - 1);
        } else {
            lemma_encoding_front(nodes, order, base, k, n - 1);
        }
    }
}

/// What a finished walk has met: every reference on the stack and, with a node, every node that it
/// refers to.
pub open spec fn closed_under_children(nodes: Seq<(Felt, Node)>, order: Seq<usize>) -> bool {
    forall|k: int, c: int|
        #![trigger children(nodes[order[k] as int].1)[c]]
        0 <= k < order.len() && 0 <= c < children(nodes[order[k] as int].1).len() ==> match children(
            nodes[order[k] as int].1,
        )[c] {
            NodeRef::Index(i) => order.contains(i),
            NodeRef::StorageIndex(_) => true,
        }
}

pub proof fn lemma_walk_closed(nodes: Seq<(Felt, Node)>, stack: Seq<NodeRef>, steps: nat)
    requires
        walk(nodes, stack, steps) is Order,
    ensures
        forall|k: int|
            0 <= k < walk(nodes, stack, steps)->Order_0.len() ==> (#[trigger] walk(
                nodes,
                stack,
                steps,
            )->Order_0[k]) < nodes.len(),
        forall|j: int|
            0 <= j < stack.len() ==> (#[trigger] stack[j] matches NodeRef::Index(i) ==> walk(
                nodes,
                stack,
                steps,
            )->Order_0.contains(i)),
        closed_under_children(nodes, walk(nodes, stack, steps)->Order_0),
    decreases steps,
{
    if stack.len() > 0 {
        let below = stack.drop_last();
        let order = walk(nodes, stack, steps)->Order_0;
        match stack.last() {
            NodeRef::StorageIndex(_) => {
                lemma_walk_closed(nodes, below, (steps - 1) as nat);
                assert forall|j: int| 0 <= j < stack.len() implies (#[trigger] stack[j] matches NodeRef::Index(
                    i,
                ) ==> order.contains(i)) by {
                    if j < below.len() {
                        assert(below[j] == stack[j]);
                    }
                }
            },
            NodeRef::Index(top) => {
                let kids = children(nodes[top as int].1);
                let next = below + kids;
                lemma_walk_closed(nodes, next, (steps - 1) as nat);
                let rest = walk(nodes, next, (steps - 1) as nat)->Order_0;
                assert(order =~= seq![top] + rest);
                assert forall|i: usize| rest.contains(i) implies order.contains(i) by {
                    let k = choose|k: int| 0 <= k < rest.len() && rest[k] == i;
                    assert(order[k + 1] == i);
                }
                assert(order[0] == top);
                assert forall|j: int| 0 <= j < stack.len() implies (#[trigger] stack[j] matches NodeRef::Index(
                    i,
                ) ==> order.contains(i)) by {
                    if j < below.len() {
                        assert(next[j] == stack[j]);
                    }
                }
                assert forall|k: int| 0 <= k < order.len() implies (#[trigger] order[k])
                    < nodes.len() by {
                    if k > 0 {
                        assert(order[k] == rest[k - 1]);
                    }
                }
                assert forall|k: int, c: int|
                    #![trigger children(nodes[order[k] as int].1)[c]]
                    0 <= k < order.len() && 0 <= c < children(
                        nodes[order[k] as int].1,
                    ).len() implies match children(nodes[order[k] as int].1)[c] {
                    NodeRef::Index(i) => order.contains(i),
                    NodeRef::StorageIndex(_) => true,
                } by {
                    if k == 0 {
                        assert(next[below.len() + c] == kids[c]);
                    } else {
                        assert(order[k] == rest[k - 1]);
                        assert(children(nodes[rest[k - 1] as int].1)[c] == children(
                            nodes[order[k] as int].1,
                        )[c]);
                    }
                }
            },
        }
    }
}

/// The indices given out lie from `base` on, one for each node met, and no two nodes share one.
pub proof fn lemma_assigned(order: Seq<usize>, base: int)
    ensures
        forall|i: usize| #[trigger] assigned(order, base).contains_key(i) <==> order.contains(i),
        forall|i: usize| #[trigger]
            assigned(order, base).contains_key(i) ==> base <= assigned(order, base)[i] < base
                + order.len() && order[assigned(order, base)[i] - base] == i,
    decreases order.len(),
{
    if order.len() > 0 {
        let front = order.drop_last();
        lemma_assigned(front, base);
        assert forall|i: usize| #[trigger]
            assigned(order, base).contains_key(i) <==> order.contains(i) by {
            assert(assigned(order, base).contains_key(i) <==> i == order.last() || assigned(
                front,
                base,
            ).contains_key(i));
            if order.contains(i) {
                let k = choose|k: int| 0 <= k < order.len() && order[k] == i;
                if k < front.len() {
                    assert(front[k] == i);
                }
            }
            if front.contains(i) {
                let k = choose|k: int| 0 <= k < front.len() && front[k] == i;
                assert(order[k] == i);
            }
            assert(order[order.len() - 1] == order.last());
        }
        assert forall|i: usize| #[trigger] assigned(order, base).contains_key(i) implies base
            <= assigned(order, base)[i] < base + order.len() && order[assigned(order, base)[i]
            - base] == i by {
            if i != order.last() {
                assert(assigned(front, base).contains_key(i));
                let p = assigned(front, base)[i] - base;
                assert(front[p] == order[p]);
            }
        }
    }
}

/// The index given to one node met.
pub proof fn lemma_assigned_at(order: Seq<usize>, base: int, i: usize)
    requires
        order.contains(i),
    ensures
        assigned(order, base).contains_key(i),
        base <= assigned(order, base)[i] < base + order.len(),
        order[assigned(order, base)[i] - base] == i,
{
    lemma_assigned(order, base);
    assert(assigned(order, base).contains_key(i));
}

/// The positions of the nodes to store, in the order of the walk.
fn walk_order(nodes: &Vec<(Felt, Node)>) -> (r: Result<Vec<usize>, TrieError>)
    requires
        nodes@.len() > 0,
        walk_ends(nodes@),
    ensures
        match full_walk(nodes@) {
            Walk::Order(order) => r matches Ok(v) && v@ == order,
            Walk::Missing => r matches Err(TrieError::NodeIndexMissing),
            Walk::Unfinished => false,
        },
{
    let ghost mut steps = choose|steps: nat|
        walk(nodes@, root_ref(nodes@), steps) !is Unfinished;
    let mut to_insert: Vec<usize> = Vec::new();
    let mut to_process: Vec<NodeRef> = vec![NodeRef::Index(nodes.len() - 1)];
    proof {
        assert(to_process@ =~= root_ref(nodes@));
        if let Walk::Order(order) = full_walk(nodes@) {
            assert(to_insert@ + order =~= order);
        }
    }
    loop
        invariant
            walk(nodes@, to_process@, steps) !is Unfinished,
            full_walk(nodes@) == (match walk(nodes@, to_process@, steps) {
                Walk::Order(rest) => Walk::Order(to_insert@ + rest),
                other => other,
            }),
        decreases steps,
    {
        let ghost stack = to_process@;
        let ghost met = to_insert@;
        match to_process.pop() {
            None => {
                assert(met + Seq::<usize>::empty() =~= met);
                return Ok(to_insert);
            },
            Some(NodeRef::StorageIndex(_)) => {
                assert(to_process@ =~= stack.drop_last());
            },
            Some(NodeRef::Index(i)) => {
                assert(to_process@ =~= stack.drop_last());
                if i >= nodes.len() {
                    return Err(TrieError::NodeIndexMissing);
                }
                to_insert.push(i);
                match &nodes[i].1 {
                    Node::Binary { left, right } => {
                        to_process.push(*left);
                        to_process.push(*right);
                    },
                    Node::Edge { child, .. } => {
                        to_process.push(*child);
                    },
                    Node::LeafBinary => {},
                    Node::LeafEdge { .. } => {},
                }
                proof {
                    assert(to_process@ =~= stack.drop_last() + children(nodes@[i as int].1));
                    let next = walk(nodes@, to_process@, (steps - 1) as nat);
                    if let Walk::Order(rest) = next {
                        assert(met + (seq![i] + rest) =~= to_insert@ + rest);
                    }
                }
            },
        }
        proof {
            steps = (steps - 1) as nat;
        }
    }
}

/// Gives an index to each node met, from `base` on.
fn assign_indices(order: &Vec<usize>, base: TrieStorageIndex) -> (r: Result<
    HashMap<usize, TrieStorageIndex>,
    TrieError,
>)
    ensures
        r is Ok <==> base@ + order@.len() - 1 <= MAX_STORAGE_INDEX,
        r matches Ok(m) ==> index_map(m@) == assigned(order@, base@ as int),
        r matches Err(e) ==> e == TrieError::IndexOverflow,
{
    let mut indices: HashMap<usize, TrieStorageIndex> = HashMap::new();
    let start: u64 = base.get();
    let mut k: usize = 0;
    assert(index_map(indices@) =~= assigned(order@.subrange(0, 0), base@ as int));
    while k < order.len()
        invariant
            k <= order@.len(),
            start == base@,
            start <= MAX_STORAGE_INDEX,
            k > 0 ==> start + k - 1 <= MAX_STORAGE_INDEX,
            index_map(indices@) == assigned(order@.subrange(0, k as int), base@ as int),
        decreases order@.len() - k,
    {
        let value: Option<u64> = start.checked_add(k as u64);
        let index: TrieStorageIndex = match value {
            Some(v) => match TrieStorageIndex::new(v) {
                Some(i) => i,
                None => {
                    return Err(TrieError::IndexOverflow);
                },
            },
            None => {
                return Err(TrieError::IndexOverflow);
            },
        };
        let ghost before = indices@;
        indices.insert(order[k], index);
        k = k + 1;
        proof {
            let done = order@.subrange(0, k as int);
            assert(done.drop_last() =~= order@.subrange(0, k - 1));
            assert(index_map(indices@) =~= index_map(before).insert(order@[k - 1], index@ as int));
        }
    }
    assert(order@.subrange(0, k as int) =~= order@);
    Ok(indices)
}

/// Stores added nodes under the indices from the next free one on, and gives the index of the root.
/// The indices are taken off the counter as soon as the nodes to store are known, also where storing
/// them fails; writes that were made before the failure stay in the batch.
pub fn store_nodes(
    nodes: &Vec<(Felt, Node)>,
    t: TrieColumn,
    counter: &mut u64,
    batch: &mut Batch,
) -> (r: Result<TrieStorageIndex, TrieError>)
    requires
        nodes@.len() > 0,
        walk_ends(nodes@),
        *old(counter) <= MAX_STORAGE_INDEX,
    ensures
        match full_walk(nodes@) {
            Walk::Missing => {
                &&& r matches Err(TrieError::NodeIndexMissing)
                &&& *final(counter) == *old(counter)
                &&& final(batch)@ == old(batch)@
            },
            Walk::Order(order) => {
                let base = *old(counter) as int;
                &&& order.len() > 0
                &&& *final(counter) == (base + order.len()) % 0x1_0000_0000_0000_0000
                &&& final(batch)@ == old(batch)@ + stored_ops(nodes@, order, base, t)
                &&& if base + order.len() - 1 > MAX_STORAGE_INDEX {
                    r matches Err(TrieError::IndexOverflow)
                } else if !all_encode(nodes@, order, base) {
                    r matches Err(TrieError::EncodingNode)
                } else if base + order.len() > MAX_STORAGE_INDEX {
                    r matches Err(TrieError::IndexOverflow)
                } else {
                    r matches Ok(root) && assigned(order, base).contains_key(
                        (nodes@.len() - 1) as usize,
                    ) && root@ == assigned(order, base)[(nodes@.len() - 1) as usize]
                }
            },
            Walk::Unfinished => false,
        },
{
    let order: Vec<usize> = match walk_order(nodes) {
        Ok(order) => order,
        Err(e) => {
            return Err(e);
        },
    };
    let ghost base = *counter as int;
    proof {
        let steps = choose|steps: nat| walk(nodes@, root_ref(nodes@), steps) !is Unfinished;
        lemma_walk_closed(nodes@, root_ref(nodes@), steps);
        assert(root_ref(nodes@)[0] == NodeRef::Index((nodes@.len() - 1) as usize));
        lemma_assigned(order@, base);
    }
    let start: u64 = *counter;
    *counter = start.wrapping_add(order.len() as u64);
    let first: TrieStorageIndex = match TrieStorageIndex::new(start) {
        Some(i) => i,
        None => {
            return Err(TrieError::IndexOverflow);
        },
    };
    let indices: HashMap<usize, TrieStorageIndex> = match assign_indices(&order, first) {
        Ok(m) => m,
        Err(e) => {
            assert(batch@ + Seq::<Op>::empty() =~= batch@);
            return Err(e);
        },
    };
    let mut k: usize = 0;
    assert(batch@ =~= old(batch)@ + Seq::new(0, |j: int| node_op(nodes@, order@, base, t, j)));
    while k < order.len()
        invariant
            k <= order@.len(),
            forall|j: int| 0 <= j < order@.len() ==> (#[trigger] order@[j]) < nodes@.len(),
            closed_under_children(nodes@, order@),
            index_map(indices@) == assigned(order@, base),
            full_walk(nodes@) == Walk::Order(order@),
            order@.len() > 0,
            base == *old(counter),
            *counter == (base + order@.len()) % 0x1_0000_0000_0000_0000,
            base + order@.len() - 1 <= MAX_STORAGE_INDEX,
            forall|i: usize| #[trigger]
                assigned(order@, base).contains_key(i) <==> order@.contains(i),
            forall|i: usize| #[trigger]
                assigned(order@, base).contains_key(i) ==> base <= assigned(order@, base)[i] < base
                    + order@.len(),
            forall|j: int| 0 <= j < k ==> #[trigger] encodes(nodes@, order@, base, j),
            batch@ == old(batch)@ + Seq::new(
                k as nat,
                |j: int| node_op(nodes@, order@, base, t, j),
            ),
        decreases order@.len() - k,
    {
        let i: usize = order[k];
        proof {
            assert(order@.contains(order@[k as int]));
            lemma_stored(nodes@, order@, base, k as int);
        }
        let stored: StoredNode = match nodes[i].1.as_stored(&indices) {
            Ok(s) => s,
            Err(e) => {
                return Err(e);
            },
        };
        let data: Vec<u8> = stored.to_bytes();
        if data.len() > MAX_NODE_BYTES {
            proof {
                assert(!encodes(nodes@, order@, base, k as int));
                lemma_encoding_front(nodes@, order@, base, k as int, order@.len() as int);
            }
            return Err(TrieError::EncodingNode);
        }
        let mut value: Vec<u8> = nodes[i].0.to_be_bytes();
        push_bytes(&mut value, data.as_slice());
        match indices.get(&i) {
            Some(index) => {
                batch.put(t.column(), u64_to_be_bytes(index.get()), value);
            },
            None => {
                assert(index_map(indices@).contains_key(i));
            },
        }
        assert(encodes(nodes@, order@, base, k as int));
        k = k + 1;
        assert(batch@ =~= old(batch)@ + Seq::new(
            k as nat,
            |j: int| node_op(nodes@, order@, base, t, j),
        ));
    }
    proof {
        lemma_encoding_front(nodes@, order@, base, k as int, k as int);
        assert forall|j: int| #![trigger order@[j]] 0 <= j < order@.len() implies node_encoding(
            stored_at(nodes@, order@, base, order@[j] as int),
        ).len() <= MAX_NODE_BYTES by {
            assert(encodes(nodes@, order@, base, j));
        }
        assert(all_encode(nodes@, order@, base));
    }
    let next: u64 = match start.checked_add(order.len() as u64) {
        Some(v) => v,
        None => {
            return Err(TrieError::IndexOverflow);
        },
    };
    if next > MAX_STORAGE_INDEX {
        return Err(TrieError::IndexOverflow);
    }
    batch.put(TRIE_NEXT_INDEX_COLUMN, t.next_index_key(), u64_to_be_bytes(next));
    assert(batch@ =~= old(batch)@ + insert_ops(nodes@, order@, base, t));
    let last: usize = nodes.len() - 1;
    match indices.get(&last) {
        Some(root) => {
            assert(index_map(indices@).contains_key(last));
            Ok(*root)
        },
        None => {
            assert(index_map(indices@).contains_key(last));
            Err(TrieError::NodeIndexMissing)
        },
    }
}

/// The references of a node that was met are resolved.
proof fn lemma_stored(nodes: Seq<(Felt, Node)>, order: Seq<usize>, base: int, k: int)
    requires
        0 <= k < order.len(),
        closed_under_children(nodes, order),
        forall|i: usize| #[trigger] assigned(order, base).contains_key(i) <==> order.contains(i),
    ensures
        stored_view(nodes[order[k] as int].1, assigned(order, base)) is Some,
{
    let n = nodes[order[k] as int].1;
    match n {
        Node::Binary { left, right } => {
            assert(children(n)[0] == left);
            assert(children(n)[1] == right);
        },
        Node::Edge { child, .. } => {
            assert(children(n)[0] == child);
        },
        _ => {},
    }
}

} // verus!
