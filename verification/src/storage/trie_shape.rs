//! Which trie updates can be walked to the end: those in which no node is below itself.
use vstd::prelude::*;

use crate::felt::Felt;
use crate::storage::trie::{children, root_ref, walk, walk_ends, Node, NodeRef};

verus! {

/// The node at position `i` refers to position `j`.
pub open spec fn links(nodes: Seq<(Felt, Node)>, i: usize, j: usize) -> bool {
    i < nodes.len() && children(nodes[i as int].1).contains(NodeRef::Index(j))
}

/// The chains of references that begin at position `i` meet at most `depth` added nodes each.
pub open spec fn depth_within(nodes: Seq<(Felt, Node)>, i: usize, depth: nat) -> bool
    decreases depth,
{
    i < nodes.len() ==> {
        &&& depth > 0
        &&& forall|j: usize|
            #[trigger] links(nodes, i, j) ==> depth_within(nodes, j, (depth - 1) as nat)
    }
}

/// The chains of references that begin at position `i` are of bounded length.
pub open spec fn bounded(nodes: Seq<(Felt, Node)>, i: usize) -> bool {
    exists|depth: nat| depth_within(nodes, i, depth)
}

/// No node that can be reached from the root is below itself: no chain of references from the root
/// on goes round in a circle.
pub open spec fn acyclic(nodes: Seq<(Felt, Node)>) -> bool {
    nodes.len() > 0 ==> bounded(nodes, (nodes.len() - 1) as usize)
}

/// The walk that has the references of the stack before it comes to an end.
pub open spec fn comes_to_end(nodes: Seq<(Felt, Node)>, stack: Seq<NodeRef>) -> bool {
    exists|steps: nat| walk(nodes, stack, steps) !is Unfinished
}

/// A bound on the chains stays one when it grows.
proof fn lemma_depth_grows(nodes: Seq<(Felt, Node)>, i: usize, a: nat, b: nat)
    requires
        depth_within(nodes, i, a),
        a <= b,
    ensures
        depth_within(nodes, i, b),
    decreases a,
{
    if i < nodes.len() {
        assert forall|j: usize| #[trigger] links(nodes, i, j) implies depth_within(
            nodes,
            j,
            (b - 1) as nat,
        ) by {
            lemma_depth_grows(nodes, j, (a - 1) as nat, (b - 1) as nat);
        }
    }
}

/// A walk that comes to an end still does with one more reference of bounded depth on the stack.
proof fn lemma_push_comes_to_end(
    nodes: Seq<(Felt, Node)>,
    rest: Seq<NodeRef>,
    r: NodeRef,
    depth: nat,
)
    requires
        comes_to_end(nodes, rest),
        r matches NodeRef::Index(i) ==> depth_within(nodes, i, depth),
    ensures
        comes_to_end(nodes, rest.push(r)),
    decreases depth,
{
    let stack = rest.push(r);
    assert(stack.drop_last() =~= rest);
    match r {
        NodeRef::StorageIndex(_) => {
            let steps = choose|steps: nat| walk(nodes, rest, steps) !is Unfinished;
            assert(walk(nodes, stack, steps + 1) == walk(nodes, rest, steps));
        },
        NodeRef::Index(i) => {
            if i >= nodes.len() {
                assert(walk(nodes, stack, 1) is Missing);
            } else {
                let n = nodes[i as int].1;
                let kids = children(n);
                let below = (depth - 1) as nat;
                assert forall|k: int| 0 <= k < kids.len() implies ((#[trigger] kids[k])
                    matches NodeRef::Index(j) ==> depth_within(nodes, j, below)) by {
                    if let NodeRef::Index(j) = kids[k] {
                        assert(links(nodes, i, j));
                    }
                }
                match n {
                    Node::Binary { left, right } => {
                        assert(kids[0] == left && kids[1] == right);
                        lemma_push_comes_to_end(nodes, rest, left, below);
                        lemma_push_comes_to_end(nodes, rest.push(left), right, below);
                        assert(rest + kids =~= rest.push(left).push(right));
                    },
                    Node::Edge { child, .. } => {
                        assert(kids[0] == child);
                        lemma_push_comes_to_end(nodes, rest, child, below);
                        assert(rest + kids =~= rest.push(child));
                    },
                    _ => {
                        assert(rest + kids =~= rest);
                    },
                }
                let steps = choose|steps: nat| walk(nodes, rest + kids, steps) !is Unfinished;
                assert(walk(nodes, stack, steps + 1) !is Unfinished);
            }
        },
    }
}

/// The walk over the added nodes ends where no node below the root is below itself.
pub proof fn law_acyclic_walk_ends(nodes: Seq<(Felt, Node)>)
    requires
        acyclic(nodes),
    ensures
        walk_ends(nodes),
{
    if nodes.len() > 0 {
        let root = (nodes.len() - 1) as usize;
        let depth = choose|depth: nat| depth_within(nodes, root, depth);
        let none = Seq::<NodeRef>::empty();
        assert(walk(nodes, none, 0) !is Unfinished);
        lemma_push_comes_to_end(nodes, none, NodeRef::Index(root), depth);
        assert(none.push(NodeRef::Index(root)) =~= root_ref(nodes));
        let steps = choose|steps: nat| walk(nodes, root_ref(nodes), steps) !is Unfinished;
        assert(walk(nodes, root_ref(nodes), steps) !is Unfinished);
    }
}

proof fn lemma_ranked_depth(nodes: Seq<(Felt, Node)>, rank: spec_fn(usize) -> nat, i: usize)
    requires
        forall|a: usize, b: usize|
            #[trigger] links(nodes, a, b) && b < nodes.len() ==> rank(b) < rank(a),
    ensures
        depth_within(nodes, i, rank(i) + 1),
    decreases rank(i),
{
    if i < nodes.len() {
        assert forall|j: usize| #[trigger] links(nodes, i, j) implies depth_within(
            nodes,
            j,
            rank(i),
        ) by {
            if j < nodes.len() {
                lemma_ranked_depth(nodes, rank, j);
                lemma_depth_grows(nodes, j, rank(j) + 1, rank(i));
            }
        }
    }
}

/// The walk over the added nodes ends where the nodes can be ranked such that each refers to nodes
/// of lower rank only; so it does where each refers to earlier positions only.
pub proof fn law_ranked_walk_ends(nodes: Seq<(Felt, Node)>, rank: spec_fn(usize) -> nat)
    requires
        forall|a: usize, b: usize|
            #[trigger] links(nodes, a, b) && b < nodes.len() ==> rank(b) < rank(a),
    ensures
        acyclic(nodes),
        walk_ends(nodes),
{
    if nodes.len() > 0 {
        lemma_ranked_depth(nodes, rank, (nodes.len() - 1) as usize);
    }
    law_acyclic_walk_ends(nodes);
}

/// A reference leads to no node whose depth is still open.
pub open spec fn ref_settled(r: NodeRef, settled: Seq<bool>) -> bool {
    r matches NodeRef::Index(j) ==> j < settled.len() ==> settled[j as int]
}

/// All references of a node lead to no node whose depth is still open.
pub open spec fn node_settled(n: Node, settled: Seq<bool>) -> bool {
    forall|k: int| 0 <= k < children(n).len() ==> ref_settled(#[trigger] children(n)[k], settled)
}

/// How many positions are still open.
spec fn open_count(settled: Seq<bool>) -> nat
    decreases settled.len(),
{
    if settled.len() == 0 {
        0
    } else {
        open_count(settled.drop_last()) + if settled.last() {
            0nat
        } else {
            1nat
        }
    }
}

proof fn lemma_settle(settled: Seq<bool>, i: int)
    requires
        0 <= i < settled.len(),
        !settled[i],
    ensures
        open_count(settled.update(i, true)) + 1 == open_count(settled),
    decreases settled.len(),
{
    let after = settled.update(i, true);
    if i == settled.len() - 1 {
        assert(after.drop_last() =~= settled.drop_last());
    } else {
        assert(after.drop_last() =~= settled.drop_last().update(i, true));
        lemma_settle(settled.drop_last(), i);
    }
}

/// A node is bounded where what it refers to is.
proof fn lemma_settled_bounded(nodes: Seq<(Felt, Node)>, settled: Seq<bool>, i: usize)
    requires
        i < nodes.len(),
        settled.len() == nodes.len(),
        forall|j: usize| j < nodes.len() && settled[j as int] ==> #[trigger] bounded(nodes, j),
        node_settled(nodes[i as int].1, settled),
    ensures
        bounded(nodes, i),
{
    let kids = children(nodes[i as int].1);
    let depth_of = |r: NodeRef|
        match r {
            NodeRef::Index(j) => choose|depth: nat| depth_within(nodes, j, depth),
            _ => 0nat,
        };
    assert forall|j: usize| links(nodes, i, j) implies depth_within(
        nodes,
        j,
        #[trigger] depth_of(NodeRef::Index(j)),
    ) by {
        let k = choose|k: int| 0 <= k < kids.len() && kids[k] == NodeRef::Index(j);
        assert(ref_settled(kids[k], settled));
        if j < nodes.len() {
            assert(bounded(nodes, j));
        } else {
            assert(depth_within(nodes, j, 0));
        }
    }
    let deepest: nat = if kids.len() == 2 {
        depth_of(kids[0]) + depth_of(kids[1])
    } else if kids.len() == 1 {
        depth_of(kids[0])
    } else {
        0
    };
    assert forall|j: usize| #[trigger] links(nodes, i, j) implies depth_within(nodes, j, deepest) by {
        let k = choose|k: int| 0 <= k < kids.len() && kids[k] == NodeRef::Index(j);
        assert(kids[k] == NodeRef::Index(j));
        assert(k == 0 || k == 1);
        lemma_depth_grows(nodes, j, depth_of(NodeRef::Index(j)), deepest);
    }
    assert(depth_within(nodes, i, deepest + 1));
}

/// Where nothing more can be settled, every bounded node is.
proof fn lemma_all_settled(nodes: Seq<(Felt, Node)>, settled: Seq<bool>, i: usize, depth: nat)
    requires
        i < nodes.len(),
        settled.len() == nodes.len(),
        forall|j: int|
            0 <= j < nodes.len() && node_settled((#[trigger] nodes[j]).1, settled) ==> settled[j],
        depth_within(nodes, i, depth),
    ensures
        settled[i as int],
    decreases depth,
{
    let kids = children(nodes[i as int].1);
    assert forall|k: int| 0 <= k < kids.len() implies ref_settled(#[trigger] kids[k], settled) by {
        if let NodeRef::Index(j) = kids[k] {
            assert(links(nodes, i, j));
            if j < nodes.len() {
                lemma_all_settled(nodes, settled, j, (depth - 1) as nat);
            }
        }
    }
    assert(node_settled(nodes[i as int].1, settled));
}

fn is_ref_settled(r: &NodeRef, settled: &Vec<bool>) -> (res: bool)
    ensures
        res == ref_settled(*r, settled@),
{
    match r {
        NodeRef::StorageIndex(_) => true,
        NodeRef::Index(j) => *j >= settled.len() || settled[*j],
    }
}

fn is_node_settled(n: &Node, settled: &Vec<bool>) -> (r: bool)
    ensures
        r == node_settled(*n, settled@),
{
    let ghost kids = children(*n);
    match n {
        Node::Binary { left, right } => {
            assert(kids[0] == *left && kids[1] == *right);
            is_ref_settled(left, settled) && is_ref_settled(right, settled)
        },
        Node::Edge { child, .. } => {
            assert(kids[0] == *child);
            is_ref_settled(child, settled)
        },
        Node::LeafBinary => true,
        Node::LeafEdge { .. } => true,
    }
}

/// Whether no node that can be reached from the root is below itself, so that the walk over the
/// added nodes ends.
pub fn is_acyclic(nodes: &Vec<(Felt, Node)>) -> (r: bool)
    ensures
        r <==> acyclic(nodes@),
        r ==> walk_ends(nodes@),
{
    let n: usize = nodes.len();
    if n == 0 {
        return true;
    }
    let mut settled: Vec<bool> = Vec::new();
    let mut fill: usize = 0;
    while fill < n
        invariant
            fill <= n,
            settled@.len() == fill,
            forall|j: int| 0 <= j < fill ==> !#[trigger] settled@[j],
        decreases n - fill,
    {
        settled.push(false);
        fill = fill + 1;
    }
    let mut changed: bool = true;
    while changed
        invariant
            n == nodes@.len(),
            settled@.len() == n,
            forall|j: usize| j < n && settled@[j as int] ==> #[trigger] bounded(nodes@, j),
            !changed ==> forall|j: int|
                0 <= j < n && node_settled((#[trigger] nodes@[j]).1, settled@) ==> settled@[j],
        decreases open_count(settled@), (if changed {
            1int
        } else {
            0int
        }),
    {
        let ghost before = settled@;
        changed = false;
        let mut i: usize = 0;
        while i < n
            invariant
                i <= n,
                n == nodes@.len(),
                settled@.len() == n,
                forall|j: usize| j < n && settled@[j as int] ==> #[trigger] bounded(nodes@, j),
                changed ==> open_count(settled@) < open_count(before),
                !changed ==> settled@ == before,
                !changed ==> forall|j: int|
                    0 <= j < i && node_settled((#[trigger] nodes@[j]).1, settled@) ==> settled@[j],
            decreases n - i,
        {
            if !settled[i] && is_node_settled(&nodes[i].1, &settled) {
                proof {
                    lemma_settled_bounded(nodes@, settled@, i);
                    lemma_settle(settled@, i as int);
                }
                settled.set(i, true);
                changed = true;
            }
            i = i + 1;
        }
    }
    let r: bool = settled[n - 1];
    proof {
        let root = (n - 1) as usize;
        if bounded(nodes@, root) {
            let depth = choose|depth: nat| depth_within(nodes@, root, depth);
            lemma_all_settled(nodes@, settled@, root, depth);
        }
        if r {
            assert(bounded(nodes@, root));
            law_acyclic_walk_ends(nodes@);
        }
    }
    r
}

} // verus!
