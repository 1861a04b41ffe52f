//! Which of the nodes of an update are stored, and in what order.
use vstd::prelude::*;

use crate::felt::Felt;
use crate::storage::trie::{
    children, full_walk, root_ref, walk, walk_ends, Node, NodeRef, Walk,
};
use crate::storage::trie_laws::{lemma_walks_in, walks_in};

verus! {

/// A way from the root of an update: positions that each refer to the next one.
pub open spec fn is_way(nodes: Seq<(Felt, Node)>, way: Seq<usize>) -> bool {
    &&& way.len() > 0
    &&& way[0] == nodes.len() - 1
    &&& forall|i: int|
        0 <= i < way.len() - 1 ==> way[i] < nodes.len() && children(
            nodes[#[trigger] way[i] as int].1,
        ).contains(NodeRef::Index(way[i + 1]))
}

/// Whether the root of an update leads to a position.
pub open spec fn leads_to(nodes: Seq<(Felt, Node)>, x: usize) -> bool {
    exists|way: Seq<usize>| #[trigger] is_way(nodes, way) && way.last() == x
}

/// Every position that a stack refers to is one that the root leads to.
spec fn stack_is_reached(nodes: Seq<(Felt, Node)>, stack: Seq<NodeRef>) -> bool {
    forall|i: int|
        0 <= i < stack.len() ==> ((#[trigger] stack[i]) matches NodeRef::Index(x) ==> leads_to(
            nodes,
            x,
        ))
}

proof fn lemma_leads_further(nodes: Seq<(Felt, Node)>, x: usize, y: usize)
    requires
        leads_to(nodes, x),
        x < nodes.len(),
        children(nodes[x as int].1).contains(NodeRef::Index(y)),
    ensures
        leads_to(nodes, y),
{
    let way = choose|way: Seq<usize>| #[trigger] is_way(nodes, way) && way.last() == x;
    let longer = way.push(y);
    assert forall|i: int| 0 <= i < longer.len() - 1 implies longer[i] < nodes.len() && children(
        nodes[#[trigger] longer[i] as int].1,
    ).contains(NodeRef::Index(longer[i + 1])) by {
        assert(longer[i] == way[i]);
        if i < way.len() - 1 {
            assert(longer[i + 1] == way[i + 1]);
        }
    }
    assert(is_way(nodes, longer));
    assert(longer.last() == y);
}

proof fn lemma_stack_below(nodes: Seq<(Felt, Node)>, stack: Seq<NodeRef>)
    requires
        stack.len() > 0,
        stack_is_reached(nodes, stack),
    ensures
        stack_is_reached(nodes, stack.drop_last()),
        stack.last() matches NodeRef::Index(i) ==> i < nodes.len() ==> stack_is_reached(
            nodes,
            stack.drop_last() + children(nodes[i as int].1),
        ),
{
    let below = stack.drop_last();
    assert(forall|j: int| 0 <= j < below.len() ==> below[j] == stack[j]);
    if let NodeRef::Index(i) = stack.last() {
        assert(stack[stack.len() - 1] == NodeRef::Index(i));
        if i < nodes.len() {
            let kids = children(nodes[i as int].1);
            let next = below + kids;
            assert forall|j: int| 0 <= j < next.len() implies ((#[trigger] next[j]) matches NodeRef::Index(x)
                ==> leads_to(nodes, x)) by {
                if j < below.len() {
                    assert(next[j] == stack[j]);
                } else {
                    assert(next[j] == kids[j - below.len()]);
                    if let NodeRef::Index(x) = next[j] {
                        assert(kids.contains(NodeRef::Index(x)));
                        lemma_leads_further(nodes, i, x);
                    }
                }
            }
        }
    }
}

/// What a walk meets, the root leads to; where a node is missing, the root leads past the nodes.
proof fn lemma_walk_reaches(nodes: Seq<(Felt, Node)>, stack: Seq<NodeRef>, steps: nat)
    requires
        stack_is_reached(nodes, stack),
    ensures
        walk(nodes, stack, steps) matches Walk::Order(order) ==> forall|k: int|
            0 <= k < order.len() ==> leads_to(nodes, #[trigger] order[k]),
        walk(nodes, stack, steps) is Missing ==> exists|x: usize|
            x >= nodes.len() && #[trigger] leads_to(nodes, x),
    decreases steps,
{
    if stack.len() > 0 && steps > 0 {
        lemma_stack_below(nodes, stack);
        match stack.last() {
            NodeRef::StorageIndex(_) => {
                lemma_walk_reaches(nodes, stack.drop_last(), (steps - 1) as nat);
            },
            NodeRef::Index(i) => {
                assert(stack[stack.len() - 1] == NodeRef::Index(i));
                assert(leads_to(nodes, i));
                if i < nodes.len() {
                    let next = stack.drop_last() + children(nodes[i as int].1);
                    lemma_walk_reaches(nodes, next, (steps - 1) as nat);
                    if let Walk::Order(rest) = walk(nodes, next, (steps - 1) as nat) {
                        let order = seq![i] + rest;
                        assert forall|k: int| 0 <= k < order.len() implies leads_to(
                            nodes,
                            #[trigger] order[k],
                        ) by {
                            if k > 0 {
                                assert(order[k] == rest[k - 1]);
                            }
                        }
                    }
                }
            },
        }
    }
}

/// The nodes of an update that are stored are exactly those that its root leads to.
pub proof fn law_stored_nodes_are_those_of_the_root(
    nodes: Seq<(Felt, Node)>,
    order: Seq<usize>,
    x: usize,
)
    requires
        walks_in(nodes, order),
        nodes.len() <= usize::MAX,
    ensures
        order.contains(x) <==> leads_to(nodes, x),
{
    lemma_walks_in(nodes, order);
    let root = (nodes.len() - 1) as usize;
    let start = seq![root];
    assert(is_way(nodes, start) && start.last() == root);
    assert(stack_is_reached(nodes, root_ref(nodes)));
    let steps = choose|steps: nat| #[trigger]
        walk(nodes, root_ref(nodes), steps) == Walk::Order(order);
    lemma_walk_reaches(nodes, root_ref(nodes), steps);
    let met = walk(nodes, root_ref(nodes), steps)->Order_0;
    assert(met == order);
    if order.contains(x) {
        let k = choose|k: int| 0 <= k < order.len() && order[k] == x;
        assert(leads_to(nodes, met[k]));
    }
    if leads_to(nodes, x) {
        let way = choose|way: Seq<usize>| #[trigger] is_way(nodes, way) && way.last() == x;
        lemma_way_is_met(nodes, order, way, way.len() - 1);
    }
}

proof fn lemma_way_is_met(nodes: Seq<(Felt, Node)>, order: Seq<usize>, way: Seq<usize>, i: int)
    requires
        walks_in(nodes, order),
        nodes.len() <= usize::MAX,
        is_way(nodes, way),
        0 <= i < way.len(),
    ensures
        order.contains(way[i]),
    decreases i,
{
    lemma_walks_in(nodes, order);
    if i == 0 {
        assert(order[0] == way[0]);
    } else {
        lemma_way_is_met(nodes, order, way, i - 1);
        let kids = children(nodes[way[i - 1] as int].1);
        assert(kids.contains(NodeRef::Index(way[i - 1 + 1])));
        let c = choose|c: int| 0 <= c < kids.len() && kids[c] == NodeRef::Index(way[i]);
        assert(kids[c] == NodeRef::Index(way[i]));
    }
}

/// An update is refused for a missing node only where its root leads past its nodes.
pub proof fn law_missing_nodes_are_referred_to(nodes: Seq<(Felt, Node)>)
    requires
        0 < nodes.len() <= usize::MAX,
        walk_ends(nodes),
        full_walk(nodes) is Missing,
    ensures
        exists|x: usize| x >= nodes.len() && #[trigger] leads_to(nodes, x),
{
    let root = (nodes.len() - 1) as usize;
    let start = seq![root];
    assert(is_way(nodes, start) && start.last() == root);
    assert(stack_is_reached(nodes, root_ref(nodes)));
    let steps = choose|steps: nat| walk(nodes, root_ref(nodes), steps) !is Unfinished;
    lemma_walk_reaches(nodes, root_ref(nodes), steps);
}

/// The node that a walk meets first is the last one that its stack refers to.
proof fn lemma_first_met(nodes: Seq<(Felt, Node)>, stack: Seq<NodeRef>, steps: nat)
    requires
        walk(nodes, stack, steps) is Order,
        stack.len() > 0,
    ensures
        stack.last() matches NodeRef::Index(c) ==> walk(nodes, stack, steps)->Order_0.len() > 0
            && walk(nodes, stack, steps)->Order_0[0] == c,
        stack.len() > 1 && stack.last() is StorageIndex ==> (stack[stack.len() - 2] matches NodeRef::Index(
            c,
        ) ==> walk(nodes, stack, steps)->Order_0.len() > 0 && walk(nodes, stack, steps)->Order_0[0]
            == c),
{
    if stack.len() > 1 && stack.last() is StorageIndex {
        let below = stack.drop_last();
        assert(below.last() == stack[stack.len() - 2]);
        assert(walk(nodes, below, (steps - 1) as nat) == walk(nodes, stack, steps));
        if let NodeRef::Index(c) = below.last() {
            assert(walk(nodes, below, (steps - 1) as nat) is Order);
            assert(steps > 1);
        }
    }
}

/// What is met right behind a node, as far as the node refers to new ones.
pub open spec fn met_next(nodes: Seq<(Felt, Node)>, order: Seq<usize>, k: int) -> bool {
    match nodes[order[k] as int].1 {
        Node::Edge { child: NodeRef::Index(c), .. } => k + 1 < order.len() && order[k + 1] == c,
        Node::Binary { left, right: NodeRef::Index(r) } => k + 1 < order.len() && order[k + 1] == r,
        Node::Binary { left: NodeRef::Index(l), right: NodeRef::StorageIndex(_) } => k + 1
            < order.len() && order[k + 1] == l,
        _ => true,
    }
}

proof fn lemma_met_next(nodes: Seq<(Felt, Node)>, stack: Seq<NodeRef>, steps: nat, k: int)
    requires
        walk(nodes, stack, steps) is Order,
        0 <= k < walk(nodes, stack, steps)->Order_0.len(),
    ensures
        met_next(nodes, walk(nodes, stack, steps)->Order_0, k),
    decreases steps,
{
    let order = walk(nodes, stack, steps)->Order_0;
    match stack.last() {
        NodeRef::StorageIndex(_) => {
            lemma_met_next(nodes, stack.drop_last(), (steps - 1) as nat, k);
        },
        NodeRef::Index(i) => {
            let kids = children(nodes[i as int].1);
            let next = stack.drop_last() + kids;
            let rest = walk(nodes, next, (steps - 1) as nat)->Order_0;
            assert(order =~= seq![i] + rest);
            if k > 0 {
                lemma_met_next(nodes, next, (steps - 1) as nat, k - 1);
                assert(order[k] == rest[k - 1]);
                if k < rest.len() {
                    assert(order[k + 1] == rest[k]);
                }
            } else if kids.len() > 0 {
                assert(next.last() == kids.last());
                if kids.len() > 1 {
                    assert(next[next.len() - 2] == kids[0]);
                }
                lemma_first_met(nodes, next, (steps - 1) as nat);
                if rest.len() > 0 {
                    assert(order[1] == rest[0]);
                }
            }
        },
    }
}

/// Behind a node comes its right child, or its only one; the left child does where the right one is
/// stored already.
pub proof fn law_right_child_comes_first(nodes: Seq<(Felt, Node)>, order: Seq<usize>, k: int)
    requires
        walks_in(nodes, order),
        nodes.len() <= usize::MAX,
        0 <= k < order.len(),
    ensures
        met_next(nodes, order, k),
{
    lemma_walks_in(nodes, order);
    let steps = choose|steps: nat| #[trigger]
        walk(nodes, root_ref(nodes), steps) == Walk::Order(order);
    lemma_met_next(nodes, root_ref(nodes), steps, k);
}

} // verus!
