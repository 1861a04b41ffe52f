//! What the search for a confirmed tail finds.
use vstd::prelude::*;

use crate::storage::columns::ColumnMap;
use crate::storage::tail_search::{
    fed, full_search, node_at, refs, search, settle, start, Found, SearchState,
};

verus! {

/// A chain of references from the root that stays at or above it.
pub open spec fn is_path(m: ColumnMap, root: u64, p: Seq<u64>) -> bool {
    &&& p.len() > 0
    &&& p[0] == root
    &&& forall|i: int|
        #![trigger p[i]]
        0 < i < p.len() ==> p[i] >= root && node_at(m, p[i - 1]) is Some && refs(
            node_at(m, p[i - 1])->Some_0,
        ).contains(p[i])
}

/// An index that the nodes of the root's own commit lead to.
pub open spec fn reachable(m: ColumnMap, root: u64, x: u64) -> bool {
    exists|p: Seq<u64>| #[trigger] is_path(m, root, p) && p.last() == x
}

/// Every reachable index holds a node and is at most `t`.
pub open spec fn complete(m: ColumnMap, root: u64, t: u64) -> bool {
    forall|x: u64| #[trigger] reachable(m, root, x) ==> node_at(m, x) is Some && x <= t
}

proof fn lemma_root_reachable(m: ColumnMap, root: u64)
    ensures
        reachable(m, root, root),
{
    let p = seq![root];
    assert(is_path(m, root, p));
    assert(p.last() == root);
}

proof fn lemma_reachable_step(m: ColumnMap, root: u64, x: u64, y: u64)
    requires
        reachable(m, root, x),
        y >= root,
        node_at(m, x) is Some,
        refs(node_at(m, x)->Some_0).contains(y),
    ensures
        reachable(m, root, y),
{
    let p = choose|p: Seq<u64>| #[trigger] is_path(m, root, p) && p.last() == x;
    let q = p.push(y);
    assert forall|i: int| #![trigger q[i]] 0 < i < q.len() implies q[i] >= root && node_at(
        m,
        q[i - 1],
    ) is Some && refs(node_at(m, q[i - 1])->Some_0).contains(q[i]) by {
        if i < p.len() {
            assert(q[i] == p[i]);
        }
    }
    assert(is_path(m, root, q));
    assert(q.last() == y);
}

/// What holds of every state of a search.
spec fn sound(m: ColumnMap, root: u64, st: SearchState) -> bool {
    &&& forall|v: u64| #[trigger]
        st.visited.contains(v) ==> root <= v <= st.max && reachable(m, root, v) && node_at(m, v)
            is Some
    &&& forall|v: u64, y: u64|
        #![trigger st.visited.contains(v), refs(node_at(m, v)->Some_0).contains(y)]
        st.visited.contains(v) && refs(node_at(m, v)->Some_0).contains(y) ==> y < root
            || st.visited.contains(y) || st.stack.contains(y)
    &&& forall|i: int|
        0 <= i < st.stack.len() && #[trigger] st.stack[i] >= root ==> reachable(
            m,
            root,
            st.stack[i],
        )
    &&& st.visited.contains(root) || st.stack.contains(root)
    &&& st.max >= root && reachable(m, root, st.max)
}

/// A sound state stays sound when an index that needs no read is taken off.
proof fn lemma_skip(m: ColumnMap, root: u64, st: SearchState)
    requires
        sound(m, root, st),
        st.stack.len() > 0,
        st.stack.last() < root || st.visited.contains(st.stack.last()),
    ensures
        sound(
            m,
            root,
            SearchState { stack: st.stack.drop_last(), visited: st.visited, max: st.max },
        ),
{
    let rest = st.stack.drop_last();
    assert forall|y: u64| st.stack.contains(y) implies rest.contains(y) || y
        == st.stack.last() by {
        let i = choose|i: int| 0 <= i < st.stack.len() && st.stack[i] == y;
        if i < rest.len() {
            assert(rest[i] == y);
        }
    }
    assert forall|i: int| 0 <= i < rest.len() && #[trigger] rest[i] >= root implies reachable(
        m,
        root,
        rest[i],
    ) by {
        assert(rest[i] == st.stack[i]);
    }
}

/// With nothing left to look at, everything reachable has been looked at.
proof fn lemma_closed(m: ColumnMap, root: u64, st: SearchState)
    requires
        sound(m, root, st),
        st.stack.len() == 0,
    ensures
        complete(m, root, st.max),
{
    assert forall|x: u64| #[trigger] reachable(m, root, x) implies node_at(m, x) is Some && x
        <= st.max by {
        let p = choose|p: Seq<u64>| #[trigger] is_path(m, root, p) && p.last() == x;
        lemma_path_visited(m, root, st, p, p.len() - 1);
    }
}

proof fn lemma_path_visited(m: ColumnMap, root: u64, st: SearchState, p: Seq<u64>, i: int)
    requires
        sound(m, root, st),
        st.stack.len() == 0,
        is_path(m, root, p),
        0 <= i < p.len(),
    ensures
        st.visited.contains(p[i]),
    decreases i,
{
    if i > 0 {
        lemma_path_visited(m, root, st, p, i - 1);
        assert(refs(node_at(m, p[i - 1])->Some_0).contains(p[i]));
    }
}

/// Reading a node keeps a state sound.
proof fn lemma_feed(m: ColumnMap, root: u64, st: SearchState)
    requires
        sound(m, root, st),
        st.stack.len() > 0,
        st.stack.last() >= root,
        node_at(m, st.stack.last()) is Some,
    ensures
        sound(
            m,
            root,
            fed(
                SearchState {
                    stack: st.stack.drop_last(),
                    visited: st.visited.insert(st.stack.last()),
                    max: if st.stack.last() > st.max {
                        st.stack.last()
                    } else {
                        st.max
                    },
                },
                node_at(m, st.stack.last())->Some_0,
            ),
        ),
{
    let index = st.stack.last();
    let rest = st.stack.drop_last();
    let kids = refs(node_at(m, index)->Some_0);
    let new = fed(
        SearchState {
            stack: rest,
            visited: st.visited.insert(index),
            max: if index > st.max {
                index
            } else {
                st.max
            },
        },
        node_at(m, index)->Some_0,
    );
    assert(reachable(m, root, index)) by {
        assert(st.stack[st.stack.len() - 1] == index);
    }
    assert(new.stack =~= rest + kids);
    assert forall|y: u64| st.stack.contains(y) implies new.stack.contains(y) || y == index by {
        let i = choose|i: int| 0 <= i < st.stack.len() && st.stack[i] == y;
        if i < rest.len() {
            assert(new.stack[i] == y);
        }
    }
    assert forall|y: u64| kids.contains(y) implies new.stack.contains(y) by {
        let i = choose|i: int| 0 <= i < kids.len() && kids[i] == y;
        assert(new.stack[rest.len() + i] == y);
    }
    assert forall|i: int| 0 <= i < new.stack.len() && #[trigger] new.stack[i]
        >= root implies reachable(m, root, new.stack[i]) by {
        if i < rest.len() {
            assert(new.stack[i] == st.stack[i]);
        } else {
            assert(new.stack[i] == kids[i - rest.len()]);
            assert(kids.contains(new.stack[i]));
            lemma_reachable_step(m, root, index, new.stack[i]);
        }
    }
}

proof fn lemma_search_sound(
    m: ColumnMap,
    root: u64,
    counter: u64,
    st: SearchState,
    reads: nat,
)
    requires
        sound(m, root, st),
    ensures
        match search(m, root, counter, st, reads) {
            Found::Tail(t) => reachable(m, root, t) && t >= root && (t + 1 == counter || complete(
                m,
                root,
                t,
            )),
            Found::Aborted => exists|x: u64| #[trigger] reachable(m, root, x) && node_at(m, x) is None,
            Found::Unfinished => true,
        },
    decreases reads, st.stack.len(),
{
    if st.stack.len() == 0 {
        lemma_closed(m, root, st);
    } else {
        let index = st.stack.last();
        if index < root || st.visited.contains(index) {
            lemma_skip(m, root, st);
            let next = SearchState {
                stack: st.stack.drop_last(),
                visited: st.visited,
                max: st.max,
            };
            lemma_search_sound(m, root, counter, next, reads);
            assert(settle(root, counter, st) == settle(root, counter, next));
            assert(search(m, root, counter, st, reads) == search(m, root, counter, next, reads));
        } else {
            assert(st.stack[st.stack.len() - 1] == index);
            assert(reachable(m, root, index));
            let max = if index > st.max {
                index
            } else {
                st.max
            };
            if max + 1 != counter && reads > 0 {
                if node_at(m, index) is Some {
                    lemma_feed(m, root, st);
                    let next = fed(
                        SearchState {
                            stack: st.stack.drop_last(),
                            visited: st.visited.insert(index),
                            max,
                        },
                        node_at(m, index)->Some_0,
                    );
                    lemma_search_sound(m, root, counter, next, (reads - 1) as nat);
                }
            }
        }
    }
}

/// The tail found is a reachable index. Where it is not the one just below the counter, every
/// reachable index holds a node, and none is above the tail. A search is given up only where a
/// reachable index holds no node.
pub proof fn law_confirmed_tail(m: ColumnMap, root: u64, counter: u64)
    ensures
        match full_search(m, root, counter) {
            Found::Tail(t) => reachable(m, root, t) && t >= root && (t + 1 == counter || complete(
                m,
                root,
                t,
            )),
            Found::Aborted => exists|x: u64| #[trigger] reachable(m, root, x) && node_at(m, x) is None,
            Found::Unfinished => true,
        },
{
    let reads = choose|reads: nat| search(m, root, counter, start(root), reads) !is Unfinished;
    lemma_root_reachable(m, root);
    assert(start(root).stack[0] == root);
    assert(sound(m, root, start(root)));
    lemma_search_sound(m, root, counter, start(root), reads);
}

} // verus!
