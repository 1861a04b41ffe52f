//! Finding the highest storage index that the nodes of a confirmed root take up.
use std::collections::HashSet;
use vstd::prelude::*;
use vstd::slice::slice_subrange;

use crate::bytes::{be_u64, lemma_be_u64_injective, u64_to_be_bytes};
use crate::storage::codec::{parse_node, CodecError, Flaw, NodeView, StoredNode, TrieStorageIndex};
use crate::storage::columns::{lemma_entries_finite, ColumnMap, KeyValues};

verus! {

broadcast use vstd::std_specs::hash::group_hash_axioms;

/// Why a stored value is not a trie node.
#[derive(Debug)]
pub enum EntryError {
    /// The value is shorter than the hash that it starts with.
    TooShort(usize),
    /// What follows the hash is not a node.
    Decoding(CodecError),
}

/// The node in a stored value, which follows a hash of 32 bytes.
#[verifier::opaque]
pub open spec fn entry_node(value: Seq<u8>) -> Option<NodeView> {
    if value.len() < 32 {
        None
    } else {
        match parse_node(value.subrange(32, value.len() as int)) {
            Ok(n) => Some(n),
            Err(_) => None,
        }
    }
}

/// Reads the node in a stored value, which follows a hash of 32 bytes.
pub fn decode_stored_node_with_hash(bytes: &[u8]) -> (r: Result<StoredNode, EntryError>)
    ensures
        match r {
            Ok(n) => entry_node(bytes@) == Some(n@),
            Err(EntryError::TooShort(n)) => entry_node(bytes@) is None && n == bytes@.len() && n
                < 32,
            Err(EntryError::Decoding(e)) => entry_node(bytes@) is None && bytes@.len() >= 32 && parse_node(
                bytes@.subrange(32, bytes@.len() as int),
            ) == Err::<NodeView, Flaw>(e@),
        },
{
    proof {
        reveal(entry_node);
    }
    if bytes.len() < 32 {
        return Err(EntryError::TooShort(bytes.len()));
    }
    match StoredNode::decode(slice_subrange(bytes, 32, bytes.len())) {
        Ok(n) => Ok(n),
        Err(e) => Err(EntryError::Decoding(e)),
    }
}

/// The indices that a stored node refers to.
pub open spec fn refs(n: NodeView) -> Seq<u64> {
    match n {
        NodeView::Binary { left, right } => seq![left, right],
        NodeView::Edge { child, .. } => seq![child],
        NodeView::LeafBinary => seq![],
        NodeView::LeafEdge { .. } => seq![],
    }
}

/// The node stored under an index.
pub open spec fn node_at(m: ColumnMap, index: u64) -> Option<NodeView> {
    if m.contains_key(be_u64(index)) {
        entry_node(m[be_u64(index)])
    } else {
        None
    }
}

/// Where a search stands.
pub struct SearchState {
    /// Indices still to look at.
    pub stack: Seq<u64>,
    /// Indices looked at.
    pub visited: Set<u64>,
    /// The highest index reached.
    pub max: u64,
}

/// What a search does next.
pub enum Next {
    /// It is over, with this highest index.
    Done(u64),
    /// It needs the node with this index.
    Read(u64, SearchState),
}

/// Takes indices off the stack up to the first one that has to be read. Indices below the root
/// belong to earlier commits and are left out. The search is over when the stack is empty or when
/// the indices up to the counter are used up.
pub open spec fn settle(root: u64, counter: u64, st: SearchState) -> Next
    decreases st.stack.len(),
{
    if st.stack.len() == 0 {
        Next::Done(st.max)
    } else {
        let index = st.stack.last();
        let rest = st.stack.drop_last();
        if index < root || st.visited.contains(index) {
            settle(root, counter, SearchState { stack: rest, visited: st.visited, max: st.max })
        } else {
            let max = if index > st.max {
                index
            } else {
                st.max
            };
            if max + 1 == counter {
                Next::Done(max)
            } else {
                Next::Read(
                    index,
                    SearchState { stack: rest, visited: st.visited.insert(index), max },
                )
            }
        }
    }
}

/// The state after a node was read.
pub open spec fn fed(st: SearchState, n: NodeView) -> SearchState {
    SearchState { stack: st.stack + refs(n), visited: st.visited, max: st.max }
}

/// How a search ends.
pub enum Found {
    /// The highest index reached.
    Tail(u64),
    /// A node is missing or cannot be read.
    Aborted,
    /// The search is not over after the number of reads given.
    Unfinished,
}

/// The search over the nodes of a column.
pub open spec fn search(
    m: ColumnMap,
    root: u64,
    counter: u64,
    st: SearchState,
    reads: nat,
) -> Found
    decreases reads,
{
    match settle(root, counter, st) {
        Next::Done(t) => Found::Tail(t),
        Next::Read(index, next) => if reads == 0 {
            Found::Unfinished
        } else {
            match node_at(m, index) {
                None => Found::Aborted,
                Some(n) => search(m, root, counter, fed(next, n), (reads - 1) as nat),
            }
        },
    }
}

/// Where a search starts.
pub open spec fn start(root: u64) -> SearchState {
    SearchState { stack: seq![root], visited: Set::empty(), max: root }
}

/// The search from a root, taken to its end.
pub open spec fn full_search(m: ColumnMap, root: u64, counter: u64) -> Found {
    let reads = choose|reads: nat| search(m, root, counter, start(root), reads) !is Unfinished;
    search(m, root, counter, start(root), reads)
}

proof fn lemma_search_reads(
    m: ColumnMap,
    root: u64,
    counter: u64,
    st: SearchState,
    a: nat,
    b: nat,
)
    requires
        a <= b,
        search(m, root, counter, st, a) !is Unfinished,
    ensures
        search(m, root, counter, st, b) == search(m, root, counter, st, a),
    decreases a,
{
    if let Next::Read(index, next) = settle(root, counter, st) {
        if let Some(n) = node_at(m, index) {
            lemma_search_reads(m, root, counter, fed(next, n), (a - 1) as nat, (b - 1) as nat);
        }
    }
}

/// The search taken to its end is the search with any number of reads that suffices.
pub proof fn lemma_full_search(m: ColumnMap, root: u64, counter: u64, reads: nat)
    requires
        search(m, root, counter, start(root), reads) !is Unfinished,
    ensures
        full_search(m, root, counter) == search(m, root, counter, start(root), reads),
        full_search(m, root, counter) !is Unfinished,
{
    let r = choose|r: nat| search(m, root, counter, start(root), r) !is Unfinished;
    if r <= reads {
        lemma_search_reads(m, root, counter, start(root), r, reads);
    } else {
        lemma_search_reads(m, root, counter, start(root), reads, r);
    }
}

/// What a search asks of its caller.
#[derive(Clone, Copy, Debug, PartialEq, Eq, Structural)]
pub enum SearchStep {
    /// The search is over; this is the highest index reached.
    Done(TrieStorageIndex),
    /// The value stored under this index is wanted.
    Read(TrieStorageIndex),
}

/// A search for the highest index below a root that asks for one stored value at a time.
pub struct TailSearch {
    root: TrieStorageIndex,
    counter: u64,
    stack: Vec<TrieStorageIndex>,
    visited: HashSet<u64>,
    max_reached: TrieStorageIndex,
}

impl View for TailSearch {
    type V = SearchState;

    closed spec fn view(&self) -> SearchState {
        SearchState {
            stack: self.stack@.map_values(|i: TrieStorageIndex| i@),
            visited: self.visited@,
            max: self.max_reached@,
        }
    }
}

impl TailSearch {
    /// The index that the search started from.
    pub closed spec fn root(self) -> u64 {
        self.root@
    }

    /// The counter that the search compares with.
    pub closed spec fn counter(self) -> u64 {
        self.counter
    }

    pub fn new(root: TrieStorageIndex, counter: u64) -> (r: Self)
        ensures
            r@ == start(root@),
            r.root() == root@,
            r.counter() == counter,
    {
        let r = TailSearch {
            root,
            counter,
            stack: vec![root],
            visited: HashSet::new(),
            max_reached: root,
        };
        assert(r@.stack =~= seq![root@]);
        assert(r@.visited =~= Set::empty());
        r
    }

    /// Goes on up to the next index that has to be read, or to the end.
    pub fn next(&mut self) -> (r: SearchStep)
        ensures
            final(self).root() == old(self).root(),
            final(self).counter() == old(self).counter(),
            match settle(old(self).root(), old(self).counter(), old(self)@) {
                Next::Done(t) => r matches SearchStep::Done(i) && i@ == t,
                Next::Read(index, st) => r matches SearchStep::Read(i) && i@ == index && final(self)@ == st,
            },
    {
        loop
            invariant
                self.root() == old(self).root(),
                self.counter() == old(self).counter(),
                settle(self.root(), self.counter(), self@) == settle(
                    old(self).root(),
                    old(self).counter(),
                    old(self)@,
                ),
            decreases self.stack@.len(),
        {
            let ghost before = self@;
            match self.stack.pop() {
                None => {
                    return SearchStep::Done(self.max_reached);
                },
                Some(index) => {
                    proof {
                        assert(self@.stack =~= before.stack.drop_last());
                        assert(before.stack.last() == index@);
                    }
                    let i: u64 = index.get();
                    if i < self.root.get() {
                        continue ;
                    }
                    if !self.visited.insert(i) {
                        assert(self@.visited =~= before.visited);
                        continue ;
                    }
                    if i > self.max_reached.get() {
                        self.max_reached = index;
                    }
                    if self.max_reached.get() + 1 == self.counter {
                        return SearchStep::Done(self.max_reached);
                    }
                    return SearchStep::Read(index);
                },
            }
        }
    }

    /// Takes in the value stored under the index that was asked for. Gives `false` where it is
    /// missing or is not a node: the search is then given up.
    pub fn feed(&mut self, value: Option<&[u8]>) -> (r: bool)
        ensures
            final(self).root() == old(self).root(),
            final(self).counter() == old(self).counter(),
            r == (value matches Some(v) && entry_node(v@) is Some),
            r ==> final(self)@ == fed(old(self)@, entry_node(value->Some_0@)->Some_0),
    {
        match value {
            None => false,
            Some(bytes) => match decode_stored_node_with_hash(bytes) {
                Err(_) => false,
                Ok(node) => {
                    match &node {
                        StoredNode::Binary { left, right } => {
                            self.stack.push(*left);
                            self.stack.push(*right);
                        },
                        StoredNode::Edge { child, .. } => {
                            self.stack.push(*child);
                        },
                        StoredNode::LeafBinary => {},
                        StoredNode::LeafEdge { .. } => {},
                    }
                    assert(self@.stack =~= old(self)@.stack + refs(node@));
                    true
                },
            },
        }
    }
}

/// Reads of different indices that are all in a column are no more than the column has keys.
proof fn lemma_reads_bounded(m: ColumnMap, reads: Seq<u64>)
    requires
        m.dom().finite(),
        reads.no_duplicates(),
        forall|i: int| 0 <= i < reads.len() ==> m.contains_key(be_u64(#[trigger] reads[i])),
    ensures
        reads.len() <= m.dom().len(),
{
    let keys = Seq::new(reads.len(), |i: int| be_u64(reads[i]));
    assert(keys.no_duplicates()) by {
        assert forall|i: int, j: int|
            0 <= i < keys.len() && 0 <= j < keys.len() && i != j implies keys[i] != keys[j] by {
            if keys[i] == keys[j] {
                lemma_be_u64_injective(reads[i], reads[j]);
            }
        }
    }
    keys.unique_seq_to_set();
    assert(keys.to_set().subset_of(m.dom()));
    vstd::set_lib::lemma_len_subset(keys.to_set(), m.dom());
}

/// Walks the stored nodes below `root` and gives the highest index reached, or `None` where a node
/// is missing or cannot be read.
pub fn dfs_confirmed_tail(nodes: &KeyValues, root: TrieStorageIndex, counter: u64) -> (r: Option<
    TrieStorageIndex,
>)
    ensures
        match full_search(nodes@, root@, counter) {
            Found::Tail(t) => r matches Some(i) && i@ == t,
            Found::Aborted => r is None,
            Found::Unfinished => false,
        },
{
    let mut state = TailSearch::new(root, counter);
    let ghost mut left: nat = nodes@.dom().len() + 1;
    proof {
        lemma_entries_finite(nodes.items());
        lemma_search_ends(nodes@, root@, counter);
        lemma_full_search(nodes@, root@, counter, left);
    }
    loop
        invariant
            state.root() == root@,
            state.counter() == counter,
            search(nodes@, root@, counter, state@, left) !is Unfinished,
            full_search(nodes@, root@, counter) == search(nodes@, root@, counter, state@, left),
        decreases left,
    {
        match state.next() {
            SearchStep::Done(t) => {
                return Some(t);
            },
            SearchStep::Read(index) => {
                let key = u64_to_be_bytes(index.get());
                let more: bool = match nodes.get(key.as_slice()) {
                    None => state.feed(None),
                    Some(v) => state.feed(Some(v.as_slice())),
                };
                if !more {
                    return None;
                }
                proof {
                    left = (left - 1) as nat;
                }
            },
        }
    }
}

/// In a column with finitely many keys every search comes to its end.
pub proof fn lemma_search_ends(m: ColumnMap, root: u64, counter: u64)
    requires
        m.dom().finite(),
    ensures
        search(m, root, counter, start(root), m.dom().len() + 1) !is Unfinished,
{
    assert(Seq::<u64>::empty().to_set() =~= Set::empty());
    lemma_terminates(m, root, counter, start(root), Seq::empty());
}

/// A search that has made `reads` comes to its end.
proof fn lemma_terminates(
    m: ColumnMap,
    root: u64,
    counter: u64,
    st: SearchState,
    reads: Seq<u64>,
)
    requires
        m.dom().finite(),
        reads.no_duplicates(),
        st.visited == reads.to_set(),
        forall|i: int| 0 <= i < reads.len() ==> m.contains_key(be_u64(#[trigger] reads[i])),
    ensures
        reads.len() <= m.dom().len(),
        search(m, root, counter, st, (m.dom().len() + 1 - reads.len()) as nat) !is Unfinished,
    decreases m.dom().len() + 1 - reads.len(),
{
    lemma_reads_bounded(m, reads);
    lemma_settle_visited(root, counter, st);
    if let Next::Read(index, next) = settle(root, counter, st) {
        if let Some(n) = node_at(m, index) {
            let more = reads.push(index);
            assert(!reads.contains(index));
            assert(more.to_set() =~= reads.to_set().insert(index)) by {
                assert forall|x: u64| more.contains(x) <==> reads.contains(x) || x == index by {
                    if reads.contains(x) {
                        let i = choose|i: int| 0 <= i < reads.len() && reads[i] == x;
                        assert(more[i] == x);
                    }
                    assert(more[reads.len() as int] == index);
                }
            }
            lemma_reads_bounded(m, more);
            lemma_terminates(m, root, counter, fed(next, n), more);
        }
    }
}

/// A read index is not below the root and was not looked at before; it is looked at now.
proof fn lemma_settle_visited(root: u64, counter: u64, st: SearchState)
    ensures
        settle(root, counter, st) matches Next::Read(index, next) ==> index >= root
            && !st.visited.contains(index) && next.visited == st.visited.insert(index),
    decreases st.stack.len(),
{
    if st.stack.len() > 0 {
        let index = st.stack.last();
        if index < root || st.visited.contains(index) {
            lemma_settle_visited(
                root,
                counter,
                SearchState { stack: st.stack.drop_last(), visited: st.visited, max: st.max },
            );
        }
    }
}

} // verus!
