//! Tables of root indices by block.
use vstd::prelude::*;

verus! {

/// Rows in strictly ascending order of their blocks.
pub open spec fn ascending<V>(rows: Seq<(u64, V)>) -> bool {
    forall|i: int, j: int|
        #![trigger rows[i], rows[j]]
        0 <= i < j < rows.len() ==> rows[i].0 < rows[j].0
}

/// Whether some row is for block `b`.
pub open spec fn has_block<V>(rows: Seq<(u64, V)>, b: u64) -> bool {
    exists|i: int| 0 <= i < rows.len() && (#[trigger] rows[i]).0 == b
}

/// The position of the row for block `b`.
pub open spec fn row_of<V>(rows: Seq<(u64, V)>, b: u64) -> int {
    choose|i: int| 0 <= i < rows.len() && (#[trigger] rows[i]).0 == b
}

/// The map from blocks that rows stand for.
pub open spec fn rows_map<V>(rows: Seq<(u64, V)>) -> Map<u64, V> {
    Map::new(|b: u64| has_block(rows, b), |b: u64| rows[row_of(rows, b)].1)
}

proof fn lemma_row<V>(rows: Seq<(u64, V)>, i: int)
    requires
        ascending(rows),
        0 <= i < rows.len(),
    ensures
        rows_map(rows).contains_key(rows[i].0),
        rows_map(rows)[rows[i].0] == rows[i].1,
{
    let j = row_of(rows, rows[i].0);
    assert(has_block(rows, rows[i].0));
    assert(rows[j].0 == rows[i].0);
    if j < i {
        assert(rows[j].0 < rows[i].0);
    } else if i < j {
        assert(rows[i].0 < rows[j].0);
    }
}

/// `k` is the last block with a row that is not after `b`.
pub open spec fn is_floor<V>(m: Map<u64, V>, b: u64, k: u64) -> bool {
    m.contains_key(k) && k <= b && forall|j: u64| #[trigger] m.contains_key(j) && j <= b ==> j <= k
}

/// The last block with a row that is not after `b`.
pub open spec fn floor_key<V>(m: Map<u64, V>, b: u64) -> Option<u64> {
    if exists|k: u64| is_floor(m, b, k) {
        Some(choose|k: u64| is_floor(m, b, k))
    } else {
        None
    }
}

/// The value that holds at block `b`: that of the last row that is not after it.
pub open spec fn value_at<V>(m: Map<u64, V>, b: u64) -> Option<V> {
    match floor_key(m, b) {
        Some(k) => Some(m[k]),
        None => None,
    }
}

/// There is one last block that is not after `b`.
pub proof fn lemma_floor<V>(m: Map<u64, V>, b: u64, k: u64)
    requires
        is_floor(m, b, k),
    ensures
        floor_key(m, b) == Some(k),
{
    let c = choose|c: u64| is_floor(m, b, c);
    assert(is_floor(m, b, c));
    assert(m.contains_key(c) && c <= b);
    assert(m.contains_key(k) && k <= b);
}

/// Rows without those before block `b`.
pub open spec fn from_block<V>(m: Map<u64, V>, b: u64) -> Map<u64, V> {
    Map::new(|k: u64| m.contains_key(k) && k >= b, |k: u64| m[k])
}

/// Rows without those that are no longer needed to tell the value at `before` or after it.
pub open spec fn without_history<V>(m: Map<u64, V>, before: u64) -> Map<u64, V> {
    match floor_key(m, before) {
        Some(last) => from_block(m, last),
        None => m,
    }
}

/// Removing old rows does not change what holds at the block they are removed before, or later.
pub proof fn law_history_needed_is_kept<V>(m: Map<u64, V>, before: u64, b: u64)
    requires
        b >= before,
    ensures
        value_at(without_history(m, before), b) == value_at(m, b),
{
    if let Some(last) = floor_key(m, before) {
        let kept = from_block(m, last);
        assert(is_floor(m, before, last));
        if exists|k: u64| is_floor(m, b, k) {
            let k = choose|k: u64| is_floor(m, b, k);
            assert(m.contains_key(last) && last <= b);
            assert(is_floor(kept, b, k)) by {
                assert forall|j: u64| #[trigger] kept.contains_key(j) && j <= b implies j <= k by {
                    assert(m.contains_key(j));
                }
            }
            lemma_floor(m, b, k);
            lemma_floor(kept, b, k);
        } else if exists|k: u64| is_floor(kept, b, k) {
            let k = choose|k: u64| is_floor(kept, b, k);
            assert(is_floor(m, b, k)) by {
                assert forall|j: u64| #[trigger] m.contains_key(j) && j <= b implies j <= k by {
                    if j >= last {
                        assert(kept.contains_key(j));
                    } else {
                        assert(kept.contains_key(last));
                    }
                }
            }
        }
    }
}

/// A table with one row per block.
#[derive(Debug)]
pub struct BlockTable<V> {
    rows: Vec<(u64, V)>,
}

impl<V> View for BlockTable<V> {
    type V = Map<u64, V>;

    open spec fn view(&self) -> Map<u64, V> {
        rows_map(self.items())
    }
}

impl<V> BlockTable<V> {
    /// The rows, in the order of their blocks.
    pub closed spec fn items(self) -> Seq<(u64, V)> {
        self.rows@
    }

    #[verifier::type_invariant]
    spec fn in_order(self) -> bool {
        ascending(self.items())
    }
}

impl<V: Copy> BlockTable<V> {
    pub fn new() -> (r: Self)
        ensures
            r@ == Map::<u64, V>::empty(),
    {
        let r = BlockTable { rows: Vec::new() };
        assert(r@ =~= Map::<u64, V>::empty());
        r
    }

    /// The number of rows.
    pub fn len(&self) -> (r: usize)
        ensures
            r == self.items().len(),
            ascending(self.items()),
    {
        proof {
            use_type_invariant(self);
        }
        self.rows.len()
    }

    /// Row `i`.
    pub fn row(&self, i: usize) -> (r: (u64, V))
        requires
            i < self.items().len(),
        ensures
            r == self.items()[i as int],
    {
        self.rows[i]
    }

    /// The number of rows before block `b`.
    fn rows_before(&self, b: u64) -> (r: usize)
        ensures
            r <= self.items().len(),
            ascending(self.items()),
            forall|i: int| 0 <= i < r ==> (#[trigger] self.items()[i]).0 < b,
            forall|i: int| r <= i < self.items().len() ==> (#[trigger] self.items()[i]).0 >= b,
    {
        proof {
            use_type_invariant(self);
        }
        let mut i: usize = 0;
        while i < self.rows.len() && self.rows[i].0 < b
            invariant
                i <= self.rows@.len(),
                forall|j: int| 0 <= j < i ==> (#[trigger] self.rows@[j]).0 < b,
            decreases self.rows@.len() - i,
        {
            i = i + 1;
        }
        assert forall|j: int| i <= j < self.items().len() implies (#[trigger] self.items()[j]).0
            >= b by {
            if j > i {
                assert(self.items()[i as int].0 < self.items()[j].0);
            }
        }
        i
    }

    /// Whether there is a row for block `b`.
    pub fn contains(&self, b: u64) -> (r: bool)
        ensures
            r == self@.contains_key(b),
    {
        let i: usize = self.rows_before(b);
        proof {
            if i < self.items().len() {
                lemma_row(self.items(), i as int);
                if self.items()[i as int].0 != b && has_block(self.items(), b) {
                    let j = row_of(self.items(), b);
                    assert(self.items()[j].0 == b);
                    assert(self.items()[i as int].0 < self.items()[j].0);
                }
            } else if has_block(self.items(), b) {
                let j = row_of(self.items(), b);
                assert(self.items()[j].0 == b);
            }
        }
        i < self.rows.len() && self.rows[i].0 == b
    }

    /// The last row that is not after block `b`.
    pub fn last_at(&self, b: u64) -> (r: Option<(u64, V)>)
        ensures
            match floor_key(self@, b) {
                Some(k) => r == Some((k, self@[k])),
                None => r is None,
            },
    {
        let mut i: usize = self.rows_before(b);
        if i < self.rows.len() && self.rows[i].0 == b {
            i = i + 1;
        }
        proof {
            let rows = self.items();
            assert(forall|j: int| 0 <= j < i ==> (#[trigger] rows[j]).0 <= b);
            assert forall|j: int| i <= j < rows.len() implies (#[trigger] rows[j]).0 > b by {
                if rows[j].0 == b {
                    let first = if i > 0 && rows[i - 1].0 == b {
                        i - 1
                    } else {
                        i as int
                    };
                    assert(rows[first].0 >= b);
                }
            }
            assert forall|c: u64| #[trigger] self@.contains_key(c) && c <= b implies i > 0 && c
                <= rows[i - 1].0 by {
                let j = row_of(rows, c);
                assert(rows[j].0 == c);
                assert(j < i);
                if j < i - 1 {
                    assert(rows[j].0 < rows[i - 1].0);
                }
            }
            if i > 0 {
                lemma_row(rows, i - 1);
                assert(is_floor(self@, b, rows[i - 1].0));
                lemma_floor(self@, b, rows[i - 1].0);
            } else if exists|k: u64| is_floor(self@, b, k) {
                let k = choose|k: u64| is_floor(self@, b, k);
                assert(self@.contains_key(k) && k <= b);
            }
        }
        if i == 0 {
            None
        } else {
            Some(self.rows[i - 1])
        }
    }

    /// Puts a row in, in place of one for the same block.
    pub fn insert_or_replace(&mut self, b: u64, v: V)
        ensures
            final(self)@ == old(self)@.insert(b, v),
    {
        let i: usize = self.rows_before(b);
        let mut rows: Vec<(u64, V)> = Vec::new();
        std::mem::swap(&mut rows, &mut self.rows);
        let ghost before = rows@;
        if i < rows.len() && rows[i].0 == b {
            rows.set(i, (b, v));
            proof {
                let new = rows@;
                assert(forall|j: int| 0 <= j < new.len() ==> (#[trigger] new[j]).0 == before[j].0);
                assert forall|c: u64| has_block(new, c) implies has_block(before, c) && rows_map(
                    new,
                )[c] == rows_map(before).insert(b, v)[c] by {
                    let j = row_of(new, c);
                    assert(before[j].0 == c);
                    lemma_row(new, j);
                    lemma_row(before, j);
                    lemma_row(before, i as int);
                    if c == b && j != i {
                        if j < i {
                            assert(before[j].0 < before[i as int].0);
                        } else {
                            assert(before[i as int].0 < before[j].0);
                        }
                    }
                }
                assert forall|c: u64| has_block(before, c) implies has_block(new, c) by {
                    let j = row_of(before, c);
                    assert(new[j].0 == c);
                }
                assert(has_block(before, b));
                assert(rows_map(new) =~= rows_map(before).insert(b, v));
            }
        } else {
            rows.insert(i, (b, v));
            proof {
                let new = rows@;
                assert(new =~= before.insert(i as int, (b, v)));
                assert(forall|j: int|
                    0 <= j < new.len() ==> (#[trigger] new[j]) == (if j < i {
                        before[j]
                    } else if j == i {
                        (b, v)
                    } else {
                        before[j - 1]
                    }));
                assert(forall|j: int| i <= j < before.len() ==> (#[trigger] before[j]).0 > b) by {
                    assert forall|j: int| i <= j < before.len() implies (#[trigger] before[j]).0
                        > b by {
                        if j > i {
                            assert(before[i as int].0 < before[j].0);
                        }
                    }
                }
                assert(ascending(new));
                lemma_row(new, i as int);
                assert forall|c: u64| has_block(new, c) implies (c == b || has_block(before, c))
                    && rows_map(new)[c] == rows_map(before).insert(b, v)[c] by {
                    let j = row_of(new, c);
                    lemma_row(new, j);
                    if j < i {
                        assert(before[j].0 == c);
                        lemma_row(before, j);
                    } else if j > i {
                        assert(before[j - 1].0 == c);
                        lemma_row(before, j - 1);
                    }
                }
                assert forall|c: u64| has_block(before, c) implies has_block(new, c) by {
                    let j = row_of(before, c);
                    if j < i {
                        assert(new[j].0 == c);
                    } else {
                        assert(new[j + 1].0 == c);
                    }
                }
                assert(rows_map(new) =~= rows_map(before).insert(b, v));
            }
        }
        self.rows = rows;
    }

    /// Removes the rows before block `b`.
    pub fn delete_before(&mut self, b: u64)
        ensures
            final(self)@ == from_block(old(self)@, b),
    {
        let n: usize = self.rows_before(b);
        let mut kept: Vec<(u64, V)> = Vec::new();
        let mut i: usize = n;
        while i < self.rows.len()
            invariant
                n <= i <= self.rows@.len(),
                kept@ == self.rows@.subrange(n as int, i as int),
            decreases self.rows@.len() - i,
        {
            kept.push(self.rows[i]);
            i = i + 1;
            assert(kept@ =~= self.rows@.subrange(n as int, i as int));
        }
        proof {
            let before = self.items();
            let new = kept@;
            assert(forall|j: int|
                0 <= j < new.len() ==> (#[trigger] new[j]) == before[j + n]);
            assert(ascending(new)) by {
                assert forall|i: int, j: int|
                    #![trigger new[i], new[j]]
                    0 <= i < j < new.len() implies new[i].0 < new[j].0 by {
                    assert(before[i + n].0 < before[j + n].0);
                }
            }
            assert forall|c: u64| has_block(new, c) implies has_block(before, c) && c >= b
                && rows_map(new)[c] == rows_map(before)[c] by {
                let j = row_of(new, c);
                assert(before[j + n].0 == c);
                lemma_row(new, j);
                lemma_row(before, j + n);
            }
            assert forall|c: u64| has_block(before, c) && c >= b implies has_block(new, c) by {
                let j = row_of(before, c);
                assert(before[j].0 == c);
                assert(new[j - n].0 == c);
            }
            assert(rows_map(new) =~= from_block(rows_map(before), b));
        }
        self.rows = kept;
    }

    /// Removes the rows that are no longer needed to tell the value at `before` or after it.
    pub fn delete_history(&mut self, before: u64)
        ensures
            final(self)@ == without_history(old(self)@, before),
    {
        if let Some((last, _)) = self.last_at(before) {
            self.delete_before(last);
        }
    }
}

} // verus!
