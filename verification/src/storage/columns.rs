//! The key-value side of the storage: columns of sorted byte keys, and batches of writes to them.
use vstd::prelude::*;

use crate::bytes::{
    bytes_before, bytes_equal, copy_bytes, lemma_lex_transitive, lemma_lex_trichotomy, lex_le,
    lex_lt,
};

verus! {

/// The contents of one column.
pub type ColumnMap = Map<Seq<u8>, Seq<u8>>;

/// The columns of the key-value store.
#[derive(Clone, Copy, Debug, PartialEq, Eq, Structural)]
pub enum Column {
    TrieClass,
    TrieContract,
    TrieStorage,
    TrieNextIndex,
    ContractStateHashes,
    StateUpdates,
    NonceUpdates,
    StorageUpdates,
    TransactionsAndReceipts,
    TransactionHashes,
    Events,
}

/// Entries in strictly ascending order of their keys.
pub open spec fn sorted(items: Seq<(Seq<u8>, Seq<u8>)>) -> bool {
    forall|i: int, j: int|
        #![trigger items[i], items[j]]
        0 <= i < j < items.len() ==> lex_lt(items[i].0, items[j].0)
}

/// Whether some entry has the key `k`.
pub open spec fn has_key(items: Seq<(Seq<u8>, Seq<u8>)>, k: Seq<u8>) -> bool {
    exists|i: int| 0 <= i < items.len() && (#[trigger] items[i]).0 == k
}

/// The position of the entry with key `k`.
pub open spec fn slot(items: Seq<(Seq<u8>, Seq<u8>)>, k: Seq<u8>) -> int {
    choose|i: int| 0 <= i < items.len() && (#[trigger] items[i]).0 == k
}

/// The map that sorted entries stand for.
pub open spec fn entries_map(items: Seq<(Seq<u8>, Seq<u8>)>) -> ColumnMap {
    Map::new(|k: Seq<u8>| has_key(items, k), |k: Seq<u8>| items[slot(items, k)].1)
}

/// In sorted entries each entry is the one found by its key.
pub proof fn lemma_slot(items: Seq<(Seq<u8>, Seq<u8>)>, i: int)
    requires
        sorted(items),
        0 <= i < items.len(),
    ensures
        has_key(items, items[i].0),
        slot(items, items[i].0) == i,
        entries_map(items).contains_key(items[i].0),
        entries_map(items)[items[i].0] == items[i].1,
{
    let j = slot(items, items[i].0);
    assert(items[i].0 == items[i].0);
    if j < i {
        lemma_lex_trichotomy(items[j].0, items[i].0);
    } else if i < j {
        lemma_lex_trichotomy(items[i].0, items[j].0);
    }
}

/// A column has finitely many keys.
pub proof fn lemma_entries_finite(items: Seq<(Seq<u8>, Seq<u8>)>)
    ensures
        entries_map(items).dom().finite(),
{
    let keys = items.map_values(|e: (Seq<u8>, Seq<u8>)| e.0);
    assert(entries_map(items).dom() =~= keys.to_set()) by {
        assert forall|k: Seq<u8>| has_key(items, k) <==> keys.contains(k) by {
            if has_key(items, k) {
                assert(keys[slot(items, k)] == k);
            }
            if keys.contains(k) {
                let i = choose|i: int| 0 <= i < keys.len() && keys[i] == k;
                assert(items[i].0 == k);
            }
        }
    }
    vstd::seq_lib::seq_to_set_is_finite(keys);
}

/// The entries of one column, in the order of their keys.
#[derive(Debug)]
pub struct KeyValues {
    entries: Vec<(Vec<u8>, Vec<u8>)>,
}

impl View for KeyValues {
    type V = ColumnMap;

    open spec fn view(&self) -> ColumnMap {
        entries_map(self.items())
    }
}

spec fn entry_views(entries: Seq<(Vec<u8>, Vec<u8>)>) -> Seq<(Seq<u8>, Seq<u8>)> {
    entries.map_values(|e: (Vec<u8>, Vec<u8>)| (e.0@, e.1@))
}

impl KeyValues {
    /// The entries, in the order of their keys.
    pub closed spec fn items(self) -> Seq<(Seq<u8>, Seq<u8>)> {
        entry_views(self.entries@)
    }

    #[verifier::type_invariant]
    spec fn in_order(self) -> bool {
        sorted(self.items())
    }

    pub fn new() -> (r: Self)
        ensures
            r@ == ColumnMap::empty(),
    {
        let r = KeyValues { entries: Vec::new() };
        assert(r@ =~= ColumnMap::empty());
        r
    }

    /// The number of entries.
    pub fn len(&self) -> (r: usize)
        ensures
            r == self.items().len(),
            sorted(self.items()),
    {
        proof {
            use_type_invariant(self);
        }
        self.entries.len()
    }

    /// The key of entry `i`.
    pub fn key_at(&self, i: usize) -> (r: &Vec<u8>)
        requires
            i < self.items().len(),
        ensures
            r@ == self.items()[i as int].0,
    {
        &self.entries[i].0
    }

    /// The value of entry `i`.
    pub fn value_at(&self, i: usize) -> (r: &Vec<u8>)
        requires
            i < self.items().len(),
        ensures
            r@ == self.items()[i as int].1,
    {
        &self.entries[i].1
    }

    /// The position of the first entry whose key does not come before `key`.
    pub fn seek(&self, key: &[u8]) -> (r: usize)
        ensures
            r <= self.items().len(),
            sorted(self.items()),
            forall|i: int| 0 <= i < r ==> lex_lt((#[trigger] self.items()[i]).0, key@),
            forall|i: int|
                r <= i < self.items().len() ==> lex_le(key@, (#[trigger] self.items()[i]).0),
    {
        proof {
            use_type_invariant(self);
        }
        let mut i: usize = 0;
        while i < self.entries.len() && bytes_before(self.entries[i].0.as_slice(), key)
            invariant
                i <= self.entries@.len(),
                self.items().len() == self.entries@.len(),
                forall|j: int| 0 <= j < i ==> lex_lt((#[trigger] self.items()[j]).0, key@),
            decreases self.entries@.len() - i,
        {
            assert(self.items()[i as int].0 == self.entries@[i as int].0@);
            i = i + 1;
        }
        assert forall|j: int| i <= j < self.items().len() implies lex_le(
            key@,
            (#[trigger] self.items()[j]).0,
        ) by {
            let k = self.items()[i as int].0;
            assert(k == self.entries@[i as int].0@);
            lemma_lex_trichotomy(k, key@);
            if j > i {
                let kj = self.items()[j].0;
                assert(lex_lt(k, kj));
                if k != key@ {
                    lemma_lex_transitive(key@, k, kj);
                }
            }
        }
        i
    }

    pub fn get(&self, key: &[u8]) -> (r: Option<&Vec<u8>>)
        ensures
            r is Some <==> self@.contains_key(key@),
            r matches Some(v) ==> v@ == self@[key@],
    {
        let i: usize = self.seek(key);
        proof {
            if i < self.items().len() {
                lemma_slot(self.items(), i as int);
            }
        }
        if i < self.entries.len() && bytes_equal(self.entries[i].0.as_slice(), key) {
            Some(&self.entries[i].1)
        } else {
            proof {
                lemma_seek_missing(self.items(), key@, i as int);
            }
            None
        }
    }

    /// Binds a key to a value.
    pub fn put(&mut self, key: Vec<u8>, value: Vec<u8>)
        ensures
            final(self)@ == old(self)@.insert(key@, value@),
    {
        let i: usize = self.seek(key.as_slice());
        let mut entries: Vec<(Vec<u8>, Vec<u8>)> = Vec::new();
        std::mem::swap(&mut entries, &mut self.entries);
        let ghost before = entry_views(entries@);
        let ghost k = key@;
        let ghost v = value@;
        if i < entries.len() && bytes_equal(entries[i].0.as_slice(), key.as_slice()) {
            entries.set(i, (key, value));
            proof {
                assert(entry_views(entries@) =~= before.update(i as int, (k, v)));
                lemma_put_over(before, i as int, k, v);
            }
        } else {
            entries.insert(i, (key, value));
            proof {
                assert(entry_views(entries@) =~= before.insert(i as int, (k, v)));
                lemma_seek_missing(before, k, i as int);
                lemma_put_new(before, i as int, k, v);
            }
        }
        self.entries = entries;
    }

    /// Removes a key.
    pub fn delete(&mut self, key: &[u8])
        ensures
            final(self)@ == old(self)@.remove(key@),
    {
        let i: usize = self.seek(key);
        let mut entries: Vec<(Vec<u8>, Vec<u8>)> = Vec::new();
        std::mem::swap(&mut entries, &mut self.entries);
        let ghost before = entry_views(entries@);
        if i < entries.len() && bytes_equal(entries[i].0.as_slice(), key) {
            let _ = entries.remove(i);
            proof {
                assert(entry_views(entries@) =~= before.remove(i as int));
                lemma_delete(before, i as int);
            }
        } else {
            proof {
                lemma_seek_missing(before, key@, i as int);
                assert(entries_map(before).remove(key@) =~= entries_map(before));
            }
        }
        self.entries = entries;
    }

    /// Removes every key from `from` up to but not including `to`.
    pub fn delete_range(&mut self, from: &[u8], to: &[u8])
        ensures
            final(self)@ == without_range(old(self)@, from@, to@),
    {
        let start: usize = self.seek(from);
        let mut entries: Vec<(Vec<u8>, Vec<u8>)> = Vec::new();
        std::mem::swap(&mut entries, &mut self.entries);
        let ghost before = entry_views(entries@);
        let ghost mut stop = start as int;
        proof {
            assert(before.subrange(0, start as int) + before.subrange(stop, before.len() as int)
                =~= before);
        }
        while start < entries.len() && bytes_before(entries[start].0.as_slice(), to)
            invariant
                start <= stop <= before.len(),
                entries@.len() == before.len() - (stop - start),
                entry_views(entries@) == before.subrange(0, start as int) + before.subrange(
                    stop,
                    before.len() as int,
                ),
                forall|j: int| start <= j < stop ==> lex_lt((#[trigger] before[j]).0, to@),
            decreases entries@.len(),
        {
            assert(entry_views(entries@)[start as int] == before[stop]);
            let ghost kept = entry_views(entries@);
            let _ = entries.remove(start);
            proof {
                stop = stop + 1;
                assert(entry_views(entries@) =~= kept.remove(start as int));
                assert(entry_views(entries@) =~= before.subrange(0, start as int)
                    + before.subrange(stop, before.len() as int));
            }
        }
        proof {
            if start < entries@.len() {
                assert(entry_views(entries@)[start as int] == before[stop]);
            }
            lemma_cut(before, start as int, stop, from@, to@);
        }
        self.entries = entries;
    }

    /// A second column with the same entries.
    pub fn copy(&self) -> (r: Self)
        ensures
            r@ == self@,
            r.items() == self.items(),
    {
        proof {
            use_type_invariant(self);
        }
        let mut entries: Vec<(Vec<u8>, Vec<u8>)> = Vec::new();
        let mut i: usize = 0;
        while i < self.entries.len()
            invariant
                i <= self.entries@.len(),
                entry_views(entries@) == self.items().subrange(0, i as int),
            decreases self.entries@.len() - i,
        {
            let key = copy_bytes(self.entries[i].0.as_slice());
            let value = copy_bytes(self.entries[i].1.as_slice());
            let ghost copied = entry_views(entries@);
            entries.push((key, value));
            assert(entry_views(entries@) =~= copied.push(self.items()[i as int]));
            i = i + 1;
            assert(entry_views(entries@) =~= self.items().subrange(0, i as int));
        }
        assert(entry_views(entries@) =~= self.items());
        KeyValues { entries }
    }
}

/// A column without the keys from `from` up to but not including `to`.
pub open spec fn without_range(m: ColumnMap, from: Seq<u8>, to: Seq<u8>) -> ColumnMap {
    Map::new(
        |k: Seq<u8>| m.contains_key(k) && !(lex_le(from, k) && lex_lt(k, to)),
        |k: Seq<u8>| m[k],
    )
}

proof fn lemma_seek_missing(items: Seq<(Seq<u8>, Seq<u8>)>, key: Seq<u8>, pos: int)
    requires
        sorted(items),
        0 <= pos <= items.len(),
        forall|i: int| 0 <= i < pos ==> lex_lt((#[trigger] items[i]).0, key),
        forall|i: int| pos <= i < items.len() ==> lex_le(key, (#[trigger] items[i]).0),
        pos < items.len() ==> items[pos].0 != key,
    ensures
        !has_key(items, key),
        forall|i: int| pos <= i < items.len() ==> lex_lt(key, (#[trigger] items[i]).0),
{
    assert forall|i: int| 0 <= i < items.len() implies (#[trigger] items[i]).0 != key by {
        if i < pos {
            lemma_lex_trichotomy(items[i].0, key);
        } else if i > pos {
            assert(lex_lt(items[pos].0, items[i].0));
            if items[i].0 == key {
                lemma_lex_trichotomy(key, items[pos].0);
            }
        }
    }
}

proof fn lemma_put_over(items: Seq<(Seq<u8>, Seq<u8>)>, i: int, k: Seq<u8>, v: Seq<u8>)
    requires
        sorted(items),
        0 <= i < items.len(),
        items[i].0 == k,
    ensures
        sorted(items.update(i, (k, v))),
        entries_map(items.update(i, (k, v))) == entries_map(items).insert(k, v),
{
    let new = items.update(i, (k, v));
    assert(forall|j: int| 0 <= j < items.len() ==> (#[trigger] new[j]).0 == items[j].0);
    assert forall|q: Seq<u8>| has_key(new, q) implies has_key(items, q) && entries_map(new)[q]
        == entries_map(items).insert(k, v)[q] by {
        let j = slot(new, q);
        assert(items[j].0 == q);
        lemma_slot(items, j);
        lemma_slot(new, j);
        lemma_slot(items, i);
    }
    assert forall|q: Seq<u8>| has_key(items, q) implies has_key(new, q) by {
        let j = slot(items, q);
        assert(new[j].0 == q);
    }
    assert(has_key(items, k));
    assert(entries_map(new) =~= entries_map(items).insert(k, v));
}

proof fn lemma_put_new(items: Seq<(Seq<u8>, Seq<u8>)>, i: int, k: Seq<u8>, v: Seq<u8>)
    requires
        sorted(items),
        0 <= i <= items.len(),
        forall|j: int| 0 <= j < i ==> lex_lt((#[trigger] items[j]).0, k),
        forall|j: int| i <= j < items.len() ==> lex_lt(k, (#[trigger] items[j]).0),
        !has_key(items, k),
    ensures
        sorted(items.insert(i, (k, v))),
        entries_map(items.insert(i, (k, v))) == entries_map(items).insert(k, v),
{
    let new = items.insert(i, (k, v));
    assert(forall|j: int|
        0 <= j < new.len() ==> (#[trigger] new[j]) == (if j < i {
            items[j]
        } else if j == i {
            (k, v)
        } else {
            items[j - 1]
        }));
    assert(sorted(new));
    lemma_slot(new, i);
    assert forall|q: Seq<u8>| has_key(new, q) implies (q == k || has_key(items, q)) && entries_map(
        new,
    )[q] == entries_map(items).insert(k, v)[q] by {
        let j = slot(new, q);
        if j < i {
            assert(items[j].0 == q);
            lemma_slot(items, j);
        } else if j > i {
            assert(items[j - 1].0 == q);
            lemma_slot(items, j - 1);
        }
    }
    assert forall|q: Seq<u8>| has_key(items, q) implies has_key(new, q) by {
        let j = slot(items, q);
        if j < i {
            assert(new[j].0 == q);
        } else {
            assert(new[j + 1].0 == q);
        }
    }
    assert(entries_map(new) =~= entries_map(items).insert(k, v));
}

proof fn lemma_delete(items: Seq<(Seq<u8>, Seq<u8>)>, i: int)
    requires
        sorted(items),
        0 <= i < items.len(),
    ensures
        sorted(items.remove(i)),
        entries_map(items.remove(i)) == entries_map(items).remove(items[i].0),
{
    let new = items.remove(i);
    let k = items[i].0;
    assert(forall|j: int|
        0 <= j < new.len() ==> (#[trigger] new[j]) == (if j < i {
            items[j]
        } else {
            items[j + 1]
        }));
    assert(sorted(new));
    lemma_slot(items, i);
    assert forall|q: Seq<u8>| has_key(new, q) implies q != k && has_key(items, q) && entries_map(
        new,
    )[q] == entries_map(items)[q] by {
        let j = slot(new, q);
        if j < i {
            assert(items[j].0 == q);
            lemma_slot(items, j);
        } else {
            assert(items[j + 1].0 == q);
            lemma_slot(items, j + 1);
        }
    }
    assert forall|q: Seq<u8>| has_key(items, q) && q != k implies has_key(new, q) by {
        let j = slot(items, q);
        if j < i {
            assert(new[j].0 == q);
        } else {
            assert(new[j - 1].0 == q);
        }
    }
    assert(entries_map(new) =~= entries_map(items).remove(k));
}

proof fn lemma_cut(
    items: Seq<(Seq<u8>, Seq<u8>)>,
    start: int,
    stop: int,
    from: Seq<u8>,
    to: Seq<u8>,
)
    requires
        sorted(items),
        0 <= start <= stop <= items.len(),
        forall|i: int| 0 <= i < start ==> lex_lt((#[trigger] items[i]).0, from),
        forall|i: int| start <= i < items.len() ==> lex_le(from, (#[trigger] items[i]).0),
        forall|i: int| start <= i < stop ==> lex_lt((#[trigger] items[i]).0, to),
        stop < items.len() ==> !lex_lt(items[stop].0, to),
    ensures
        sorted(items.subrange(0, start) + items.subrange(stop, items.len() as int)),
        entries_map(items.subrange(0, start) + items.subrange(stop, items.len() as int))
            == without_range(entries_map(items), from, to),
{
    let new = items.subrange(0, start) + items.subrange(stop, items.len() as int);
    let d = stop - start;
    assert(forall|j: int|
        0 <= j < new.len() ==> (#[trigger] new[j]) == (if j < start {
            items[j]
        } else {
            items[j + d]
        }));
    assert(sorted(new));
    let m = without_range(entries_map(items), from, to);
    assert forall|q: Seq<u8>| has_key(new, q) implies m.contains_key(q) && entries_map(new)[q]
        == m[q] by {
        let j = slot(new, q);
        let o: int = if j < start {
            j
        } else {
            j + d
        };
        assert(items[o].0 == q);
        lemma_slot(items, o);
        if j < start {
            lemma_lex_trichotomy(q, from);
        } else if o > stop {
            assert(lex_lt(items[stop].0, q));
            lemma_lex_trichotomy(items[stop].0, to);
            if lex_lt(q, to) {
                lemma_lex_transitive(items[stop].0, q, to);
            }
        }
    }
    assert forall|q: Seq<u8>| m.contains_key(q) implies has_key(new, q) by {
        let o = slot(items, q);
        if o < start {
            assert(new[o].0 == q);
        } else if o >= stop {
            assert(new[o - d].0 == q);
        }
    }
    assert(entries_map(new) =~= m);
}

} // verus!
