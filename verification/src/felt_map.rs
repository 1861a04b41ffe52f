//! Maps and sets keyed by field elements, in insertion order.
use vstd::prelude::*;

use crate::felt::Felt;

verus! {

/// No key occurs twice.
pub open spec fn distinct_keys<V>(items: Seq<(Felt, V)>) -> bool {
    forall|i: int, j: int|
        #![trigger items[i], items[j]]
        0 <= i < j < items.len() ==> items[i].0 != items[j].0
}

/// The map that a sequence of entries stands for; of two entries with one key the later counts.
pub open spec fn items_map<V>(items: Seq<(Felt, V)>) -> Map<Felt, V>
    decreases items.len(),
{
    if items.len() == 0 {
        Map::empty()
    } else {
        items_map(items.drop_last()).insert(items.last().0, items.last().1)
    }
}

/// In a sequence without repeated keys, a key is in the map exactly when it has an entry, and is
/// bound to the value of that entry.
pub proof fn lemma_items_map<V>(items: Seq<(Felt, V)>)
    requires
        distinct_keys(items),
    ensures
        forall|i: int|
            #![trigger items[i]]
            0 <= i < items.len() ==> items_map(items).contains_key(items[i].0) && items_map(
                items,
            )[items[i].0] == items[i].1,
        forall|k: Felt|
            #![trigger items_map(items).contains_key(k)]
            items_map(items).contains_key(k) ==> exists|i: int|
                0 <= i < items.len() && (#[trigger] items[i]).0 == k,
    decreases items.len(),
{
    if items.len() > 0 {
        let front = items.drop_last();
        assert(forall|i: int| 0 <= i < front.len() ==> front[i] == items[i]);
        lemma_items_map(front);
        assert forall|i: int| #![trigger items[i]] 0 <= i < items.len() implies items_map(
            items,
        ).contains_key(items[i].0) && items_map(items)[items[i].0] == items[i].1 by {
            if i < front.len() {
                assert(front[i] == items[i]);
                assert(items[i].0 != items[items.len() - 1].0);
            }
        }
        assert forall|k: Felt| #[trigger]
            items_map(items).contains_key(k) implies exists|i: int|
            0 <= i < items.len() && (#[trigger] items[i]).0 == k by {
            if k == items.last().0 {
                assert(items[items.len() - 1].0 == k);
            } else {
                assert(items_map(front).contains_key(k));
                let i = choose|i: int| 0 <= i < front.len() && (#[trigger] front[i]).0 == k;
                assert(items[i].0 == k);
            }
        }
    }
}

/// Changing the value of one entry changes the map at its key alone.
proof fn lemma_items_map_update<V>(items: Seq<(Felt, V)>, i: int, v: V)
    requires
        distinct_keys(items),
        0 <= i < items.len(),
    ensures
        distinct_keys(items.update(i, (items[i].0, v))),
        items_map(items.update(i, (items[i].0, v))) == items_map(items).insert(items[i].0, v),
{
    let new = items.update(i, (items[i].0, v));
    assert(forall|j: int| 0 <= j < items.len() ==> (#[trigger] new[j]).0 == items[j].0);
    lemma_items_map(items);
    lemma_items_map(new);
    let m = items_map(items).insert(items[i].0, v);
    assert forall|k: Felt| items_map(new).contains_key(k) <==> m.contains_key(k) by {
        if items_map(new).contains_key(k) {
            let j = choose|j: int| 0 <= j < new.len() && (#[trigger] new[j]).0 == k;
            assert(items[j].0 == k);
        }
        if m.contains_key(k) {
            if k != items[i].0 {
                let j = choose|j: int| 0 <= j < items.len() && (#[trigger] items[j]).0 == k;
                assert(new[j].0 == k);
            } else {
                assert(new[i].0 == k);
            }
        }
    }
    assert forall|k: Felt| items_map(new).contains_key(k) implies items_map(new)[k] == m[k] by {
        let j = choose|j: int| 0 <= j < new.len() && (#[trigger] new[j]).0 == k;
        assert(items[j].0 == k);
        if j != i {
            assert(items[j].0 != items[i].0) by {
                if i < j {
                    assert(items[i].0 != items[j].0);
                } else {
                    assert(items[j].0 != items[i].0);
                }
            }
        }
    }
    assert(items_map(new) =~= m);
}

/// A map from field elements, kept as entries in the order in which the keys came.
#[derive(Debug)]
pub struct FeltMap<V> {
    entries: Vec<(Felt, V)>,
}

impl<V> View for FeltMap<V> {
    type V = Map<Felt, V>;

    open spec fn view(&self) -> Map<Felt, V> {
        items_map(self.items())
    }
}

impl<V> FeltMap<V> {
    /// The entries, in the order in which the keys came.
    pub closed spec fn items(self) -> Seq<(Felt, V)> {
        self.entries@
    }

    #[verifier::type_invariant]
    spec fn distinct(self) -> bool {
        distinct_keys(self.items())
    }

    pub fn new() -> (r: Self)
        ensures
            r@ == Map::<Felt, V>::empty(),
            r.items() == Seq::<(Felt, V)>::empty(),
    {
        FeltMap { entries: Vec::new() }
    }

    /// The number of keys.
    pub fn len(&self) -> (r: usize)
        ensures
            r == self.items().len(),
            distinct_keys(self.items()),
    {
        proof {
            use_type_invariant(self);
        }
        self.entries.len()
    }

    /// The key that came as number `i`.
    pub fn key_at(&self, i: usize) -> (r: Felt)
        requires
            i < self.items().len(),
        ensures
            r == self.items()[i as int].0,
    {
        self.entries[i].0
    }

    /// The value of the key that came as number `i`.
    pub fn value_at(&self, i: usize) -> (r: &V)
        requires
            i < self.items().len(),
        ensures
            *r == self.items()[i as int].1,
    {
        &self.entries[i].1
    }

    /// The position of a key.
    fn position(&self, key: Felt) -> (r: Option<usize>)
        ensures
            r matches Some(i) ==> i < self.items().len() && self.items()[i as int].0 == key,
            r is None ==> forall|i: int| 0 <= i < self.items().len() ==> self.items()[i].0 != key,
    {
        let mut i: usize = 0;
        while i < self.entries.len()
            invariant
                i <= self.entries@.len(),
                forall|j: int| 0 <= j < i ==> self.entries@[j].0 != key,
            decreases self.entries@.len() - i,
        {
            if self.entries[i].0 == key {
                return Some(i);
            }
            i = i + 1;
        }
        None
    }

    pub fn contains_key(&self, key: Felt) -> (r: bool)
        ensures
            r == self@.contains_key(key),
    {
        proof {
            use_type_invariant(self);
            lemma_items_map(self.items());
        }
        self.position(key).is_some()
    }

    pub fn get(&self, key: Felt) -> (r: Option<&V>)
        ensures
            r == (if self@.contains_key(key) {
                Some(&self@[key])
            } else {
                None
            }),
    {
        proof {
            use_type_invariant(self);
            lemma_items_map(self.items());
        }
        match self.position(key) {
            Some(i) => Some(&self.entries[i].1),
            None => None,
        }
    }

    /// Binds a key, in place of what it was bound to before.
    pub fn insert(&mut self, key: Felt, value: V)
        ensures
            final(self)@ == old(self)@.insert(key, value),
    {
        proof {
            use_type_invariant(&*self);
            lemma_items_map(self.items());
        }
        let found = self.position(key);
        let mut entries: Vec<(Felt, V)> = Vec::new();
        std::mem::swap(&mut entries, &mut self.entries);
        let ghost before = entries@;
        match found {
            Some(i) => {
                proof {
                    lemma_items_map_update(before, i as int, value);
                }
                entries.set(i, (key, value));
            },
            None => {
                entries.push((key, value));
                proof {
                    assert(entries@.drop_last() =~= before);
                    assert(distinct_keys(entries@));
                }
            },
        }
        self.entries = entries;
    }

    /// Takes the value of a key out of the map.
    pub fn remove(&mut self, key: Felt) -> (r: Option<V>)
        ensures
            r == (if old(self)@.contains_key(key) {
                Some(old(self)@[key])
            } else {
                None
            }),
            final(self)@ == old(self)@.remove(key),
    {
        proof {
            use_type_invariant(&*self);
            lemma_items_map(self.items());
        }
        let found = self.position(key);
        match found {
            None => {
                assert(self@.remove(key) =~= self@);
                None
            },
            Some(i) => {
                let mut entries: Vec<(Felt, V)> = Vec::new();
                std::mem::swap(&mut entries, &mut self.entries);
                let ghost before = entries@;
                let (_, value) = entries.remove(i);
                proof {
                    lemma_items_map_remove(before, i as int);
                }
                self.entries = entries;
                Some(value)
            },
        }
    }
}

proof fn lemma_items_map_remove<V>(items: Seq<(Felt, V)>, i: int)
    requires
        distinct_keys(items),
        0 <= i < items.len(),
    ensures
        distinct_keys(items.remove(i)),
        items_map(items.remove(i)) == items_map(items).remove(items[i].0),
{
    let new = items.remove(i);
    assert(forall|j: int|
        0 <= j < new.len() ==> (#[trigger] new[j]) == (if j < i {
            items[j]
        } else {
            items[j + 1]
        }));
    lemma_items_map(items);
    lemma_items_map(new);
    let m = items_map(items).remove(items[i].0);
    assert forall|k: Felt| items_map(new).contains_key(k) <==> m.contains_key(k) by {
        if items_map(new).contains_key(k) {
            let j = choose|j: int| 0 <= j < new.len() && (#[trigger] new[j]).0 == k;
            let j2: int = if j < i {
                j
            } else {
                j + 1
            };
            assert(items[j2].0 == k);
            assert(items[j2].0 != items[i].0);
        }
        if m.contains_key(k) {
            let j = choose|j: int| 0 <= j < items.len() && (#[trigger] items[j]).0 == k;
            let j2: int = if j < i {
                j
            } else {
                j - 1
            };
            assert(new[j2].0 == k);
        }
    }
    assert forall|k: Felt| items_map(new).contains_key(k) implies items_map(new)[k] == m[k] by {
        let j = choose|j: int| 0 <= j < new.len() && (#[trigger] new[j]).0 == k;
        let j2: int = if j < i {
            j
        } else {
            j + 1
        };
        assert(items[j2].0 == k);
    }
    assert(items_map(new) =~= m);
}

impl<V: Copy> FeltMap<V> {
    /// A second map with the same entries.
    pub fn copy(&self) -> (r: Self)
        ensures
            r@ == self@,
            r.items() == self.items(),
    {
        proof {
            use_type_invariant(self);
        }
        let mut entries: Vec<(Felt, V)> = Vec::new();
        let mut i: usize = 0;
        while i < self.entries.len()
            invariant
                i <= self.entries@.len(),
                entries@ == self.entries@.subrange(0, i as int),
            decreases self.entries@.len() - i,
        {
            entries.push((self.entries[i].0, self.entries[i].1));
            i = i + 1;
            assert(entries@ =~= self.entries@.subrange(0, i as int));
        }
        assert(entries@ =~= self.entries@);
        FeltMap { entries }
    }

    /// Binds every key of `other` as `other` does, over what is bound here.
    pub fn extend(&mut self, other: &Self)
        ensures
            final(self)@ == old(self)@.union_prefer_right(other@),
    {
        let n: usize = other.len();
        proof {
            use_type_invariant(other);
            assert(other.items().subrange(0, 0) =~= Seq::empty());
            assert(self@.union_prefer_right(items_map(other.items().subrange(0, 0))) =~= self@);
        }
        let mut i: usize = 0;
        while i < n
            invariant
                i <= n,
                n == other.items().len(),
                self@ == old(self)@.union_prefer_right(
                    items_map(other.items().subrange(0, i as int)),
                ),
            decreases n - i,
        {
            let k: Felt = other.key_at(i);
            let v: V = *other.value_at(i);
            self.insert(k, v);
            proof {
                let s = other.items().subrange(0, i + 1);
                assert(s.drop_last() =~= other.items().subrange(0, i as int));
                assert(old(self)@.union_prefer_right(items_map(s)) =~= old(self)@.union_prefer_right(
                    items_map(s.drop_last()),
                ).insert(k, v));
            }
            i = i + 1;
        }
        assert(other.items().subrange(0, n as int) =~= other.items());
    }
}

/// A set of field elements, kept in the order in which they came.
#[derive(Debug)]
pub struct FeltSet {
    members: Vec<Felt>,
}

impl View for FeltSet {
    type V = Set<Felt>;

    open spec fn view(&self) -> Set<Felt> {
        self.items().to_set()
    }
}

impl FeltSet {
    /// The members, in the order in which they came.
    pub closed spec fn items(self) -> Seq<Felt> {
        self.members@
    }

    #[verifier::type_invariant]
    spec fn distinct(self) -> bool {
        self.items().no_duplicates()
    }

    pub fn new() -> (r: Self)
        ensures
            r@ == Set::<Felt>::empty(),
            r.items() == Seq::<Felt>::empty(),
    {
        let r = FeltSet { members: Vec::new() };
        assert(r@ =~= Set::<Felt>::empty());
        r
    }

    /// The number of members.
    pub fn len(&self) -> (r: usize)
        ensures
            r == self.items().len(),
            self.items().no_duplicates(),
    {
        proof {
            use_type_invariant(self);
        }
        self.members.len()
    }

    /// The member that came as number `i`.
    pub fn item_at(&self, i: usize) -> (r: Felt)
        requires
            i < self.items().len(),
        ensures
            r == self.items()[i as int],
    {
        self.members[i]
    }

    pub fn contains(&self, x: Felt) -> (r: bool)
        ensures
            r == self@.contains(x),
    {
        let mut i: usize = 0;
        while i < self.members.len()
            invariant
                i <= self.members@.len(),
                forall|j: int| 0 <= j < i ==> self.members@[j] != x,
            decreases self.members@.len() - i,
        {
            if self.members[i] == x {
                assert(self.items().contains(x));
                return true;
            }
            i = i + 1;
        }
        false
    }

    pub fn insert(&mut self, x: Felt)
        ensures
            final(self)@ == old(self)@.insert(x),
    {
        proof {
            use_type_invariant(&*self);
        }
        if self.contains(x) {
            assert(self@.insert(x) =~= self@);
        } else {
            let mut members: Vec<Felt> = Vec::new();
            std::mem::swap(&mut members, &mut self.members);
            let ghost before = members@;
            members.push(x);
            proof {
                assert(members@.to_set() =~= before.to_set().insert(x)) by {
                    assert forall|y: Felt| members@.contains(y) <==> before.contains(y) || y
                        == x by {
                        if before.contains(y) {
                            let j = choose|j: int| 0 <= j < before.len() && before[j] == y;
                            assert(members@[j] == y);
                        }
                        assert(members@[before.len() as int] == x);
                    }
                }
                assert(members@.no_duplicates());
            }
            self.members = members;
        }
    }

    /// A second set with the same members.
    pub fn copy(&self) -> (r: Self)
        ensures
            r@ == self@,
            r.items() == self.items(),
    {
        proof {
            use_type_invariant(self);
        }
        let mut members: Vec<Felt> = Vec::new();
        let mut i: usize = 0;
        while i < self.members.len()
            invariant
                i <= self.members@.len(),
                members@ == self.members@.subrange(0, i as int),
            decreases self.members@.len() - i,
        {
            members.push(self.members[i]);
            i = i + 1;
            assert(members@ =~= self.members@.subrange(0, i as int));
        }
        assert(members@ =~= self.members@);
        FeltSet { members }
    }
}

} // verus!
