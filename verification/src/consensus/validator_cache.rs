//! Validator sets kept by height.
use std::collections::BTreeMap;
use std::sync::Arc;
use vstd::prelude::*;
use vstd::std_specs::btree::*;

use crate::consensus::validators::ValidatorSet;
use crate::shared::share;

verus! {

/// `BTreeMap::pop_first` on integer keys: removes the entry with the smallest key, where there is
/// one, and returns it.
#[verifier::external_body]
fn pop_first<V>(m: &mut BTreeMap<u64, V>) -> (r: Option<(u64, V)>)
    ensures
        match r {
            None => old(m)@ == Map::<u64, V>::empty() && final(m)@ == old(m)@,
            Some((k, v)) => {
                &&& is_smallest(old(m)@, k)
                &&& v == old(m)@[k]
                &&& final(m)@ == old(m)@.remove(k)
            },
        },
{
    m.pop_first()
}

/// The smallest key of a map.
pub open spec fn is_smallest<V>(m: Map<u64, V>, k: u64) -> bool {
    m.contains_key(k) && forall|other: u64| #[trigger] m.contains_key(other) ==> k <= other
}

/// A map is what is left of another when its smallest keys have gone, one at a time, until at most
/// `max` are left.
pub open spec fn is_evicted<V>(before: Map<u64, V>, after: Map<u64, V>, max: nat) -> bool {
    &&& after.submap_of(before)
    &&& after.dom().finite()
    &&& after.len() == (if before.len() <= max {
        before.len()
    } else {
        max
    })
    &&& forall|gone: u64, kept: u64|
        #![trigger before.contains_key(gone), after.contains_key(kept)]
        before.contains_key(gone) && !after.contains_key(gone) && after.contains_key(kept) ==> gone
            < kept
}

/// Height-keyed cache for consensus validator sets which are repeatedly fetched while a height is
/// active.
#[derive(Debug)]
pub struct ValidatorCache {
    entries: BTreeMap<u64, Arc<ValidatorSet>>,
}

impl View for ValidatorCache {
    type V = Map<u64, Arc<ValidatorSet>>;

    closed spec fn view(&self) -> Map<u64, Arc<ValidatorSet>> {
        self.entries@
    }
}

/// The cache after a set was fetched for a height: where another came in between, that one stays.
pub open spec fn is_cached(
    before: Map<u64, Arc<ValidatorSet>>,
    height: u64,
    max: usize,
    fetched: ValidatorSet,
    after: Map<u64, Arc<ValidatorSet>>,
    r: Arc<ValidatorSet>,
) -> bool {
    if before.contains_key(height) {
        r == before[height] && after == before
    } else {
        *r == fetched && is_evicted(before.insert(height, r), after, max as nat)
    }
}

impl ValidatorCache {
    pub fn new() -> (r: Self)
        ensures
            r@ == Map::<u64, Arc<ValidatorSet>>::empty(),
    {
        ValidatorCache { entries: BTreeMap::new() }
    }

    /// The set that is kept for a height.
    pub fn get(&self, height: u64) -> (r: Option<Arc<ValidatorSet>>)
        ensures
            r == (if self@.contains_key(height) {
                Some(self@[height])
            } else {
                None
            }),
    {
        broadcast use group_btree_axioms;

        match self.entries.get(&height) {
            Some(set) => Some(share(set)),
            None => None,
        }
    }

    /// Keeps a set that was fetched for a height. Consensus advances monotonically, so when the
    /// cache is full the smallest heights are evicted, which approximates LRU for the expected
    /// workload.
    pub fn insert_fetched(&mut self, height: u64, max_cached_heights: usize, fetched: ValidatorSet) -> (r:
        Arc<ValidatorSet>)
        ensures
            is_cached(old(self)@, height, max_cached_heights, fetched, final(self)@, r),
    {
        broadcast use group_btree_axioms;

        match self.get(height) {
            Some(existing) => {
                return existing;
            },
            None => {},
        }
        let set: Arc<ValidatorSet> = Arc::new(fetched);
        self.entries.insert(height, share(&set));
        let ghost full = self.entries@;
        assert(full == old(self)@.insert(height, set));
        while self.entries.len() > max_cached_heights
            invariant
                full.dom().finite(),
                self.entries@.dom().finite(),
                self.entries@.submap_of(full),
                self.entries@.len() <= full.len(),
                full.len() > self.entries@.len() ==> self.entries@.len() >= max_cached_heights,
                forall|gone: u64, kept: u64|
                    #![trigger full.contains_key(gone), self.entries@.contains_key(kept)]
                    full.contains_key(gone) && !self.entries@.contains_key(gone)
                        && self.entries@.contains_key(kept) ==> gone < kept,
            decreases self.entries@.len(),
        {
            let ghost before = self.entries@;
            let popped = pop_first(&mut self.entries);
            proof {
                if popped is None {
                    assert(before.dom() =~= Set::empty());
                } else {
                    let (k, _) = popped->0;
                    assert(self.entries@.dom() =~= before.dom().remove(k));
                }
            }
        }
        set
    }

    /// Returns the cached value for `height`, or fetches and stores it on a cache miss.
    pub fn get_or_insert_with<E, F: FnOnce() -> Result<ValidatorSet, E>>(
        &mut self,
        height: u64,
        max_cached_heights: usize,
        fetch: F,
    ) -> (r: Result<Arc<ValidatorSet>, E>)
        requires
            call_requires(fetch, ()),
        ensures
            if old(self)@.contains_key(height) {
                r == Ok::<Arc<ValidatorSet>, E>(old(self)@[height]) && final(self)@ == old(self)@
            } else {
                match r {
                    Ok(set) => call_ensures(fetch, (), Ok::<ValidatorSet, E>(*set)) && is_cached(
                        old(self)@,
                        height,
                        max_cached_heights,
                        *set,
                        final(self)@,
                        set,
                    ),
                    Err(e) => call_ensures(fetch, (), Err::<ValidatorSet, E>(e)) && final(self)@
                        == old(self)@,
                }
            },
    {
        match self.get(height) {
            Some(set) => {
                return Ok(set);
            },
            None => {},
        }
        match fetch() {
            Err(e) => Err(e),
            Ok(fetched) => Ok(self.insert_fetched(height, max_cached_heights, fetched)),
        }
    }
}

impl Default for ValidatorCache {
    fn default() -> (r: Self)
        ensures
            r@ == Map::<u64, Arc<ValidatorSet>>::empty(),
    {
        ValidatorCache::new()
    }
}

/// A cache never holds more heights than it may, once something was fetched into it.
pub proof fn law_cache_is_bounded(
    before: Map<u64, Arc<ValidatorSet>>,
    height: u64,
    max: usize,
    fetched: ValidatorSet,
    after: Map<u64, Arc<ValidatorSet>>,
    r: Arc<ValidatorSet>,
)
    requires
        before.dom().finite(),
        !before.contains_key(height) || before.len() <= max,
        is_cached(before, height, max, fetched, after, r),
    ensures
        after.len() <= max,
{
}

/// A height that was fetched last and is above all others is kept, so that a second lookup is served
/// from the cache.
pub proof fn law_newest_height_is_kept(
    before: Map<u64, Arc<ValidatorSet>>,
    height: u64,
    max: usize,
    fetched: ValidatorSet,
    after: Map<u64, Arc<ValidatorSet>>,
    r: Arc<ValidatorSet>,
)
    requires
        before.dom().finite(),
        max > 0,
        forall|k: u64| #[trigger] before.contains_key(k) ==> k < height,
        is_cached(before, height, max, fetched, after, r),
    ensures
        after.contains_key(height),
        after[height] == r,
{
    let full = before.insert(height, r);
    assert(full.contains_key(height));
    if !after.contains_key(height) {
        assert(after.len() > 0);
        let kept = after.dom().choose();
        assert(after.dom().contains(kept)) by {
            if after.dom() =~= Set::empty() {
                assert(after.dom().len() == 0);
            }
        }
        assert(after.contains_key(kept));
        assert(full.contains_key(kept));
        assert(kept <= height);
    }
}

} // verus!
