//! A small blocking semaphore for limiting access to a shared resource.
use std::sync::{Condvar, Mutex, MutexGuard, PoisonError};
use vstd::prelude::*;

verus! {

/// `std::sync::Mutex`: a value that is reached through guards alone.
#[verifier::external_type_specification]
#[verifier::external_body]
#[verifier::reject_recursive_types(T)]
pub struct ExMutex<T: ?Sized>(std::sync::Mutex<T>);

/// `std::sync::MutexGuard`: the contents of a locked mutex.
#[verifier::external_type_specification]
#[verifier::external_body]
#[verifier::reject_recursive_types(T)]
pub struct ExMutexGuard<'a, T: ?Sized + 'a>(std::sync::MutexGuard<'a, T>);

/// `std::sync::Condvar`: threads that wait for a mutex to change.
#[verifier::external_type_specification]
#[verifier::external_body]
pub struct ExCondvar(std::sync::Condvar);

/// What a guard gives access to.
pub uninterp spec fn guarded(g: MutexGuard<'_, usize>) -> usize;

/// The count that a mutex was made with. [`set_value`] is the only way in which a count is changed,
/// and never puts a higher one in.
pub uninterp spec fn mutex_limit(m: Mutex<usize>) -> usize;

/// The mutex that a guard holds.
pub uninterp spec fn guard_mutex(g: MutexGuard<'_, usize>) -> Mutex<usize>;

/// The count that the mutex of a guard was made with.
pub open spec fn guard_limit(g: MutexGuard<'_, usize>) -> usize {
    mutex_limit(guard_mutex(g))
}

/// `Mutex::new`: a mutex that holds the count.
#[verifier::external_body]
fn new_mutex(count: usize) -> (r: Mutex<usize>)
    ensures
        mutex_limit(r) == count,
{
    Mutex::new(count)
}

/// `Condvar::new`, of which nothing is claimed.
pub assume_specification[ std::sync::Condvar::new ]() -> std::sync::Condvar
;

/// `Condvar::notify_one`, of which only that it does not unwind is claimed.
#[verifier::external_body]
fn wake_one(c: &Condvar)
    opens_invariants none
    no_unwind
{
    c.notify_one();
}

/// `Mutex::lock`: waits for the mutex and gives a guard that holds it. What is in the mutex is what it
/// was made with or what a guard left in it, so no more than it was made with. Which count that is is
/// left open, since other threads change it.
///
/// A mutex is poisoned when a thread panics while it holds it. Here it is held only within the methods
/// below, and what they do with a guard ([`value`], [`set_value`], [`is_exhausted`],
/// [`Semaphore::take_held`], [`Semaphore::take_from`], [`Semaphore::give_back`]) does not unwind, so no
/// mutex is ever poisoned. None of it locks again, so the mutex is never held by the calling thread.
#[verifier::external_body]
fn lock(m: &Mutex<usize>) -> (r: MutexGuard<'_, usize>)
    ensures
        guard_mutex(r) == *m,
        guarded(r) <= guard_limit(r),
    opens_invariants none
    no_unwind
{
    m.lock().unwrap_or_else(PoisonError::into_inner)
}

/// `MutexGuard::deref`: what the guard gives access to.
#[verifier::external_body]
fn value(g: &MutexGuard<'_, usize>) -> (r: usize)
    ensures
        r == guarded(*g),
    opens_invariants none
    no_unwind
{
    **g
}

/// `MutexGuard::deref_mut`: changes what the guard gives access to, within the limit of its mutex.
/// The guard stays one of the same mutex.
#[verifier::external_body]
fn set_value(g: &mut MutexGuard<'_, usize>, v: usize)
    requires
        v <= guard_limit(*old(g)),
    ensures
        guarded(*final(g)) == v,
        guard_mutex(*final(g)) == guard_mutex(*old(g)),
    opens_invariants none
    no_unwind
{
    **g = v;
}

/// `Condvar::wait_while`: gives the mutex up until no thread holds it and the count in it is one
/// that a permit can be taken from, and holds it again then. What was left in the mutex meanwhile
/// is within its limit. It would return early, with an error, on a poisoned mutex, and panic where
/// the condition variable is used with a second mutex; neither happens here (see [`lock`]; the
/// condition variable has this mutex alone).
#[verifier::external_body]
fn wait_for_permit<'a>(c: &Condvar, g: MutexGuard<'a, usize>) -> (r: MutexGuard<'a, usize>)
    ensures
        0 < guarded(r) <= guard_limit(r),
        guard_mutex(r) == guard_mutex(g),
{
    c.wait_while(g, is_exhausted).unwrap()
}

/// Whether no permit is left.
fn is_exhausted(available: &mut usize) -> (r: bool)
    ensures
        r == (*old(available) == 0),
        *final(available) == *old(available),
    opens_invariants none
    no_unwind
{
    *available == 0
}

/// The permits that are left when one is taken, where there is one.
pub open spec fn taken(available: usize) -> Option<usize> {
    if available == 0 {
        None
    } else {
        Some((available - 1) as usize)
    }
}

/// The permits that are left when one comes back: never more than there were at first.
pub open spec fn returned(available: usize, capacity: usize) -> usize {
    if available < capacity {
        (available + 1) as usize
    } else {
        available
    }
}

/// Takes a permit, where there is one, and tells how many are left.
pub fn take_permit(available: usize) -> (r: Option<usize>)
    ensures
        r == taken(available),
    opens_invariants none
    no_unwind
{
    if available == 0 {
        None
    } else {
        Some(available - 1)
    }
}

/// Takes a permit back and tells how many there are then.
pub fn return_permit(available: usize, capacity: usize) -> (r: usize)
    ensures
        r == returned(available, capacity),
    opens_invariants none
    no_unwind
{
    if available < capacity {
        available + 1
    } else {
        available
    }
}

/// A semaphore starts with a fixed number of permits. Calling [`acquire`](Self::acquire) waits until a
/// permit is available and returns a [`SemaphorePermit`]. The permit is returned to the semaphore
/// when the guard is dropped.
///
/// This semaphore blocks the current OS thread while waiting, so it is suitable for synchronous code
/// or for work running on a blocking thread pool. The implementation does not guarantee fairness
/// between waiting threads.
///
/// How many permits are available changes with what other threads do. So contracts leave open which
/// count a call meets, and say what the call finds in the locked count and leaves in it
/// ([`Semaphore::takes_permit`], [`Semaphore::takes_back`], [`Semaphore::counts`]).
pub struct Semaphore {
    permits: Mutex<usize>,
    condvar: Condvar,
    capacity: usize,
}

/// A semaphore permit acquired through [`Semaphore::acquire`] or [`Semaphore::try_acquire`].
pub struct SemaphorePermit<'a> {
    semaphore: &'a Semaphore,
}

impl<'a> SemaphorePermit<'a> {
    /// The semaphore that the permit goes back to.
    pub closed spec fn origin(self) -> Semaphore {
        *self.semaphore
    }
}

impl Semaphore {
    /// The number of permits that the semaphore was created with.
    pub closed spec fn capacity(self) -> usize {
        self.capacity
    }

    /// A guard holds the semaphore's count.
    pub closed spec fn is_locked_by(self, g: MutexGuard<'_, usize>) -> bool {
        guard_mutex(g) == self.permits
    }

    /// A permit is taken: the locked count is above zero before, and one less after.
    pub open spec fn takes_permit(
        self,
        before: MutexGuard<'_, usize>,
        after: MutexGuard<'_, usize>,
    ) -> bool {
        &&& self.is_locked_by(before)
        &&& self.is_locked_by(after)
        &&& guard_limit(before) == self.capacity()
        &&& guard_limit(after) == self.capacity()
        &&& 0 < guarded(before) <= self.capacity()
        &&& guarded(after) == guarded(before) - 1
    }

    /// A permit comes back: the locked count is one more after, but never above the capacity.
    pub open spec fn takes_back(
        self,
        before: MutexGuard<'_, usize>,
        after: MutexGuard<'_, usize>,
    ) -> bool {
        &&& self.is_locked_by(before)
        &&& self.is_locked_by(after)
        &&& guard_limit(before) == self.capacity()
        &&& guard_limit(after) == self.capacity()
        &&& guarded(after) == returned(guarded(before), self.capacity())
    }

    /// The locked count is the one given.
    pub open spec fn counts(self, g: MutexGuard<'_, usize>, count: usize) -> bool {
        &&& self.is_locked_by(g)
        &&& guard_limit(g) == self.capacity()
        &&& guarded(g) == count
    }

    #[verifier::type_invariant]
    spec fn holds_capacity(self) -> bool {
        mutex_limit(self.permits) == self.capacity
    }

    /// Creates a semaphore with `permits` initially available permits. One without permits would be
    /// closed for good.
    pub fn new(permits: usize) -> (r: Self)
        requires
            permits > 0,
        ensures
            r.capacity() == permits,
    {
        Semaphore { permits: new_mutex(permits), condvar: Condvar::new(), capacity: permits }
    }

    /// Acquires one [SemaphorePermit], blocking the current thread until one is available.
    pub fn acquire(&self) -> (r: SemaphorePermit<'_>)
        ensures
            r.origin() == *self,
            exists|before: MutexGuard<'_, usize>, after: MutexGuard<'_, usize>|
                self.takes_permit(before, after),
    {
        proof {
            use_type_invariant(self);
        }
        let first = lock(&self.permits);
        let mut guard = wait_for_permit(&self.condvar, first);
        let ghost before = guard;
        let r = self.take_held(&mut guard);
        assert(self.takes_permit(before, guard));
        r
    }

    /// Takes one [SemaphorePermit] out of the locked count, in which there is one.
    fn take_held(&self, guard: &mut MutexGuard<'_, usize>) -> (r: SemaphorePermit<'_>)
        requires
            0 < guarded(*old(guard)) <= guard_limit(*old(guard)),
        ensures
            r.origin() == *self,
            taken(guarded(*old(guard))) == Some(guarded(*final(guard))),
            guarded(*final(guard)) == guarded(*old(guard)) - 1,
            guard_mutex(*final(guard)) == guard_mutex(*old(guard)),
        opens_invariants none
        no_unwind
    {
        let available: usize = value(guard);
        set_value(guard, available - 1);
        SemaphorePermit { semaphore: self }
    }

    /// Takes one [SemaphorePermit] out of the locked count, where there is one.
    fn take_from(&self, guard: &mut MutexGuard<'_, usize>) -> (r: Option<SemaphorePermit<'_>>)
        requires
            guarded(*old(guard)) <= guard_limit(*old(guard)),
        ensures
            r is Some <==> guarded(*old(guard)) > 0,
            r matches Some(permit) ==> permit.origin() == *self,
            guarded(*final(guard)) == (match taken(guarded(*old(guard))) {
                Some(left) => left,
                None => guarded(*old(guard)),
            }),
            guard_mutex(*final(guard)) == guard_mutex(*old(guard)),
        opens_invariants none
        no_unwind
    {
        match take_permit(value(guard)) {
            None => None,
            Some(left) => {
                set_value(guard, left);
                Some(SemaphorePermit { semaphore: self })
            },
        }
    }

    /// Attempts to acquire one [SemaphorePermit] without blocking.
    ///
    /// Returns `Some` guard when a permit was available, or `None` if the semaphore currently has no
    /// available permits. Which of the two it is is left open, since other threads take and return
    /// permits.
    pub fn try_acquire(&self) -> (r: Option<SemaphorePermit<'_>>)
        ensures
            r matches Some(permit) ==> permit.origin() == *self,
            r is Some ==> exists|before: MutexGuard<'_, usize>, after: MutexGuard<'_, usize>|
                self.takes_permit(before, after),
            r is None ==> exists|g: MutexGuard<'_, usize>| self.counts(g, 0),
    {
        proof {
            use_type_invariant(self);
        }
        let mut guard = lock(&self.permits);
        let ghost before = guard;
        let r = self.take_from(&mut guard);
        assert(r is Some ==> self.takes_permit(before, guard));
        assert(r is None ==> self.counts(before, 0));
        r
    }

    /// Puts a permit back into the locked count.
    fn give_back(&self, guard: &mut MutexGuard<'_, usize>)
        requires
            guarded(*old(guard)) <= guard_limit(*old(guard)),
            guard_limit(*old(guard)) == self.capacity(),
        ensures
            guarded(*final(guard)) == returned(guarded(*old(guard)), self.capacity()),
            guard_mutex(*final(guard)) == guard_mutex(*old(guard)),
        opens_invariants none
        no_unwind
    {
        let available: usize = value(guard);
        set_value(guard, return_permit(available, self.capacity));
    }

    /// Returns the number of permits currently available.
    ///
    /// This is a point-in-time snapshot. In concurrent code, another thread may acquire or release a
    /// permit immediately after this method returns.
    pub fn available_permits(&self) -> (r: usize)
        ensures
            r <= self.capacity(),
            exists|g: MutexGuard<'_, usize>| self.counts(g, r),
    {
        proof {
            use_type_invariant(self);
        }
        let guard = lock(&self.permits);
        let r: usize = value(&guard);
        assert(self.counts(guard, r));
        r
    }
}

impl<'a> Drop for SemaphorePermit<'a> {
    fn drop(&mut self)
        ensures
            final(self).origin() == old(self).origin(),
            exists|before: MutexGuard<'_, usize>, after: MutexGuard<'_, usize>|
                old(self).origin().takes_back(before, after),
        opens_invariants none
        no_unwind
    {
        proof {
            use_type_invariant(self.semaphore);
        }
        {
            let mut guard = lock(&self.semaphore.permits);
            let ghost before = guard;
            self.semaphore.give_back(&mut guard);
            assert(old(self).origin().takes_back(before, guard));
        }
        wake_one(&self.semaphore.condvar);
    }
}

/// What happens to a semaphore.
pub enum PermitEvent {
    /// A permit is asked for.
    Ask,
    /// A permit that was given out comes back.
    Return,
}

/// The available permits and those given out.
pub struct PermitCount {
    pub available: usize,
    pub given_out: nat,
}

/// The counts after an event: [`take_permit`] answers the one, [`return_permit`] the other. A permit
/// that nobody holds cannot come back.
pub open spec fn counts_after(c: PermitCount, e: PermitEvent, capacity: usize) -> PermitCount {
    match e {
        PermitEvent::Ask => match taken(c.available) {
            None => c,
            Some(left) => PermitCount { available: left, given_out: c.given_out + 1 },
        },
        PermitEvent::Return => if c.given_out == 0 {
            c
        } else {
            PermitCount {
                available: returned(c.available, capacity),
                given_out: (c.given_out - 1) as nat,
            }
        },
    }
}

/// The counts after events.
pub open spec fn counts_after_all(c: PermitCount, events: Seq<PermitEvent>, capacity: usize) -> PermitCount
    decreases events.len(),
{
    if events.len() == 0 {
        c
    } else {
        counts_after(counts_after_all(c, events.drop_last(), capacity), events.last(), capacity)
    }
}

/// Whatever is asked for and given back, every permit is either available or given out: there are
/// never more than at first, none is lost, and a permit is refused only where all are given out.
pub proof fn law_permits_are_conserved(capacity: usize, events: Seq<PermitEvent>)
    ensures
        ({
            let c = counts_after_all(
                PermitCount { available: capacity, given_out: 0 },
                events,
                capacity,
            );
            &&& c.available + c.given_out == capacity
            &&& c.available <= capacity
            &&& taken(c.available) is None <==> c.given_out == capacity
        }),
    decreases events.len(),
{
    if events.len() > 0 {
        law_permits_are_conserved(capacity, events.drop_last());
    }
}

/// The number of permits that are held after events.
pub open spec fn held(events: Seq<PermitEvent>) -> int
    decreases events.len(),
{
    if events.len() == 0 {
        0
    } else {
        held(events.drop_last()) + match events.last() {
            PermitEvent::Ask => 1int,
            PermitEvent::Return => -1int,
        }
    }
}

/// What calls on a semaphore find in the locked count and leave in it, from its creation on: each
/// finds what the one before it has left, takes a permit or brings back one that is held.
pub open spec fn is_history<'a>(
    s: Semaphore,
    locked: Seq<(MutexGuard<'a, usize>, MutexGuard<'a, usize>)>,
    events: Seq<PermitEvent>,
) -> bool {
    &&& locked.len() == events.len()
    &&& forall|k: int|
        0 <= k < locked.len() ==> guarded((#[trigger] locked[k]).0) == if k == 0 {
            s.capacity()
        } else {
            guarded(locked[k - 1].1)
        }
    &&& forall|k: int|
        0 <= k < locked.len() ==> match #[trigger] events[k] {
            PermitEvent::Ask => s.takes_permit(locked[k].0, locked[k].1),
            PermitEvent::Return => s.takes_back(locked[k].0, locked[k].1) && held(
                events.take(k),
            ) > 0,
        }
}

/// After calls on a semaphore, the permits that are available and those that are held make up the
/// capacity.
pub proof fn law_available_and_held_make_up_capacity<'a>(
    s: Semaphore,
    locked: Seq<(MutexGuard<'a, usize>, MutexGuard<'a, usize>)>,
    events: Seq<PermitEvent>,
)
    requires
        is_history(s, locked, events),
        events.len() > 0,
    ensures
        guarded(locked.last().1) == s.capacity() - held(events),
        0 <= held(events) <= s.capacity(),
    decreases events.len(),
{
    let before = events.drop_last();
    let n = events.len() as int;
    assert(before =~= events.take(n - 1));
    assert(locked[n - 1] == locked.last() && events[n - 1] == events.last());
    if before.len() > 0 {
        let earlier = locked.drop_last();
        assert forall|k: int| 0 <= k < before.len() implies before.take(k) == events.take(k) by {
            assert(before.take(k) =~= events.take(k));
        }
        assert(is_history(s, earlier, before));
        law_available_and_held_make_up_capacity(s, earlier, before);
        assert(earlier.last() == locked[n - 2]);
    }
}

/// Taking a permit and giving it back leaves the count as it was, so that doing so again and again
/// does not make it grow.
pub proof fn law_taken_permit_comes_back(available: usize, capacity: usize)
    requires
        0 < available <= capacity,
    ensures
        taken(available) matches Some(left) && left < available && returned(left, capacity)
            == available,
{
}

/// A permit that comes back raises the count by one where one was missing, and never above the
/// capacity. One can be taken exactly where one is available.
pub proof fn law_count_stays_within_capacity(available: usize, capacity: usize)
    requires
        available <= capacity,
    ensures
        available <= returned(available, capacity) <= capacity,
        available < capacity ==> returned(available, capacity) == available + 1,
        taken(available) is Some <==> available > 0,
        taken(available) matches Some(left) ==> left + 1 == available,
{
}

} // verus!
