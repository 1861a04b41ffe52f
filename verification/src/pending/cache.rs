//! The cache of pre-confirmed data, with the freshness that its readers wait for.
use std::sync::Arc;
use vstd::prelude::*;

use crate::pending::blocks::is_blank_block;
use crate::pending::pre_confirmed::{bare_update, PendingData};
use crate::shared::share;
use crate::state_update::empty_change;

verus! {

/// The longest time in milliseconds that a read of stale data blocks by default.
pub const DEFAULT_COLD_START_TIMEOUT: u64 = 5000;

#[derive(Clone, Copy, Debug, PartialEq, Eq, Structural)]
pub struct Freshness {
    pub stale: bool,
    pub refresh_count: u64,
}

/// Pre-confirmed data with freshness tracking.
///
/// - Writes are [`store`](Self::store), [`refresh`](Self::refresh) and
///   [`mark_idle`](Self::mark_idle).
/// - A read starts with [`begin_read`](Self::begin_read). Where the data is stale it waits, and goes
///   on with [`continue_read`](Self::continue_read) on each event.
#[derive(Debug)]
pub struct PreConfirmedCache {
    pub data: Arc<PendingData>,
    pub freshness: Freshness,
    /// Whether a read came that nobody was told of yet.
    pub read_signal: bool,
    /// The longest time in milliseconds that a read waits.
    pub cold_start_timeout: u64,
}

/// How a read goes on.
#[derive(Debug)]
pub enum ReadStep {
    Ready(Arc<PendingData>),
    /// Wait until the count of refreshes is another than this.
    Wait(u64),
}

/// What a waiting read is told.
#[derive(Clone, Copy, Debug, PartialEq, Eq, Structural)]
pub enum WaitEvent {
    /// The freshness may have changed.
    Changed,
    /// Nobody writes to the cache any more.
    Disconnected,
    /// The time is up.
    TimedOut,
}

/// Why a read fails.
#[derive(Clone, Copy, Debug, PartialEq, Eq, Structural)]
pub enum ReadFailure {
    Disconnected,
    TimedOut,
}

/// The count of refreshes after one more.
pub open spec fn counted(count: u64) -> u64 {
    if count == u64::MAX {
        0
    } else {
        (count + 1) as u64
    }
}

/// The freshness after a refresh.
pub open spec fn refreshed(f: Freshness) -> Freshness {
    Freshness { stale: false, refresh_count: counted(f.refresh_count) }
}

impl PreConfirmedCache {
    pub fn new() -> (r: Self)
        ensures
            r.is_new(DEFAULT_COLD_START_TIMEOUT),
    {
        PreConfirmedCache::with_cold_start_timeout(DEFAULT_COLD_START_TIMEOUT)
    }

    /// A cache that holds blank data, which counts as fresh.
    pub open spec fn is_new(self, cold_start_timeout: u64) -> bool {
        &&& self.data.number == 0
        &&& is_blank_block(self.data.blocks.pre_confirmed)
        &&& self.data.blocks.pre_latest is None
        &&& self.data.blocks.candidate_transactions@.len() == 0
        &&& bare_update(*self.data.state_update, empty_change())
        &&& bare_update(*self.data.aggregated_state_update, empty_change())
        &&& self.freshness == Freshness { stale: false, refresh_count: 0 }
        &&& !self.read_signal
        &&& self.cold_start_timeout == cold_start_timeout
    }

    /// How a read starts: with the data where it is fresh, else by waiting.
    pub open spec fn first_step(self) -> ReadStep {
        if self.freshness.stale {
            ReadStep::Wait(self.freshness.refresh_count)
        } else {
            ReadStep::Ready(self.data)
        }
    }

    /// How a read goes on that waits since a count of refreshes.
    pub open spec fn next_step(self, since: u64, event: WaitEvent) -> Result<ReadStep, ReadFailure> {
        match event {
            WaitEvent::Disconnected => Err(ReadFailure::Disconnected),
            WaitEvent::TimedOut => Err(ReadFailure::TimedOut),
            WaitEvent::Changed => if self.freshness.refresh_count == since {
                Ok(ReadStep::Wait(since))
            } else {
                Ok(ReadStep::Ready(self.data))
            },
        }
    }

    pub fn with_cold_start_timeout(cold_start_timeout: u64) -> (r: Self)
        ensures
            r.is_new(cold_start_timeout),
    {
        PreConfirmedCache {
            data: Arc::new(PendingData::default()),
            freshness: Freshness { stale: false, refresh_count: 0 },
            read_signal: false,
            cold_start_timeout,
        }
    }

    fn bump_freshness(&mut self)
        ensures
            *final(self) == (PreConfirmedCache {
                freshness: refreshed(old(self).freshness),
                ..*old(self)
            }),
    {
        let count: u64 = self.freshness.refresh_count;
        let next: u64 = if count == u64::MAX {
            0
        } else {
            count + 1
        };
        self.freshness = Freshness { stale: false, refresh_count: next };
    }

    /// Writes fresh data into the cache and marks it fresh.
    pub fn store(&mut self, data: PendingData)
        ensures
            *final(self).data == data,
            *final(self) == (PreConfirmedCache {
                data: final(self).data,
                freshness: refreshed(old(self).freshness),
                ..*old(self)
            }),
    {
        self.data = Arc::new(data);
        self.bump_freshness();
    }

    /// Marks the cache fresh without changing its contents.
    pub fn refresh(&mut self)
        ensures
            *final(self) == (PreConfirmedCache {
                freshness: refreshed(old(self).freshness),
                ..*old(self)
            }),
    {
        self.bump_freshness();
    }

    /// Marks the cache stale; reads that start from now on wait until the next store or refresh.
    /// Returns whether the cache was fresh before.
    pub fn mark_idle(&mut self) -> (r: bool)
        ensures
            r == !old(self).freshness.stale,
            *final(self) == (PreConfirmedCache {
                freshness: Freshness { stale: true, ..old(self).freshness },
                ..*old(self)
            }),
    {
        if !self.freshness.stale {
            self.freshness = Freshness { stale: true, refresh_count: self.freshness.refresh_count };
            return true;
        }
        false
    }

    /// Tells, once, of the reads that came.
    pub fn take_read_signal(&mut self) -> (r: bool)
        ensures
            r == old(self).read_signal,
            *final(self) == (PreConfirmedCache { read_signal: false, ..*old(self) }),
    {
        let r: bool = self.read_signal;
        self.read_signal = false;
        r
    }

    /// Starts a read: fires the read signal, and returns the data where it is fresh.
    pub fn begin_read(&mut self) -> (r: ReadStep)
        ensures
            *final(self) == (PreConfirmedCache { read_signal: true, ..*old(self) }),
            r == old(self).first_step(),
    {
        self.read_signal = true;
        if self.freshness.stale {
            ReadStep::Wait(self.freshness.refresh_count)
        } else {
            ReadStep::Ready(share(&self.data))
        }
    }

    /// Goes on with a read that waits since the given count of refreshes.
    pub fn continue_read(&self, since: u64, event: WaitEvent) -> (r: Result<ReadStep, ReadFailure>)
        ensures
            r == self.next_step(since, event),
    {
        match event {
            WaitEvent::Disconnected => Err(ReadFailure::Disconnected),
            WaitEvent::TimedOut => Err(ReadFailure::TimedOut),
            WaitEvent::Changed => if self.freshness.refresh_count == since {
                Ok(ReadStep::Wait(since))
            } else {
                Ok(ReadStep::Ready(share(&self.data)))
            },
        }
    }

    /// The data as it is, fresh or not.
    pub fn subscribe(&self) -> (r: Arc<PendingData>)
        ensures
            r == self.data,
    {
        share(&self.data)
    }
}

impl Default for PreConfirmedCache {
    fn default() -> (r: Self)
        ensures
            r.is_new(DEFAULT_COLD_START_TIMEOUT),
    {
        PreConfirmedCache::new()
    }
}

/// After a refresh the data is fresh, so that a read that starts gets it; and so does one that
/// waits since before, as the count is another.
pub proof fn law_refresh_lets_reads_go_on(f: Freshness)
    ensures
        !refreshed(f).stale,
        refreshed(f).refresh_count != f.refresh_count,
        f.refresh_count < u64::MAX ==> refreshed(f).refresh_count == f.refresh_count + 1,
{
}

/// The count of refreshes after `n` more.
pub open spec fn counted_times(count: u64, n: nat) -> u64
    decreases n,
{
    if n == 0 {
        count
    } else {
        counted(counted_times(count, (n - 1) as nat))
    }
}

/// A read that waits gets the data after any number of refreshes from one up to the size of the
/// counter: none of them leaves the count at what it waits for.
pub proof fn law_refresh_ends_the_wait(since: u64, n: nat)
    requires
        0 < n <= u64::MAX,
    ensures
        counted_times(since, n) != since,
{
    lemma_counted(since, n);
}

proof fn lemma_counted(since: u64, n: nat)
    requires
        n <= u64::MAX,
    ensures
        counted_times(since, n) == (if since + n <= u64::MAX {
            since + n
        } else {
            since + n - u64::MAX - 1
        }),
    decreases n,
{
    if n > 0 {
        lemma_counted(since, (n - 1) as nat);
    }
}

/// A read of stale data waits until the data is refreshed, and then gets what is held by then;
/// until then a change of the freshness makes it wait on. It fails as it is told to, and only then.
/// A read of fresh data does not wait.
pub proof fn law_read_waits_for_the_next_refresh(stale: PreConfirmedCache, fresh: PreConfirmedCache)
    requires
        stale.freshness.stale,
        fresh.freshness == refreshed(stale.freshness),
    ensures
        stale.first_step() matches ReadStep::Wait(since) && {
            &&& stale.next_step(since, WaitEvent::Changed) == Ok::<ReadStep, ReadFailure>(
                ReadStep::Wait(since),
            )
            &&& fresh.next_step(since, WaitEvent::Changed) == Ok::<ReadStep, ReadFailure>(
                ReadStep::Ready(fresh.data),
            )
            &&& stale.next_step(since, WaitEvent::TimedOut) == Err::<ReadStep, ReadFailure>(
                ReadFailure::TimedOut,
            )
            &&& stale.next_step(since, WaitEvent::Disconnected) == Err::<ReadStep, ReadFailure>(
                ReadFailure::Disconnected,
            )
        },
        fresh.first_step() == ReadStep::Ready(fresh.data),
{
}

} // verus!
