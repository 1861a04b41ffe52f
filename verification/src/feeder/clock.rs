//! Times at which something new becomes available: every two seconds, counted from a full second.
use vstd::prelude::*;

verus! {

/// Nanoseconds in a second.
pub const SECOND: u128 = 1_000_000_000;

/// `std::time::SystemTime::now`, as nanoseconds since 1970. Nothing is claimed of it: a clock may be
/// set back.
#[verifier::external_body]
pub(crate) fn now() -> (r: u128) {
    std::time::SystemTime::now().duration_since(std::time::UNIX_EPOCH).map_or(0, |d| d.as_nanos())
}

/// The time since when the current thing is available, after a look at the clock, and whether a new
/// one has become available.
///
/// The first look makes the first thing available, as from the last full second. From then on a thing
/// is followed by the next after `period` seconds; one look moves on by one thing.
pub open spec fn ticked(since: Option<u128>, period: u16, now: u128) -> (Option<u128>, bool) {
    match since {
        None => (Some((now - now % SECOND) as u128), true),
        Some(s) => if now >= s + period * SECOND {
            (Some((s + period * SECOND) as u128), true)
        } else {
            (Some(s), false)
        },
    }
}

/// Looks at the clock.
pub fn tick(since: &mut Option<u128>, period: u16, now: u128) -> (r: bool)
    ensures
        (*final(since), r) == ticked(*old(since), period, now),
{
    match *since {
        None => {
            *since = Some(now - now % SECOND);
            true
        },
        Some(s) => {
            let length: u128 = period as u128 * SECOND;
            if s <= now && now - s >= length {
                *since = Some(s + length);
                true
            } else {
                false
            }
        },
    }
}

/// The number of things that have become available after looks at the clock.
pub open spec fn ticks(since: Option<u128>, period: u16, looks: Seq<u128>) -> (Option<u128>, nat)
    decreases looks.len(),
{
    if looks.len() == 0 {
        (since, 0)
    } else {
        let (s, n) = ticks(since, period, looks.drop_last());
        let (t, new) = ticked(s, period, looks.last());
        (
            t,
            if new {
                n + 1
            } else {
                n
            },
        )
    }
}

/// However often the clock is looked at, no more becomes available than its time allows: after the
/// first thing at most one per period.
pub proof fn law_no_faster_than_the_clock(period: u16, first: u128, looks: Seq<u128>)
    requires
        looks.len() > 0,
        looks[0] == first,
    ensures
        ({
            let (s, n) = ticks(None, period, looks);
            &&& n >= 1
            &&& s matches Some(t) && t == first - first % SECOND + (n - 1) * (period * SECOND)
            &&& n > 1 ==> exists|i: int|
                0 <= i < looks.len() && #[trigger] looks[i] >= first - first % SECOND + (n - 1) * (
                period * SECOND)
        }),
    decreases looks.len(),
{
    let base = first - first % SECOND;
    let length = period * SECOND;
    if looks.len() == 1 {
        assert(looks.drop_last() =~= Seq::<u128>::empty());
        assert(ticks(None, period, looks.drop_last()) == (None::<u128>, 0nat));
        assert((1 - 1) * length == 0) by (nonlinear_arith);
    } else {
        let front = looks.drop_last();
        law_no_faster_than_the_clock(period, first, front);
        let (s, n) = ticks(None, period, front);
        let (t, new) = ticked(s, period, looks.last());
        assert(n * length == (n - 1) * length + length) by (nonlinear_arith);
        if new {
            assert(looks[looks.len() - 1] >= base + n * length);
        } else if n > 1 {
            let i = choose|i: int|
                0 <= i < front.len() && #[trigger] front[i] >= base + (n - 1) * length;
            assert(looks[i] >= base + (n - 1) * length);
        }
    }
}

} // verus!
