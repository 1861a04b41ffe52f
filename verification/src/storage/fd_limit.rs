//! What raising the limit on open files comes to.
use vstd::prelude::*;

verus! {

/// The soft limit that is in effect after an attempt to raise it.
pub open spec fn limit_in_effect(before: Option<u64>, raised: bool, after: Option<u64>) -> Option<u64> {
    match before {
        None => None,
        Some(soft) => if !raised {
            Some(soft)
        } else {
            match after {
                Some(effective) => Some(effective),
                None => Some(soft),
            }
        },
    }
}

/// The outcome of raising the soft limit on open files to the hard limit.
///
/// - `before`: the soft limit that was read first, where it could be read.
/// - `raised`: whether the system accepted the new limit.
/// - `after`: the soft limit that was read last, where it could be read. The system may have set a
///   lower one than was asked for.
///
/// Returns the effective soft limit; `None` where nothing is known of it.
pub fn effective_limit(before: Option<u64>, raised: bool, after: Option<u64>) -> (r: Option<u64>)
    ensures
        r == limit_in_effect(before, raised, after),
{
    match before {
        None => None,
        Some(soft) => if !raised {
            Some(soft)
        } else {
            match after {
                Some(effective) => Some(effective),
                None => Some(soft),
            }
        },
    }
}

/// The limit is known exactly where it could be read at first. What was read last counts only where
/// the raise was accepted; otherwise, and where nothing could be read last, the first one counts.
pub proof fn law_limit_is_the_last_one_read(before: Option<u64>, raised: bool, after: Option<u64>)
    ensures
        limit_in_effect(before, raised, after) is Some <==> before is Some,
        before is Some && raised && after is Some ==> limit_in_effect(before, raised, after) == after,
        !raised || after is None ==> limit_in_effect(before, raised, after) == before,
{
}

} // verus!
