//! Permits are given out, waited for and given back.
use std::sync::Arc;

use pathfinder::sync::semaphore::{return_permit, take_permit, Semaphore};

#[test]
fn acquire_consumes_permit_until_dropped() {
    let semaphore = Semaphore::new(1);

    let permit = semaphore.acquire();

    assert_eq!(semaphore.available_permits(), 0);
    drop(permit);
    assert_eq!(semaphore.available_permits(), 1);
}

#[test]
fn multiple_initial_permits() {
    let semaphore = Semaphore::new(2);

    let first = semaphore.acquire();
    let second = semaphore.acquire();

    assert_eq!(semaphore.available_permits(), 0);
    drop(first);
    assert_eq!(semaphore.available_permits(), 1);
    drop(second);
    assert_eq!(semaphore.available_permits(), 2);
}

#[test]
fn repeated_acquire_and_drop_does_not_grow_capacity() {
    let semaphore = Semaphore::new(1);

    for _ in 0..3 {
        drop(semaphore.acquire());
    }

    assert_eq!(semaphore.available_permits(), 1);
}

#[test]
fn try_acquire_fails_without_permits() {
    let semaphore = Arc::new(Semaphore::new(1));
    let permit = semaphore.try_acquire();
    assert!(permit.is_some());
    assert!(semaphore.try_acquire().is_none());
    drop(permit);
    assert!(semaphore.try_acquire().is_some());
}

#[test]
fn a_permit_is_taken_from_those_available() {
    assert_eq!(take_permit(0), None);
    assert_eq!(take_permit(3), Some(2));
    assert_eq!(return_permit(2, 3), 3);
}
