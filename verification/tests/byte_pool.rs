use ribn::foundation::pool::{BytePool, ReserveError};
use ribn::foundation::readiness::SourceIds;

fn fresh_pool(capacity: u64) -> BytePool {
    BytePool::new(SourceIds::new().take().expect("source"), capacity)
}

#[test]
fn grants_exact_capacity_and_refuses_beyond_it() {
    let mut pool = fresh_pool(1024);
    let lease = pool.reserve(1024).unwrap();
    assert_eq!(pool.available(), 0);
    assert_eq!(pool.granted(), 1024);
    assert_eq!(
        pool.reserve(1).unwrap_err(),
        ReserveError::Exhausted {
            requested: 1,
            available: 0
        }
    );
    assert_eq!(
        pool.reserve(1025).unwrap_err(),
        ReserveError::TooLarge {
            requested: 1025,
            capacity: 1024
        }
    );
    assert_eq!(lease.bytes(), 1024);
    pool.release(lease);
    assert_eq!(pool.available(), 1024);
}

#[test]
fn unsatisfiable_requests_are_rejected_not_waited_out() {
    let mut pool = fresh_pool(64);
    // Occupying the whole pool cannot make an oversized request satisfiable,
    // so rejection must not depend on current availability.
    let _held = pool.reserve(64).unwrap();
    assert!(matches!(
        pool.reserve(65).unwrap_err(),
        ReserveError::TooLarge { .. }
    ));
}

#[test]
fn reservations_and_failed_attempts_do_not_publish_but_releases_do() {
    let mut pool = fresh_pool(256);
    let start = pool.capacity_wait();
    let first = pool.reserve(128).unwrap();
    assert!(!pool.changed(&start));
    let second = pool.reserve(128).unwrap();
    assert!(!pool.changed(&start));
    assert!(pool.reserve(1).is_err());
    assert!(!pool.changed(&start));
    pool.release(first);
    assert!(pool.changed(&start));
    let after_release = pool.capacity_wait();
    pool.release(second);
    assert!(pool.changed(&after_release));
}

#[test]
fn allocations_are_identifiable_and_never_reissued() {
    let mut pool = fresh_pool(256);
    let first = pool.reserve(8).unwrap();
    let first_id = first.allocation();
    let second = pool.reserve(8).unwrap();
    assert_ne!(first_id, second.allocation());
    pool.release(first);
    let third = pool.reserve(8).unwrap();
    assert_ne!(first_id, third.allocation());
    assert_ne!(second.allocation(), third.allocation());
}

#[test]
fn a_moved_lease_keeps_its_charge() {
    let mut pool = fresh_pool(64);
    let lease = pool.reserve(64).unwrap();
    let handed_off = lease;
    assert_eq!(pool.granted(), 64);
    assert!(pool.reserve(1).is_err());
    pool.release(handed_off);
    assert_eq!(pool.granted(), 0);
}

#[test]
fn shrink_releases_only_the_surplus_and_cannot_grow() {
    let mut pool = fresh_pool(64);
    let mut lease = pool.reserve(48).unwrap();
    lease.shrink_to(&mut pool, 16).unwrap();
    assert_eq!(lease.bytes(), 16);
    assert_eq!(pool.granted(), 16);
    assert_eq!(pool.available(), 48);
    assert!(matches!(
        lease.shrink_to(&mut pool, 17).unwrap_err(),
        ReserveError::TooLarge { .. }
    ));
    let allocation = lease.allocation();
    lease.shrink_to(&mut pool, 16).unwrap();
    assert_eq!(lease.allocation(), allocation);
    lease.shrink_to(&mut pool, 0).unwrap();
    assert_eq!(pool.granted(), 0);
    pool.release(lease);
    assert_eq!(pool.granted(), 0);
}

#[test]
fn closing_refuses_new_work_but_releases_existing_leases() {
    let mut pool = fresh_pool(64);
    let held = pool.reserve(32).unwrap();
    pool.close();
    assert_eq!(pool.reserve(1).unwrap_err(), ReserveError::Closed);
    pool.release(held);
    assert_eq!(pool.available(), 64);
    assert_eq!(pool.reserve(1).unwrap_err(), ReserveError::Closed);
}

#[test]
fn notifications_observe_accounting_without_holding_its_lock() {
    const OWNER: u64 = 9;
    for closing in [false, true] {
        let mut pool = fresh_pool(64);
        let held = pool.reserve(64).unwrap();
        let mut wait = pool.capacity_wait();
        pool.wake_on_change(&mut wait, OWNER);
        let retained = if closing {
            pool.close();
            Some(held)
        } else {
            pool.release(held);
            None
        };
        assert_eq!(pool.take_woken(), vec![OWNER]);
        let observation = (pool.available(), pool.is_closed());
        assert_eq!(observation, (if closing { 0 } else { 64 }, closing));
        assert_eq!(pool.granted(), if closing { 64 } else { 0 });
        if let Some(lease) = retained {
            pool.release(lease);
        }
        assert_eq!(pool.granted(), 0);
    }
}

#[test]
fn granted_bytes_are_the_sum_of_the_live_leases() {
    let mut pool = fresh_pool(100);
    let mut leases = vec![pool.reserve(10).unwrap()];
    assert_eq!(pool.granted(), 10);
    leases.push(pool.reserve(20).unwrap());
    leases.push(pool.reserve(30).unwrap());
    assert!(pool.reserve(41).is_err());
    leases[1].shrink_to(&mut pool, 5).unwrap();
    assert_eq!(pool.granted(), 45);
    pool.release(leases.remove(0));
    assert_eq!(pool.granted(), 35);
    assert_eq!(pool.available(), 65);
    pool.close();
    let live: u64 = leases.iter().map(|lease| lease.bytes()).sum();
    assert_eq!(pool.granted(), live);
    for lease in leases {
        pool.release(lease);
    }
    assert_eq!(pool.granted(), 0);
}

#[test]
fn a_lease_tells_its_pool_from_every_other() {
    let mut sources = SourceIds::new();
    let mut pool = BytePool::new(sources.take().unwrap(), 64);
    let mut other = BytePool::new(sources.take().unwrap(), 64);
    let lease = pool.reserve(8).unwrap();
    let foreign = other.reserve(8).unwrap();
    assert_eq!(lease.allocation(), foreign.allocation());
    assert!(pool.granted_by_this(&lease));
    assert!(!pool.granted_by_this(&foreign));
    assert!(other.granted_by_this(&foreign));
    assert!(!other.granted_by_this(&lease));
}
