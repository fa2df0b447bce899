use ribn::foundation::readiness::{Readiness, ReadinessWait, SourceIds};

const OWNER: u64 = 5;
const OTHER: u64 = 6;

fn fresh_source() -> Readiness {
    Readiness::new(SourceIds::new().take().expect("source"))
}

#[test]
fn publication_on_either_side_of_arming_wakes_once() {
    for publish_first in [false, true] {
        let mut source = fresh_source();
        let mut wait = source.register();
        if publish_first {
            source.publish();
        }
        wait.wake_on_change(&mut source, OWNER);
        wait.wake_on_change(&mut source, OWNER);
        if !publish_first {
            source.publish();
        }
        assert!(wait.changed(&source));
        assert_eq!(source.take_woken(), vec![OWNER]);
        source.publish();
        assert!(source.take_woken().is_empty());
    }
}

#[test]
fn dropped_waits_release_wakers_and_stale_entries_are_bounded() {
    let mut source = fresh_source();
    let mut initial = 0;
    for index in 0..1000 {
        let mut wait = source.register();
        wait.wake_on_change(&mut source, OWNER);
        if index == 0 {
            initial = source.armed_notifications();
        }
        assert!(source.armed_notifications() <= initial);
        wait.detach(&mut source);
    }
    assert_eq!(initial, 1);
    assert_eq!(source.armed_notifications(), 0); // no notification outlives its wait
    source.publish();
    assert!(source.take_woken().is_empty());
    assert_eq!(source.armed_notifications(), 0);
}

#[test]
fn cloned_registration_and_distinct_owners_keep_their_notifications() {
    let mut source = fresh_source();
    let mut wait = source.register();
    wait.wake_on_change(&mut source, OWNER);
    let mut clone = wait.share(&mut source);
    clone.wake_on_change(&mut source, OTHER);
    source.publish();
    assert_eq!(source.take_woken(), vec![OWNER, OTHER]);
    assert!(wait.same_registration(&clone)); // transport does not alter registration identity
}

#[test]
fn a_wake_can_arm_the_next_epoch_without_deadlock_or_consuming_its_signal() {
    let mut source = fresh_source();
    let mut wait = source.register();
    wait.wake_on_change(&mut source, OWNER);
    source.publish();
    assert_eq!(source.take_woken(), vec![OWNER]);
    let mut next = source.register();
    next.wake_on_change(&mut source, OTHER);
    assert!(source.take_woken().is_empty());
    assert!(!next.changed(&source));
    source.publish();
    assert_eq!(source.take_woken(), vec![OTHER]);
}

#[test]
fn a_shared_source_wakes_all_live_registrations() {
    let mut source = fresh_source();
    let mut waits: Vec<ReadinessWait> = (0..256).map(|_| source.register()).collect();
    for wait in &mut waits {
        wait.wake_on_change(&mut source, OWNER);
    }
    source.publish();
    assert!(waits.iter().all(|wait| wait.changed(&source)));
    assert_eq!(source.take_woken().len(), waits.len());
}

#[test]
fn publication_before_parking_remains_observable() {
    let mut source = fresh_source();
    let wait = source.register();
    assert!(!wait.changed(&source));
    source.publish();
    assert!(wait.changed(&source));
    assert!(wait.changed(&source));
    assert!(!source.register().changed(&source));
}

#[test]
fn unrelated_sources_do_not_reactivate_a_wait() {
    let mut sources = SourceIds::new();
    let mut source = Readiness::new(sources.take().expect("source"));
    let mut other = Readiness::new(sources.take().expect("another source"));
    let wait = source.register();
    other.publish();
    assert!(!wait.changed(&source));
    assert!(!wait.changed(&other));
    assert!(!wait.same_registration(&other.register()));
    source.publish();
    assert!(wait.changed(&source));
}

#[test]
fn owners_armed_earlier_are_woken_first_whichever_side_publishes() {
    for publish_first in [false, true] {
        let mut source = fresh_source();
        let mut earlier = source.register();
        earlier.wake_on_change(&mut source, OTHER);
        let mut wait = source.register();
        if publish_first {
            source.publish();
        }
        wait.wake_on_change(&mut source, OWNER);
        if !publish_first {
            source.publish();
        }
        assert_eq!(source.take_woken(), vec![OTHER, OWNER]);
        source.publish();
        assert!(source.take_woken().is_empty());
    }
}

#[test]
fn a_detached_owner_takes_nobody_else_along() {
    let mut source = fresh_source();
    let mut earlier = source.register();
    earlier.wake_on_change(&mut source, OTHER);
    let mut wait = source.register();
    wait.wake_on_change(&mut source, OWNER);
    assert_eq!(source.armed_notifications(), 2);
    wait.detach(&mut source);
    assert_eq!(source.armed_notifications(), 1);
    source.publish();
    assert_eq!(source.take_woken(), vec![OTHER]);
}
