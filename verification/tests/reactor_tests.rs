use corepin::reactor::Reactor;

#[test]
fn register_and_deregister_track_keys() {
    let mut r: Reactor<u32> = Reactor::new();
    assert!(!r.is_registered(7));
    r.register(7);
    assert!(r.is_registered(7));
    r.register(8);
    r.deregister(7);
    assert!(!r.is_registered(7));
    assert!(r.is_registered(8));
}

#[test]
fn record_wait_then_take() {
    let mut r: Reactor<u32> = Reactor::new();
    r.register(5);
    assert!(!r.has_waiter(5));
    r.record_wait(5, 41);
    assert!(r.has_waiter(5));
    assert_eq!(r.take_waiter(5), Some(41));
    assert!(!r.has_waiter(5));
    assert_eq!(r.take_waiter(5), None);
}

#[test]
fn record_wait_overwrites_only_latest_fires() {
    let mut r: Reactor<u32> = Reactor::new();
    r.register(7);
    r.record_wait(7, 1);
    r.record_wait(7, 2);
    let fired = r.drain(&vec![7]);
    assert_eq!(fired, vec![(7, 2)]);
    // The earlier registrant is gone, not queued behind the later one.
    assert!(!r.has_waiter(7));
    assert_eq!(r.drain(&vec![7]), vec![]);
}

#[test]
fn drain_dispatches_in_event_order_and_removes() {
    let mut r: Reactor<u32> = Reactor::new();
    r.register(1);
    r.register(2);
    r.record_wait(1, 10);
    r.record_wait(2, 20);
    let fired = r.drain(&vec![2, 1]);
    assert_eq!(fired, vec![(2, 20), (1, 10)]);
    assert!(!r.has_waiter(1));
    assert!(!r.has_waiter(2));
}

#[test]
fn duplicate_events_dispatch_once() {
    let mut r: Reactor<u32> = Reactor::new();
    r.register(3);
    r.record_wait(3, 30);
    let fired = r.drain(&vec![3, 3]);
    assert_eq!(fired, vec![(3, 30)]);
}

#[test]
fn event_without_waiter_dispatches_nothing() {
    let mut r: Reactor<u32> = Reactor::new();
    r.register(4);
    assert_eq!(r.drain(&vec![4]), vec![]);
}

#[test]
fn deregistered_key_gets_no_stale_dispatch() {
    let mut r: Reactor<u32> = Reactor::new();
    r.register(7);
    r.register(8);
    // A read suspends on key 7, recording its waker; the resource is then
    // dropped and key 7 deregistered before any readiness event for it.
    r.record_wait(7, 70);
    r.record_wait(8, 80);
    r.deregister(7);
    // Events can only name registered keys from now on.
    let fired = r.drain(&vec![8]);
    assert_eq!(fired, vec![(8, 80)]);
    // The stale waker for 7 was neither dispatched nor disturbed.
    assert!(r.has_waiter(7));
}
