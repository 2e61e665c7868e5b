use corepin::reactor::Reactor;
use corepin::resource::{Attempt, Interest, Registration, Step};

#[test]
fn poll_step_yields_success_immediately() {
    let mut r: Reactor<u32> = Reactor::new();
    r.register(9);
    let step: Step<usize, i32> = r.poll_step(9, 1, Attempt::Completed(42));
    assert!(matches!(step, Step::Yielded(42)));
    assert!(!r.has_waiter(9));
}

#[test]
fn poll_step_yields_errors_immediately_without_retry() {
    let mut r: Reactor<u32> = Reactor::new();
    r.register(9);
    let step: Step<usize, i32> = r.poll_step(9, 1, Attempt::Failed(-104));
    assert!(matches!(step, Step::Failed(-104)));
    assert!(!r.has_waiter(9));
}

#[test]
fn poll_step_records_waker_and_suspends_on_would_block() {
    let mut r: Reactor<u32> = Reactor::new();
    r.register(9);
    let step: Step<usize, i32> = r.poll_step(9, 7, Attempt::WouldBlock);
    assert!(matches!(step, Step::Suspended));
    assert!(r.has_waiter(9));
    assert_eq!(r.take_waiter(9), Some(7));
}

#[test]
fn second_suspension_overwrites_first_waker() {
    // The documented sharp edge: a resource with a suspended read and then
    // a suspended write holds one wake slot, and the later suspension owns
    // it.
    let mut r: Reactor<u32> = Reactor::new();
    r.register(4);
    let read_step: Step<usize, i32> = r.poll_step(4, 100, Attempt::WouldBlock);
    assert!(matches!(read_step, Step::Suspended));
    let write_step: Step<usize, i32> = r.poll_step(4, 200, Attempt::WouldBlock);
    assert!(matches!(write_step, Step::Suspended));
    assert_eq!(r.drain(&vec![4]), vec![(4, 200)]);
}

#[test]
fn registration_lifecycle() {
    let mut r: Reactor<u32> = Reactor::new();
    let reg = Registration::open(&mut r, 11, Interest::ReadOnly);
    assert_eq!(reg.key_value(), 11);
    assert_eq!(reg.interest_value(), Interest::ReadOnly);
    assert!(r.is_registered(11));
    reg.close(&mut r);
    assert!(!r.is_registered(11));
}

#[test]
fn stream_registration_uses_read_write_interest() {
    let mut r: Reactor<u32> = Reactor::new();
    let reg = Registration::open(&mut r, 12, Interest::ReadWrite);
    assert_eq!(reg.interest_value(), Interest::ReadWrite);
    reg.close(&mut r);
}
