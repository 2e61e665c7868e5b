use corepin::handle::WakeHandle;
use corepin::sched::Scheduler;
use corepin::task::TaskState;

#[test]
fn clone_raises_count_without_touching_task() {
    let mut h = WakeHandle::new(3);
    assert_eq!(h.ref_count(), 1);
    assert_eq!(h.task_id(), 3);
    h.clone_ref();
    assert_eq!(h.ref_count(), 2);
    assert_eq!(h.task_id(), 3);
}

#[test]
fn count_reaches_zero_only_at_last_drop() {
    let mut h = WakeHandle::new(0);
    h.clone_ref();
    h.clone_ref();
    assert_eq!(h.ref_count(), 3);
    assert!(!h.drop_ref());
    assert!(!h.drop_ref());
    assert_eq!(h.ref_count(), 1);
    assert!(h.drop_ref());
    assert_eq!(h.ref_count(), 0);
}

#[test]
fn wake_by_ref_delivers_protocol_without_consuming() {
    let mut s = Scheduler::new();
    let t = s.spawn();
    let _ = s.take_ready();
    s.begin_poll(t);
    s.finish_poll(t, false);
    let h = WakeHandle::new(t);
    h.wake_by_ref(&mut s);
    assert_eq!(s.state_of(t), TaskState::Ready);
    assert_eq!(s.queue_len(), 1);
    assert_eq!(h.ref_count(), 1);
}

#[test]
fn wake_consumes_one_reference_and_wakes_once() {
    let mut s = Scheduler::new();
    let t = s.spawn();
    let _ = s.take_ready();
    s.begin_poll(t);
    s.finish_poll(t, false);
    let mut h = WakeHandle::new(t);
    h.clone_ref();
    let freed = h.wake(&mut s);
    assert!(!freed);
    assert_eq!(h.ref_count(), 1);
    assert_eq!(s.state_of(t), TaskState::Ready);
    assert_eq!(s.queue_len(), 1);
    // The task is Ready now, so a second wake is a no-op on the scheduler,
    // and consuming the last reference frees the allocation.
    let freed = h.wake(&mut s);
    assert!(freed);
    assert_eq!(s.queue_len(), 1);
}
