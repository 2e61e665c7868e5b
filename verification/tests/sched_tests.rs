use corepin::sched::Scheduler;
use corepin::task::{TaskState, finish_step, wake_step};

#[test]
fn spawn_starts_ready_and_enqueued() {
    let mut s = Scheduler::new();
    let t = s.spawn();
    assert_eq!(t, 0);
    assert_eq!(s.state_of(t), TaskState::Ready);
    assert_eq!(s.queue_len(), 1);
    assert!(s.queue_contains(t));
}

#[test]
fn take_ready_empties_queue_in_order() {
    let mut s = Scheduler::new();
    let a = s.spawn();
    let b = s.spawn();
    let batch = s.take_ready();
    assert_eq!(batch, vec![a, b]);
    assert_eq!(s.queue_len(), 0);
    assert_eq!(s.state_of(a), TaskState::Ready);
    assert_eq!(s.state_of(b), TaskState::Ready);
}

#[test]
fn lifecycle_ready_running_pending_ready_running_done() {
    let mut s = Scheduler::new();
    let t = s.spawn();
    assert_eq!(s.state_of(t), TaskState::Ready);
    let batch = s.take_ready();
    assert_eq!(batch, vec![t]);
    s.begin_poll(t);
    assert_eq!(s.state_of(t), TaskState::Running);
    s.finish_poll(t, false);
    assert_eq!(s.state_of(t), TaskState::Pending);
    s.wake(t);
    assert_eq!(s.state_of(t), TaskState::Ready);
    let batch = s.take_ready();
    assert_eq!(batch, vec![t]);
    s.begin_poll(t);
    assert_eq!(s.state_of(t), TaskState::Running);
    s.finish_poll(t, true);
    assert_eq!(s.state_of(t), TaskState::Done);
}

#[test]
fn wake_on_pending_enqueues_exactly_once() {
    let mut s = Scheduler::new();
    let t = s.spawn();
    let _ = s.take_ready();
    s.begin_poll(t);
    s.finish_poll(t, false);
    assert_eq!(s.queue_len(), 0);
    s.wake(t);
    assert_eq!(s.state_of(t), TaskState::Ready);
    assert_eq!(s.queue_len(), 1);
    // A second wake finds the task Ready: a no-op, no duplicate entry.
    s.wake(t);
    assert_eq!(s.queue_len(), 1);
    assert!(s.queue_contains(t));
}

#[test]
fn wake_on_ready_and_done_is_noop() {
    let mut s = Scheduler::new();
    let t = s.spawn();
    s.wake(t);
    assert_eq!(s.state_of(t), TaskState::Ready);
    assert_eq!(s.queue_len(), 1);
    let _ = s.take_ready();
    s.begin_poll(t);
    s.finish_poll(t, true);
    assert_eq!(s.state_of(t), TaskState::Done);
    s.wake(t);
    assert_eq!(s.state_of(t), TaskState::Done);
    assert_eq!(s.queue_len(), 0);
}

#[test]
fn wake_during_poll_marks_ready_without_enqueue() {
    let mut s = Scheduler::new();
    let t = s.spawn();
    let _ = s.take_ready();
    s.begin_poll(t);
    // A wake arriving while the poll runs: Ready, but not enqueued.
    s.wake(t);
    assert_eq!(s.state_of(t), TaskState::Ready);
    assert_eq!(s.queue_len(), 0);
    // The poll then suspends: the state is left alone, and nothing has
    // enqueued the task — the preserved lost-wakeup quirk.
    s.finish_poll(t, false);
    assert_eq!(s.state_of(t), TaskState::Ready);
    assert_eq!(s.queue_len(), 0);
}

#[test]
fn wake_racing_with_completing_poll_still_ends_done() {
    let mut s = Scheduler::new();
    let t = s.spawn();
    let _ = s.take_ready();
    s.begin_poll(t);
    s.wake(t);
    s.finish_poll(t, true);
    assert_eq!(s.state_of(t), TaskState::Done);
    assert_eq!(s.queue_len(), 0);
}

#[test]
fn wake_step_decision_table() {
    assert_eq!(wake_step(TaskState::Ready), (TaskState::Ready, false));
    assert_eq!(wake_step(TaskState::Running), (TaskState::Ready, false));
    assert_eq!(wake_step(TaskState::Pending), (TaskState::Ready, true));
    assert_eq!(wake_step(TaskState::Done), (TaskState::Done, false));
}

#[test]
fn finish_step_decision_table() {
    assert_eq!(finish_step(TaskState::Running, true), TaskState::Done);
    assert_eq!(finish_step(TaskState::Ready, true), TaskState::Done);
    assert_eq!(finish_step(TaskState::Running, false), TaskState::Pending);
    assert_eq!(finish_step(TaskState::Ready, false), TaskState::Ready);
}

#[test]
fn independent_tasks_do_not_disturb_each_other() {
    let mut s = Scheduler::new();
    let a = s.spawn();
    let b = s.spawn();
    let _ = s.take_ready();
    s.begin_poll(a);
    s.finish_poll(a, false);
    assert_eq!(s.state_of(a), TaskState::Pending);
    assert_eq!(s.state_of(b), TaskState::Ready);
    s.wake(a);
    assert_eq!(s.state_of(b), TaskState::Ready);
    assert_eq!(s.queue_len(), 1);
}
