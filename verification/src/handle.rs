//! The reference-counted wake handle of one task. All traffic on a handle
//! happens on the single worker thread that owns its task, so a plain
//! (non-atomic) counter is the whole accounting: cloning raises it without
//! touching the task, dropping lowers it, and the allocation is to be freed
//! exactly when the count reaches zero.

use vstd::prelude::*;
use crate::sched::Scheduler;
use crate::task::{TaskState, spec_wake_step};

verus! {

/// The shared cell behind every clone of one task's waker: the identifier
/// of the task it wakes, and how many clones are alive.
pub struct WakeHandle {
    task: usize,
    count: u64,
}

impl WakeHandle {
    /// The task this handle wakes.
    pub closed spec fn task(&self) -> usize {
        self.task
    }

    /// How many references to the handle are alive.
    pub closed spec fn count(&self) -> u64 {
        self.count
    }

    /// The task this handle wakes, as a value.
    pub fn task_id(&self) -> (r: usize)
        ensures
            r == self.task(),
    {
        self.task
    }

    /// How many references are alive, as a value.
    pub fn ref_count(&self) -> (r: u64)
        ensures
            r == self.count(),
    {
        self.count
    }

    /// A fresh handle for one task, holding the one initial reference.
    pub fn new(task: usize) -> (h: Self)
        ensures
            h.task() == task,
            h.count() == 1,
    {
        WakeHandle { task, count: 1 }
    }

    /// Clone the handle: one more reference, the task untouched.
    pub fn clone_ref(&mut self)
        requires
            old(self).count() < u64::MAX,
        ensures
            final(self).count() == old(self).count() + 1,
            final(self).task() == old(self).task(),
    {
        self.count = self.count + 1;
    }

    /// Drop one reference. Returns true exactly when this was the last one,
    /// i.e. when the allocation must now be freed: the count reaches zero
    /// only after the last clone or invocation is gone.
    pub fn drop_ref(&mut self) -> (freed: bool)
        requires
            old(self).count() >= 1,
        ensures
            final(self).count() == old(self).count() - 1,
            final(self).task() == old(self).task(),
            freed <==> old(self).count() == 1,
    {
        self.count = self.count - 1;
        self.count == 0
    }

    /// Wake by reference: deliver the wake protocol to the task, once,
    /// without consuming a reference.
    pub fn wake_by_ref(&self, sched: &mut Scheduler)
        requires
            old(sched).wf(),
            self.task() < old(sched).task_states().len(),
        ensures
            final(sched).wf(),
            ({
                let (post, enq) = spec_wake_step(old(sched).task_states()[self.task() as int]);
                &&& final(sched).task_states() == old(sched).task_states().update(
                    self.task() as int,
                    post,
                )
                &&& final(sched).run_queue() == if enq {
                    old(sched).run_queue().push(self.task())
                } else {
                    old(sched).run_queue()
                }
            }),
            old(sched).task_states()[self.task() as int] == TaskState::Ready
                || old(sched).task_states()[self.task() as int] == TaskState::Done
                ==> *final(sched) == *old(sched),
    {
        sched.wake(self.task);
    }

    /// Wake: deliver the wake protocol to the task exactly once and consume
    /// one reference. Returns true exactly when that reference was the last
    /// and the allocation must now be freed.
    pub fn wake(&mut self, sched: &mut Scheduler) -> (freed: bool)
        requires
            old(self).count() >= 1,
            old(sched).wf(),
            old(self).task() < old(sched).task_states().len(),
        ensures
            final(self).count() == old(self).count() - 1,
            final(self).task() == old(self).task(),
            freed <==> old(self).count() == 1,
            final(sched).wf(),
            ({
                let (post, enq) = spec_wake_step(
                    old(sched).task_states()[old(self).task() as int],
                );
                &&& final(sched).task_states() == old(sched).task_states().update(
                    old(self).task() as int,
                    post,
                )
                &&& final(sched).run_queue() == if enq {
                    old(sched).run_queue().push(old(self).task())
                } else {
                    old(sched).run_queue()
                }
            }),
    {
        sched.wake(self.task);
        self.drop_ref()
    }
}

} // verus!
