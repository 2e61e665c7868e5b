//! One worker's scheduler: the states of the tasks it owns and its runnable
//! queue, with the spawn, wake, snapshot and poll-bookkeeping operations.
//! The computations themselves are held by the caller, keyed by the task
//! identifiers this scheduler hands out.

use vstd::prelude::*;
use crate::task::{TaskState, spec_wake_step, spec_finish_step, wake_step, finish_step};

verus! {

/// The scheduler of a single worker. Task identifiers are indices into the
/// sequence of task states; once spawned, a task keeps its identifier for
/// the worker's whole run.
pub struct Scheduler {
    states: Vec<TaskState>,
    queue: Vec<usize>,
}

impl Scheduler {
    /// The state of every task this worker has spawned, by task identifier.
    pub closed spec fn task_states(&self) -> Seq<TaskState> {
        self.states@
    }

    /// The runnable queue, front first.
    pub closed spec fn run_queue(&self) -> Seq<usize> {
        self.queue@
    }

    /// Well-formedness: every queued identifier names a spawned task, no
    /// task is queued twice, and every queued task is Ready.
    pub closed spec fn wf(&self) -> bool {
        &&& forall|i: int|
            0 <= i < self.queue@.len() ==> (#[trigger] self.queue@[i]) < self.states@.len()
        &&& forall|i: int, j: int|
            0 <= i < self.queue@.len() && 0 <= j < self.queue@.len() && i != j
                ==> #[trigger] self.queue@[i] != #[trigger] self.queue@[j]
        &&& forall|i: int|
            0 <= i < self.queue@.len()
                ==> self.states@[(#[trigger] self.queue@[i]) as int] == TaskState::Ready
    }

    /// A task is present in the runnable queue at most once.
    pub proof fn lemma_queued_at_most_once(&self, i: int, j: int)
        requires
            self.wf(),
            0 <= i < self.run_queue().len(),
            0 <= j < self.run_queue().len(),
            i != j,
        ensures
            self.run_queue()[i] != self.run_queue()[j],
    {
    }

    /// Every queued task is Ready, and its identifier is in range.
    pub proof fn lemma_queued_is_ready(&self, i: int)
        requires
            self.wf(),
            0 <= i < self.run_queue().len(),
        ensures
            self.run_queue()[i] < self.task_states().len(),
            self.task_states()[self.run_queue()[i] as int] == TaskState::Ready,
    {
    }

    /// A fresh scheduler: no tasks, empty queue.
    pub fn new() -> (s: Self)
        ensures
            s.wf(),
            s.task_states() == Seq::<TaskState>::empty(),
            s.run_queue() == Seq::<usize>::empty(),
    {
        Scheduler { states: Vec::new(), queue: Vec::new() }
    }

    /// Spawn a task: it starts Ready and is appended to the runnable queue.
    /// Returns its identifier.
    pub fn spawn(&mut self) -> (tid: usize)
        requires
            old(self).wf(),
        ensures
            final(self).wf(),
            tid == old(self).task_states().len(),
            final(self).task_states() == old(self).task_states().push(TaskState::Ready),
            final(self).run_queue() == old(self).run_queue().push(tid),
    {
        let tid: usize = self.states.len();
        self.states.push(TaskState::Ready);
        self.queue.push(tid);
        tid
    }

    /// The state of one task.
    pub fn state_of(&self, tid: usize) -> (r: TaskState)
        requires
            tid < self.task_states().len(),
        ensures
            r == self.task_states()[tid as int],
    {
        self.states[tid]
    }

    /// How many entries the runnable queue holds.
    pub fn queue_len(&self) -> (r: usize)
        ensures
            r == self.run_queue().len(),
    {
        self.queue.len()
    }

    /// Whether a task is currently in the runnable queue.
    pub fn queue_contains(&self, tid: usize) -> (r: bool)
        ensures
            r == self.run_queue().contains(tid),
    {
        let mut i: usize = 0;
        while i < self.queue.len()
            invariant
                i <= self.queue@.len(),
                forall|k: int| 0 <= k < i ==> self.queue@[k] != tid,
            decreases self.queue@.len() - i,
        {
            if self.queue[i] == tid {
                return true;
            }
            i = i + 1;
        }
        false
    }

    /// Deliver a wake to a task: apply the wake decision, and enqueue the
    /// task exactly when that decision says so. On a Ready or Done task
    /// this changes nothing at all.
    pub fn wake(&mut self, tid: usize)
        requires
            old(self).wf(),
            tid < old(self).task_states().len(),
        ensures
            final(self).wf(),
            ({
                let (post, enq) = spec_wake_step(old(self).task_states()[tid as int]);
                &&& final(self).task_states() == old(self).task_states().update(tid as int, post)
                &&& final(self).run_queue() == if enq {
                    old(self).run_queue().push(tid)
                } else {
                    old(self).run_queue()
                }
            }),
            old(self).task_states()[tid as int] == TaskState::Ready
                || old(self).task_states()[tid as int] == TaskState::Done ==> *final(self) == *old(self),
    {
        let st = self.states[tid];
        let (post, enq) = wake_step(st);
        match st {
            TaskState::Pending => {
                proof {
                    assert(forall|i: int|
                        0 <= i < self.queue@.len() ==> #[trigger] self.queue@[i] != tid);
                }
                self.states[tid] = post;
                if enq {
                    self.queue.push(tid);
                }
            }
            TaskState::Running => {
                self.states[tid] = post;
            }
            _ => {
                proof {
                    assert(self.task_states() =~= old(self).task_states().update(
                        tid as int,
                        spec_wake_step(old(self).task_states()[tid as int]).0,
                    ));
                }
            }
        }
    }

    /// Swap the whole runnable queue out as one snapshot, leaving the queue
    /// empty; the drain pass works through the snapshot while wakes may
    /// refill the queue. Task states are untouched.
    pub fn take_ready(&mut self) -> (batch: Vec<usize>)
        requires
            old(self).wf(),
        ensures
            final(self).wf(),
            final(self).task_states() == old(self).task_states(),
            final(self).run_queue() == Seq::<usize>::empty(),
            batch@ == old(self).run_queue(),
    {
        let mut batch: Vec<usize> = Vec::new();
        core::mem::swap(&mut batch, &mut self.queue);
        batch
    }

    /// Begin polling a snapshot task: it moves from Ready to Running. The
    /// task must not be in the queue, which holds of every snapshot entry,
    /// since a wake on a Ready task never enqueues.
    pub fn begin_poll(&mut self, tid: usize)
        requires
            old(self).wf(),
            tid < old(self).task_states().len(),
            old(self).task_states()[tid as int] == TaskState::Ready,
            !old(self).run_queue().contains(tid),
        ensures
            final(self).wf(),
            final(self).task_states() == old(self).task_states().update(tid as int, TaskState::Running),
            final(self).run_queue() == old(self).run_queue(),
    {
        self.states[tid] = TaskState::Running;
    }

    /// Record the outcome of a poll: apply the end-of-poll decision to the
    /// task. At this point the task is Running, or Ready if a wake raced
    /// with the poll; either way it is not in the queue.
    pub fn finish_poll(&mut self, tid: usize, completed: bool)
        requires
            old(self).wf(),
            tid < old(self).task_states().len(),
            old(self).task_states()[tid as int] == TaskState::Running
                || old(self).task_states()[tid as int] == TaskState::Ready,
            !old(self).run_queue().contains(tid),
        ensures
            final(self).wf(),
            final(self).task_states() == old(self).task_states().update(
                tid as int,
                spec_finish_step(old(self).task_states()[tid as int], completed),
            ),
            final(self).run_queue() == old(self).run_queue(),
    {
        let st = self.states[tid];
        let post = finish_step(st, completed);
        self.states[tid] = post;
        proof {
            assert(forall|i: int|
                0 <= i < self.queue@.len() ==> #[trigger] self.queue@[i] != tid);
        }
    }
}

} // verus!
