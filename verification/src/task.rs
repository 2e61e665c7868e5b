//! The lifecycle of one task, and the two pure decisions the scheduler takes
//! on it: what a wake does, and what the end of a poll does.

use vstd::prelude::*;

verus! {

/// The state of one task on its owning worker.
#[derive(Clone, Copy, Debug, PartialEq, Eq, Structural)]
pub enum TaskState {
    /// In the runnable queue (or in the drain pass's snapshot of it),
    /// awaiting a poll attempt.
    Ready,
    /// Currently being polled on the owning worker's thread.
    Running,
    /// Suspended, out of the queue, waiting for exactly one future wake.
    Pending,
    /// The computation finished; terminal.
    Done,
}

/// The steps of the task lifecycle Ready -> Running -> {Pending -> Ready ->
/// Running}* -> Done: a drain pass begins a poll (Ready -> Running); the poll
/// yields a final result (Running -> Done); the poll suspends (Running ->
/// Pending); a wake re-schedules a suspended task (Pending -> Ready).
/// No step leaves Done.
pub open spec fn legal_step(pre: TaskState, post: TaskState) -> bool {
    ||| (pre == TaskState::Ready && post == TaskState::Running)
    ||| (pre == TaskState::Running && (post == TaskState::Done || post == TaskState::Pending))
    ||| (pre == TaskState::Pending && post == TaskState::Ready)
}

/// The two steps a wake racing with a still-executing poll adds to the
/// lifecycle, preserved deliberately from the design being modeled: the wake
/// marks the Running task Ready without enqueueing it, and a poll that then
/// completes moves that Ready task straight to Done.
pub open spec fn racing_step(pre: TaskState, post: TaskState) -> bool {
    ||| (pre == TaskState::Running && post == TaskState::Ready)
    ||| (pre == TaskState::Ready && post == TaskState::Done)
}

/// Done is absorbing: no lifecycle step and no racing step leaves it.
pub proof fn lemma_done_absorbing(post: TaskState)
    ensures
        !legal_step(TaskState::Done, post),
        !racing_step(TaskState::Done, post),
{
}

/// Each state can only have been entered from the states the lifecycle
/// allows: Running only from Ready, Pending and Done only from Running,
/// and Ready (anew) only from Pending.
pub proof fn lemma_step_inversion(pre: TaskState, post: TaskState)
    requires
        legal_step(pre, post),
    ensures
        post == TaskState::Running ==> pre == TaskState::Ready,
        post == TaskState::Pending ==> pre == TaskState::Running,
        post == TaskState::Done ==> pre == TaskState::Running,
        post == TaskState::Ready ==> pre == TaskState::Pending,
{
}

/// A recorded history of one task's states, legal when every consecutive
/// pair is one lifecycle step.
pub open spec fn legal_trace(tr: Seq<TaskState>) -> bool {
    forall|i: int| 0 <= i < tr.len() - 1 ==> legal_step(tr[i], #[trigger] tr[i + 1])
}

/// Done is terminal in any legal trace: since no lifecycle step leaves it,
/// Done can only stand at the very end of the history.
pub proof fn lemma_done_is_final(tr: Seq<TaskState>, i: int)
    requires
        legal_trace(tr),
        0 <= i < tr.len(),
        tr[i] == TaskState::Done,
    ensures
        i == tr.len() - 1,
{
    if i < tr.len() - 1 {
        assert(legal_step(tr[i], tr[i + 1]));
    }
}

/// What a wake decides from the task's current state: the state the task
/// moves to, and whether the wake path itself must enqueue the task.
/// Pending is the only state from which a wake re-enqueues; a wake seen
/// while Running marks the task Ready but leaves enqueueing to the poll
/// that is still in progress; on Ready and Done a wake changes nothing.
pub open spec fn spec_wake_step(s: TaskState) -> (TaskState, bool) {
    match s {
        TaskState::Ready => (TaskState::Ready, false),
        TaskState::Running => (TaskState::Ready, false),
        TaskState::Pending => (TaskState::Ready, true),
        TaskState::Done => (TaskState::Done, false),
    }
}

/// The wake decision, executable.
pub fn wake_step(s: TaskState) -> (r: (TaskState, bool))
    ensures
        r == spec_wake_step(s),
{
    match s {
        TaskState::Ready => (TaskState::Ready, false),
        TaskState::Running => (TaskState::Ready, false),
        TaskState::Pending => (TaskState::Ready, true),
        TaskState::Done => (TaskState::Done, false),
    }
}

/// What the end of a poll decides. A completed poll makes the task Done
/// whatever else happened. A suspending poll makes the task Pending only
/// if it is still Running; if a wake raced and already marked it Ready,
/// the state is left alone (and, by the wake decision above, nothing has
/// enqueued it: the documented lost-wakeup quirk of this design).
pub open spec fn spec_finish_step(s: TaskState, completed: bool) -> TaskState {
    if completed {
        TaskState::Done
    } else if s == TaskState::Running {
        TaskState::Pending
    } else {
        s
    }
}

/// The end-of-poll decision, executable.
pub fn finish_step(s: TaskState, completed: bool) -> (r: TaskState)
    ensures
        r == spec_finish_step(s, completed),
{
    if completed {
        TaskState::Done
    } else {
        match s {
            TaskState::Running => TaskState::Pending,
            _ => s,
        }
    }
}

/// A wake stutters or takes a lifecycle step, except on a Running task,
/// where it takes exactly the documented racing step.
pub proof fn lemma_wake_step_legal(s: TaskState)
    ensures
        ({
            let (post, _) = spec_wake_step(s);
            &&& post == s || legal_step(s, post) || racing_step(s, post)
            &&& s != TaskState::Running ==> post == s || legal_step(s, post)
        }),
{
}

/// The end of a poll, applied where the scheduler applies it (to a task the
/// drain pass put in Running, or that a racing wake moved back to Ready),
/// stutters, takes a lifecycle step, or takes the documented racing step;
/// on a task still Running it takes a lifecycle step exactly.
pub proof fn lemma_finish_step_legal(s: TaskState, completed: bool)
    requires
        s == TaskState::Running || s == TaskState::Ready,
    ensures
        ({
            let post = spec_finish_step(s, completed);
            &&& post == s || legal_step(s, post) || racing_step(s, post)
            &&& s == TaskState::Running ==> legal_step(s, post)
        }),
{
}

} // verus!
