//! The guard that stands for one live task in the group's counter.

use crate::state::State;
use vstd::prelude::*;

verus! {

/// One increment of the live-task counter.
///
/// Creating the guard counts the task in; [`Task::finish`] consumes the guard and
/// counts it out, so no guard is counted out twice.
pub struct Task {
    token: (),
}

impl Task {
    /// Counts one more live task in `state`.
    ///
    /// The counter must have room: a group cannot track more tasks than a `usize`
    /// counts.
    pub fn new<W>(state: &mut State<W>) -> (task: Self)
        requires
            old(state).wf(),
            old(state)@.running < usize::MAX,
        ensures
            final(state).wf(),
            final(state)@ == old(state)@.spawn(),
    {
        state.running_tasks = state.running_tasks + 1;
        Task { token: () }
    }

    /// Counts the task out, on completion or on cancellation alike.
    ///
    /// If it was the last live task, the waker of the completion observer is taken
    /// out of its slot and returned: the caller wakes it.
    pub fn finish<W>(self, state: &mut State<W>) -> (wake: Option<W>)
        requires
            old(state).wf(),
            old(state)@.running > 0,
        ensures
            final(state).wf(),
            final(state)@ == old(state)@.finish(),
            wake == old(state)@.finish_wakes(),
    {
        let before: usize = state.running_tasks;
        state.running_tasks = before - 1;
        if before == 1 {
            state.done_waker.take()
        } else {
            None
        }
    }
}

} // verus!
