//! The group itself, and the signal through which its tasks learn of a shutdown.

use crate::intrusive::Node;
use crate::state::State;
use crate::task::Task;
use vstd::prelude::*;

verus! {

/// The outcome of one poll.
#[derive(Clone, Copy, Debug, PartialEq, Eq, Structural)]
pub enum Poll {
    Ready,
    Pending,
}

/// A task's view of the group's shutdown: pending until shutdown is signaled.
///
/// While it waits it is registered in the group's waiter list under a handle. It
/// leaves the list when a poll finds the shutdown signaled, or when it is released.
pub struct ShutdownSignal {
    node: Option<usize>,
}

impl ShutdownSignal {
    /// The handle under which the signal is registered, if it is.
    pub closed spec fn handle(&self) -> Option<usize> {
        self.node
    }

    /// The signal belongs to `state`: a handle that it holds names a waiter there.
    pub open spec fn attached<W>(&self, state: &State<W>) -> bool {
        match self.handle() {
            Some(h) => state@.handles.contains(h),
            None => true,
        }
    }

    /// A signal that has not been polled yet.
    pub fn new() -> (signal: Self)
        ensures
            signal.handle() is None,
    {
        ShutdownSignal { node: None }
    }

    /// Whether the signal is in the waiter list.
    pub fn is_registered(&self) -> (b: bool)
        ensures
            b == self.handle().is_some(),
    {
        self.node.is_some()
    }

    /// Whether the signal belongs to `state`, as [`ShutdownSignal::poll`] and
    /// [`ShutdownSignal::release`] ask.
    pub fn is_attached<W>(&self, state: &State<W>) -> (b: bool)
        requires
            state.wf(),
        ensures
            b == self.attached(state),
    {
        match self.node {
            Some(h) => state.shutdown_wakers.is_linked(h),
            None => true,
        }
    }

    /// Polls the signal on behalf of the task that `waker` wakes.
    ///
    /// Once shutdown is signaled the poll is `Ready`, and a registered signal leaves
    /// the waiter list. Before that the poll is `Pending`: a first poll links the
    /// signal at the front of the list, a later one only replaces its waker.
    pub fn poll<W>(&mut self, state: &mut State<W>, waker: W) -> (p: Poll)
        requires
            old(state).wf(),
            old(self).attached(old(state)),
        ensures
            final(state).wf(),
            final(self).attached(final(state)),
            p == (if old(state)@.signaled {
                Poll::Ready
            } else {
                Poll::Pending
            }),
            final(self).handle().is_some() == !old(state)@.signaled,
            !old(state)@.signaled && old(self).handle().is_some() ==> final(self).handle() == old(
                self,
            ).handle(),
            !old(state)@.signaled && old(self).handle().is_none() ==> !old(
                state,
            )@.handles.contains(final(self).handle()->0),
            final(state)@ == old(state)@.poll(
                old(self).handle(),
                waker,
                final(self).handle().unwrap_or(0),
            ),
            forall|g: usize|
                Some(g) != old(self).handle() && #[trigger] old(state)@.handles.contains(g)
                    ==> final(state)@.handles.contains(g),
    {
        if state.shutdown_signaled {
            match self.node {
                Some(h) => {
                    Node::remove(h, &mut state.shutdown_wakers);
                },
                None => {},
            }
            self.node = None;
            proof {
                state.shutdown_wakers.lemma_handles_distinct();
            }
            Poll::Ready
        } else {
            match self.node {
                Some(h) => {
                    state.shutdown_wakers.set_data(h, Some(waker));
                },
                None => {
                    let h = state.shutdown_wakers.push_front(Node::new(Some(waker)));
                    self.node = Some(h);
                    proof {
                        assert(state@.handles[0] == h);
                    }
                },
            }
            proof {
                state.shutdown_wakers.lemma_handles_distinct();
            }
            Poll::Pending
        }
    }

    /// Gives the signal up, resolved or not: a registered signal leaves the waiter
    /// list, and the other waiters keep their places.
    pub fn release<W>(self, state: &mut State<W>)
        requires
            old(state).wf(),
            self.attached(old(state)),
        ensures
            final(state).wf(),
            final(state)@ == old(state)@.release(self.handle()),
            forall|g: usize|
                Some(g) != self.handle() && #[trigger] old(state)@.handles.contains(g)
                    ==> final(state)@.handles.contains(g),
    {
        match self.node {
            Some(h) => {
                Node::remove(h, &mut state.shutdown_wakers);
            },
            None => {},
        }
        proof {
            state.shutdown_wakers.lemma_handles_distinct();
        }
    }
}

/// A group of tasks that can be waited on, and signaled to shut down.
pub struct TaskGroup<W> {
    pub state: State<W>,
}

impl<W> TaskGroup<W> {
    /// A group over a state of its own.
    pub fn new() -> (group: Self)
        ensures
            group.state.wf(),
            group.state@ == crate::state::Model::<W>::empty(),
    {
        TaskGroup { state: State::new() }
    }

    /// A group over a state that the caller has set up.
    pub fn with_static(state: State<W>) -> (group: Self)
        ensures
            group.state == state,
    {
        TaskGroup { state }
    }

    /// Signals the shutdown and makes the broadcast pass over the waiter list.
    ///
    /// Returns the wakers of all registered signals, front to back; the caller
    /// wakes each. The signals stay registered until they are next polled or
    /// released.
    pub fn shutdown(&mut self) -> (wake: Vec<&W>)
        requires
            old(self).state.wf(),
        ensures
            final(self).state.wf(),
            final(self).state@ == old(self).state@.signal(),
            wake@.len() == old(self).state@.woken().len(),
            forall|k: int| 0 <= k < wake@.len() ==> *(#[trigger] wake@[k]) == old(self).state@.woken()[k],
    {
        self.state.shutdown_signaled = true;
        let list = &self.state.shutdown_wakers;
        let mut wake: Vec<&W> = Vec::new();
        let mut node = list.peek_front();
        let ghost mut pos: int = 0;
        loop
            invariant
                list.wf(),
                0 <= pos <= list.handles().len(),
                node == (if pos < list.handles().len() {
                    Some(&list.at(pos))
                } else {
                    None
                }),
                wake@.len() == pos,
                forall|k: int| 0 <= k < list@.len() ==> (#[trigger] list@[k]) is Some,
                forall|k: int| 0 <= k < pos ==> *(#[trigger] wake@[k]) == list@[k]->0,
            ensures
                pos == list.handles().len(),
            decreases list.handles().len() - pos,
        {
            match node {
                Some(inner) => {
                    assert(list@[pos] is Some);
                    match inner.data() {
                        Some(waker) => {
                            wake.push(waker);
                        },
                        None => {},
                    }
                    node = inner.next(list);
                    proof {
                        pos = pos + 1;
                    }
                },
                None => {
                    break ;
                },
            }
        }
        wake
    }

    /// Polls for completion on behalf of the observer that `waker` wakes.
    ///
    /// The waker replaces the one of any earlier poll. The poll is `Ready` exactly
    /// when no task is live.
    pub fn done(&mut self, waker: W) -> (p: Poll)
        requires
            old(self).state.wf(),
        ensures
            final(self).state.wf(),
            final(self).state@ == old(self).state@.watch(waker),
            p == (if old(self).state@.is_done() {
                Poll::Ready
            } else {
                Poll::Pending
            }),
    {
        self.state.done_waker = Some(waker);
        if self.state.running_tasks == 0 {
            Poll::Ready
        } else {
            Poll::Pending
        }
    }

    /// Starts tracking one task: the guard that comes back stands for it.
    ///
    /// A task that is created after shutdown was signaled is tracked and counted
    /// like any other.
    pub fn create(&mut self) -> (task: Task)
        requires
            old(self).state.wf(),
            old(self).state@.running < usize::MAX,
        ensures
            final(self).state.wf(),
            final(self).state@ == old(self).state@.spawn(),
    {
        Task::new(&mut self.state)
    }

    /// Starts tracking one task that may observe the shutdown: the guard, and a
    /// signal that is not registered yet.
    pub fn create_with_shutdown(&mut self) -> (r: (ShutdownSignal, Task))
        requires
            old(self).state.wf(),
            old(self).state@.running < usize::MAX,
        ensures
            final(self).state.wf(),
            final(self).state@ == old(self).state@.spawn(),
            r.0.handle() is None,
    {
        let signal = ShutdownSignal::new();
        let task = self.create();
        (signal, task)
    }
}

} // verus!
