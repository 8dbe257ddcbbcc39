//! The bookkeeping that a task group shares with its guards and shutdown signals,
//! and the mathematical model that the contracts of the crate are stated over.

use crate::intrusive::List;
use vstd::prelude::*;

verus! {

/// What the shared state of a group amounts to.
///
/// `handles` and `wakers` describe the shutdown waiters front to back: the waiter at
/// position `k` has the handle `handles[k]` and is woken through `wakers[k]`.
pub struct Model<W> {
    pub running: nat,
    pub done_waker: Option<W>,
    pub signaled: bool,
    pub handles: Seq<usize>,
    pub wakers: Seq<Option<W>>,
}

impl<W> Model<W> {
    /// A group with no task, no observer, no waiter and no shutdown signaled.
    pub open spec fn empty() -> Self {
        Model {
            running: 0,
            done_waker: None,
            signaled: false,
            handles: Seq::empty(),
            wakers: Seq::empty(),
        }
    }

    /// Each waiter has a handle of its own and a waker, and the counter fits its
    /// machine type.
    pub open spec fn wf(self) -> bool {
        &&& self.running <= usize::MAX
        &&& self.handles.len() == self.wakers.len()
        &&& self.handles.no_duplicates()
        &&& forall|k: int| 0 <= k < self.wakers.len() ==> (#[trigger] self.wakers[k]) is Some
    }

    /// All tracked tasks have finished.
    pub open spec fn is_done(self) -> bool {
        self.running == 0
    }

    /// A guard is created: one more live task.
    pub open spec fn spawn(self) -> Self {
        Model { running: self.running + 1, ..self }
    }

    /// A guard is torn down: one live task less. Tearing down the last one takes the
    /// completion observer's waker out of its slot.
    pub open spec fn finish(self) -> Self {
        Model {
            running: (self.running - 1) as nat,
            done_waker: if self.running == 1 {
                None
            } else {
                self.done_waker
            },
            ..self
        }
    }

    /// The waker that a teardown hands out: the observer's, if the last task ends.
    pub open spec fn finish_wakes(self) -> Option<W> {
        if self.running == 1 {
            self.done_waker
        } else {
            None
        }
    }

    /// The completion observer polls with `waker`; an earlier registration is lost.
    pub open spec fn watch(self, waker: W) -> Self {
        Model { done_waker: Some(waker), ..self }
    }

    /// Shutdown is signaled. The waiters stay linked.
    pub open spec fn signal(self) -> Self {
        Model { signaled: true, ..self }
    }

    /// The wakers that one broadcast pass wakes, in the order of the pass.
    pub open spec fn woken(self) -> Seq<W> {
        Seq::new(self.wakers.len(), |k: int| self.wakers[k]->0)
    }

    /// A new waiter with handle `h` and `waker` is linked at the front.
    pub open spec fn register(self, h: usize, waker: W) -> Self {
        Model {
            handles: seq![h] + self.handles,
            wakers: seq![Some(waker)] + self.wakers,
            ..self
        }
    }

    /// The waiter with handle `h` replaces its waker by `waker`.
    pub open spec fn rearm(self, h: usize, waker: W) -> Self {
        Model { wakers: self.wakers.update(self.handles.index_of(h), Some(waker)), ..self }
    }

    /// The waiter with handle `h`, if there is one to name, is unlinked.
    pub open spec fn release(self, registered: Option<usize>) -> Self {
        match registered {
            Some(h) => Model {
                handles: self.handles.remove(self.handles.index_of(h)),
                wakers: self.wakers.remove(self.handles.index_of(h)),
                ..self
            },
            None => self,
        }
    }

    /// A shutdown signal is polled with `waker`. `registered` is the handle it holds
    /// from an earlier poll; `fresh` is the handle it gets if this poll links it.
    pub open spec fn poll(self, registered: Option<usize>, waker: W, fresh: usize) -> Self {
        if self.signaled {
            self.release(registered)
        } else {
            match registered {
                Some(h) => self.rearm(h, waker),
                None => self.register(fresh, waker),
            }
        }
    }
}

/// The state that a group, its guards and its shutdown signals share.
pub struct State<W> {
    pub(crate) running_tasks: usize,
    pub(crate) done_waker: Option<W>,
    pub(crate) shutdown_wakers: List<Option<W>>,
    pub(crate) shutdown_signaled: bool,
}

impl<W> State<W> {
    /// The state as a mathematical value.
    pub open(crate) spec fn view(&self) -> Model<W> {
        Model {
            running: self.running_tasks as nat,
            done_waker: self.done_waker,
            signaled: self.shutdown_signaled,
            handles: self.shutdown_wakers.handles(),
            wakers: self.shutdown_wakers@,
        }
    }

    /// The waiter list is intact and every linked waiter carries a waker.
    pub open(crate) spec fn wf(&self) -> bool {
        &&& self.shutdown_wakers.wf()
        &&& self@.wf()
    }

    /// The state of a group that has not started anything yet.
    pub fn new() -> (state: Self)
        ensures
            state.wf(),
            state@ == Model::<W>::empty(),
    {
        let state = State {
            running_tasks: 0,
            done_waker: None,
            shutdown_wakers: List::new(),
            shutdown_signaled: false,
        };
        proof {
            state.shutdown_wakers.lemma_handles_distinct();
        }
        state
    }

    /// The number of live tasks.
    pub fn running_tasks(&self) -> (n: usize)
        ensures
            n == self@.running,
    {
        self.running_tasks
    }

    /// Whether shutdown has been signaled.
    pub fn is_shutdown_signaled(&self) -> (b: bool)
        ensures
            b == self@.signaled,
    {
        self.shutdown_signaled
    }

    /// The number of shutdown signals that are registered at present.
    pub fn waiters(&self) -> (n: usize)
        requires
            self.wf(),
        ensures
            n == self@.handles.len(),
    {
        self.shutdown_wakers.len()
    }
}

} // verus!
