//! What holds of the group's model whatever its tasks and signals do, in which order.

use crate::state::Model;
use vstd::prelude::*;

verus! {

/// What a task does to the live-task counter.
pub enum Step {
    /// A task is created and counted in.
    Spawn,
    /// A task ends, by completion or by cancellation, and is counted out.
    Finish,
}

/// How many tasks `steps` creates.
pub open spec fn spawns(steps: Seq<Step>) -> nat
    decreases steps.len(),
{
    if steps.len() == 0 {
        0
    } else {
        spawns(steps.drop_last()) + (if steps.last() is Spawn {
            1nat
        } else {
            0nat
        })
    }
}

/// How many tasks `steps` ends.
pub open spec fn finishes(steps: Seq<Step>) -> nat
    decreases steps.len(),
{
    if steps.len() == 0 {
        0
    } else {
        finishes(steps.drop_last()) + (if steps.last() is Finish {
            1nat
        } else {
            0nat
        })
    }
}

impl<W> Model<W> {
    /// The model after one step.
    pub open spec fn step(self, step: Step) -> Self {
        match step {
            Step::Spawn => self.spawn(),
            Step::Finish => self.finish(),
        }
    }

    /// The model after `steps`, taken in order.
    pub open spec fn run(self, steps: Seq<Step>) -> Self
        decreases steps.len(),
    {
        if steps.len() == 0 {
            self
        } else {
            self.run(steps.drop_last()).step(steps.last())
        }
    }

    /// Every `Finish` in `steps` ends a task that is live at that point.
    pub open spec fn admits(self, steps: Seq<Step>) -> bool
        decreases steps.len(),
    {
        steps.len() > 0 ==> self.admits(steps.drop_last()) && (steps.last() is Finish ==> self.run(
            steps.drop_last(),
        ).running > 0)
    }

    /// The handles of the waiters, as a set.
    pub open spec fn registered(self) -> Set<usize> {
        self.handles.to_set()
    }
}

/// Starting with no live task, the group is done after any admissible run of
/// creations and teardowns exactly when each created task has been torn down,
/// whatever the order in which the tasks ended.
pub proof fn lemma_done_iff_all_finished<W>(m: Model<W>, steps: Seq<Step>)
    requires
        m.running == 0,
        m.admits(steps),
    ensures
        m.run(steps).running == spawns(steps) - finishes(steps),
        m.run(steps).is_done() <==> finishes(steps) == spawns(steps),
    decreases steps.len(),
{
    if steps.len() > 0 {
        lemma_done_iff_all_finished(m, steps.drop_last());
    }
}

/// A task that is counted in and then torn down, completed or not, leaves the
/// counter where it was: the teardown counts it out once.
pub proof fn lemma_finish_undoes_spawn<W>(m: Model<W>)
    ensures
        m.spawn().finish().running == m.running,
        m.spawn().running == m.running + 1,
{
}

/// One broadcast pass reaches every waiter that is registered when shutdown is
/// signaled: the pass wakes as many wakers as there are waiters, and the waker at
/// each position is that waiter's.
pub proof fn lemma_broadcast_reaches_every_waiter<W>(m: Model<W>, k: int)
    requires
        m.wf(),
        0 <= k < m.handles.len(),
    ensures
        m.signal().woken().len() == m.handles.len(),
        m.wakers[k] == Some(m.signal().woken()[k]),
{
}

/// A signal that is polled for the first time after shutdown was signaled changes
/// nothing: it is never registered.
pub proof fn lemma_first_poll_after_shutdown<W>(m: Model<W>, waker: W, fresh: usize)
    ensures
        m.signal().poll(None, waker, fresh) == m.signal(),
{
}

/// Signaling shutdown a second time changes nothing, and its pass wakes the same
/// wakers as the first.
pub proof fn lemma_shutdown_idempotent<W>(m: Model<W>)
    ensures
        m.signal().signal() == m.signal(),
        m.signal().signal().woken() == m.signal().woken(),
{
}

/// A signal that registers and is released before shutdown leaves no trace: the
/// model is what it was before the signal was first polled.
pub proof fn lemma_release_undoes_register<W>(m: Model<W>, h: usize, waker: W)
    requires
        m.wf(),
        !m.signaled,
        !m.handles.contains(h),
    ensures
        m.poll(None, waker, h).release(Some(h)) == m,
{
    let r = m.register(h, waker);
    assert(r.handles[0] == h);
    let k = r.handles.index_of(h);
    assert(0 <= k < r.handles.len() && r.handles[k] == h);
    if k > 0 {
        assert(m.handles[k - 1] == h);
    }
    assert(r.handles.remove(0) =~= m.handles);
    assert(r.wakers.remove(0) =~= m.wakers);
}

/// The waiter list holds exactly the signals that are registered: with `held` the
/// handles that the signals hold, a poll or a release by any one of them keeps the
/// list and `held` in step, so that the list's length is the number of registered
/// signals.
pub proof fn lemma_waiters_are_registered_signals<W>(
    m: Model<W>,
    registered: Option<usize>,
    waker: W,
    fresh: usize,
)
    requires
        m.wf(),
        registered is Some ==> m.handles.contains(registered->0),
        !m.handles.contains(fresh),
    ensures
        m.handles.len() == m.registered().len(),
        m.poll(registered, waker, fresh).wf(),
        m.release(registered).wf(),
        m.poll(registered, waker, fresh).registered() == (if m.signaled {
            match registered {
                Some(h) => m.registered().remove(h),
                None => m.registered(),
            }
        } else {
            match registered {
                Some(h) => m.registered(),
                None => m.registered().insert(fresh),
            }
        }),
        m.release(registered).registered() == (match registered {
            Some(h) => m.registered().remove(h),
            None => m.registered(),
        }),
{
    m.handles.unique_seq_to_set();
    match registered {
        Some(h) => {
            let k = m.handles.index_of(h);
            assert(0 <= k < m.handles.len() && m.handles[k] == h);
            lemma_released(m, h);
            let a = m.rearm(h, waker);
            assert forall|j: int| 0 <= j < a.wakers.len() implies (#[trigger] a.wakers[j]) is Some by {
                if j != k {
                    assert(m.wakers[j] is Some);
                }
            }
        },
        None => {
            let r = m.register(fresh, waker);
            assert forall|j: int| 0 <= j < r.wakers.len() implies (#[trigger] r.wakers[j]) is Some by {
                if j > 0 {
                    assert(m.wakers[j - 1] is Some);
                }
            }
            assert forall|g: usize| r.handles.to_set().contains(g) <==> m.registered().insert(
                fresh,
            ).contains(g) by {
                if r.handles.contains(g) {
                    let j = choose|j: int| 0 <= j < r.handles.len() && r.handles[j] == g;
                    if j > 0 {
                        assert(m.handles[j - 1] == g);
                    }
                }
                if g == fresh {
                    assert(r.handles[0] == g);
                }
                if m.handles.contains(g) {
                    let j = choose|j: int| 0 <= j < m.handles.len() && m.handles[j] == g;
                    assert(r.handles[j + 1] == g);
                }
            }
            assert(r.registered() =~= m.registered().insert(fresh));
        },
    }
}

/// Unlinking the waiter with handle `h` keeps the model well formed and takes
/// exactly `h` out of the set of handles.
proof fn lemma_released<W>(m: Model<W>, h: usize)
    requires
        m.wf(),
        m.handles.contains(h),
    ensures
        m.release(Some(h)).wf(),
        m.release(Some(h)).registered() == m.registered().remove(h),
{
    let k = m.handles.index_of(h);
    assert(0 <= k < m.handles.len() && m.handles[k] == h);
    let r = m.release(Some(h));
    assert forall|j: int| 0 <= j < r.handles.len() implies #[trigger] r.handles[j] == m.handles[if j
        < k {
        j
    } else {
        j + 1
    }] && r.wakers[j] == m.wakers[if j < k {
        j
    } else {
        j + 1
    }] by {}
    assert forall|j: int| 0 <= j < r.wakers.len() implies (#[trigger] r.wakers[j]) is Some by {
        assert(m.wakers[if j < k {
            j
        } else {
            j + 1
        }] is Some);
    }
    assert forall|g: usize| r.handles.to_set().contains(g) <==> m.registered().remove(h).contains(
        g,
    ) by {
        if r.handles.contains(g) {
            let j = choose|j: int| 0 <= j < r.handles.len() && r.handles[j] == g;
            assert(m.handles[if j < k {
                j
            } else {
                j + 1
            }] == g);
        }
        if m.handles.contains(g) && g != h {
            let j = choose|j: int| 0 <= j < m.handles.len() && m.handles[j] == g;
            assert(r.handles[if j < k {
                j
            } else {
                j - 1
            }] == g);
        }
    }
    assert(r.registered() =~= m.registered().remove(h));
}

} // verus!
