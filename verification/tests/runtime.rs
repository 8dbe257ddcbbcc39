use std::future::Future;
use std::pin::Pin;
use std::sync::{Arc, Mutex};
use std::task::{Context, Waker};
use std::time::{Duration, Instant};

use task_group::group::{Poll, ShutdownSignal, TaskGroup};
use task_group::task::Task;

struct Shared {
    group: Mutex<TaskGroup<Waker>>,
}

fn shared() -> Arc<Shared> {
    Arc::new(Shared {
        group: Mutex::new(TaskGroup::new()),
    })
}

struct Guarded<F> {
    shared: Arc<Shared>,
    guard: Option<Task>,
    inner: Pin<Box<F>>,
}

impl<F: Future> Future for Guarded<F> {
    type Output = F::Output;

    fn poll(mut self: Pin<&mut Self>, cx: &mut Context<'_>) -> std::task::Poll<F::Output> {
        self.inner.as_mut().poll(cx)
    }
}

impl<F> Drop for Guarded<F> {
    fn drop(&mut self) {
        if let Some(guard) = self.guard.take() {
            let wake = {
                let mut group = self.shared.group.lock().unwrap();
                assert!(group.state.running_tasks() > 0);
                guard.finish(&mut group.state)
            };
            if let Some(waker) = wake {
                waker.wake();
            }
        }
    }
}

struct Done {
    shared: Arc<Shared>,
}

impl Future for Done {
    type Output = ();

    fn poll(self: Pin<&mut Self>, cx: &mut Context<'_>) -> std::task::Poll<()> {
        let mut group = self.shared.group.lock().unwrap();
        match group.done(cx.waker().clone()) {
            Poll::Ready => std::task::Poll::Ready(()),
            Poll::Pending => std::task::Poll::Pending,
        }
    }
}

struct Signal {
    shared: Arc<Shared>,
    signal: Option<ShutdownSignal>,
}

impl Future for Signal {
    type Output = ();

    fn poll(self: Pin<&mut Self>, cx: &mut Context<'_>) -> std::task::Poll<()> {
        let this = self.get_mut();
        let mut group = this.shared.group.lock().unwrap();
        let signal = this.signal.as_mut().unwrap();
        match signal.poll(&mut group.state, cx.waker().clone()) {
            Poll::Ready => std::task::Poll::Ready(()),
            Poll::Pending => std::task::Poll::Pending,
        }
    }
}

impl Drop for Signal {
    fn drop(&mut self) {
        if let Some(signal) = self.signal.take() {
            let mut group = self.shared.group.lock().unwrap();
            signal.release(&mut group.state);
        }
    }
}

fn spawn<F>(runtime: &tokio::runtime::Runtime, shared: &Arc<Shared>, future: F)
where
    F: Future<Output = ()> + Send + 'static,
{
    let guard = {
        let mut group = shared.group.lock().unwrap();
        assert!(group.state.running_tasks() < usize::MAX);
        group.create()
    };
    runtime.spawn(Guarded {
        shared: shared.clone(),
        guard: Some(guard),
        inner: Box::pin(future),
    });
}

fn spawn_with_shutdown<F, Fut>(runtime: &tokio::runtime::Runtime, shared: &Arc<Shared>, f: F)
where
    F: FnOnce(Signal) -> Fut,
    Fut: Future<Output = ()> + Send + 'static,
{
    let (signal, guard) = {
        let mut group = shared.group.lock().unwrap();
        assert!(group.state.running_tasks() < usize::MAX);
        group.create_with_shutdown()
    };
    let future = f(Signal {
        shared: shared.clone(),
        signal: Some(signal),
    });
    runtime.spawn(Guarded {
        shared: shared.clone(),
        guard: Some(guard),
        inner: Box::pin(future),
    });
}

fn done(shared: &Arc<Shared>) -> Done {
    Done {
        shared: shared.clone(),
    }
}

async fn shutdown(shared: &Arc<Shared>) {
    {
        let mut group = shared.group.lock().unwrap();
        for waker in group.shutdown() {
            waker.wake_by_ref();
        }
    }
    done(shared).await;
}

#[test]
fn spawns_tasks() {
    let runtime = tokio::runtime::Runtime::new().unwrap();
    let group = shared();
    let (tx, rx) = tokio::sync::oneshot::channel();

    runtime.block_on(async {
        spawn(&runtime, &group, async move {
            if let Err(_) = tx.send(()) {
                panic!("the receiver dropped");
            }
        });

        match tokio::time::timeout(Duration::from_secs(10), rx).await {
            Ok(result) => match result {
                Ok(_) => {}
                Err(_) => panic!("the sender did not spawn"),
            },
            Err(_) => panic!(),
        }
    });
}

#[test]
fn done_waits() {
    let runtime = tokio::runtime::Runtime::new().unwrap();
    let group = shared();

    runtime.block_on(async {
        spawn(&runtime, &group, async move {
            loop {
                tokio::time::sleep(Duration::from_millis(100)).await;
            }
        });

        match tokio::time::timeout(Duration::from_secs(2), done(&group)).await {
            Ok(_) => panic!(),
            Err(_) => {}
        }
    });
}

#[test]
fn done_exits() {
    let runtime = tokio::runtime::Runtime::new().unwrap();
    let group = shared();

    runtime.block_on(async {
        let started = Instant::now();
        for _ in 0..5 {
            spawn(&runtime, &group, async move {
                tokio::time::sleep(Duration::from_millis(100)).await;
            });
        }

        match tokio::time::timeout(Duration::from_secs(2), done(&group)).await {
            Ok(_) => {}
            Err(_) => panic!(),
        }
        assert!(started.elapsed() >= Duration::from_millis(100));
    });
    assert_eq!(group.group.lock().unwrap().state.running_tasks(), 0);
}

#[test]
fn shutdown_signals() {
    let runtime = tokio::runtime::Runtime::new().unwrap();
    let group = shared();
    let (tx, mut rx) = tokio::sync::mpsc::unbounded_channel::<()>();

    runtime.block_on(async {
        for _ in 0..5 {
            let tx = tx.clone();
            spawn_with_shutdown(&runtime, &group, |shutdown| async move {
                match tokio::time::timeout(Duration::from_secs(5), shutdown).await {
                    Ok(_) => {}
                    Err(_) => {
                        let _ = tx.send(());
                    }
                }
                core::mem::drop(tx);
            });
        }
        core::mem::drop(tx);
        tokio::time::sleep(Duration::from_secs(1)).await;
        assert_eq!(group.group.lock().unwrap().state.waiters(), 5);
        shutdown(&group).await;
        if let Some(_) = rx.recv().await {
            panic!();
        }
    });
    core::mem::drop(runtime);
    let group = group.group.lock().unwrap();
    assert_eq!(group.state.running_tasks(), 0);
    assert_eq!(group.state.waiters(), 0);
}

#[test]
fn cancelled_task_is_counted_out() {
    let runtime = tokio::runtime::Runtime::new().unwrap();
    let group = shared();

    runtime.block_on(async {
        spawn_with_shutdown(&runtime, &group, |shutdown| async move {
            shutdown.await;
        });
        tokio::time::sleep(Duration::from_millis(100)).await;
        let state = group.group.lock().unwrap();
        assert_eq!(state.state.running_tasks(), 1);
        assert_eq!(state.state.waiters(), 1);
    });
    core::mem::drop(runtime);

    let state = group.group.lock().unwrap();
    assert_eq!(state.state.running_tasks(), 0);
    assert_eq!(state.state.waiters(), 0);
}
