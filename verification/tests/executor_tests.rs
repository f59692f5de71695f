use std::sync::atomic::{AtomicBool, Ordering};
use std::sync::Arc;
use std::future::Future;
use std::pin::Pin;
use std::task::Context;
use std::time::Duration;
use tokio_mini_redis::executor::{Delay, DelayStep, MiniTokio, TaskFuture};

#[test]
fn delay_starts_one_timer() {
    let mut delay = Delay::new(Duration::from_secs(100).as_nanos());
    assert!(!delay.is_due());
    assert_eq!(delay.poll(false), DelayStep::StartTimer);
    assert_eq!(delay.poll(false), DelayStep::Pending);
    assert_eq!(delay.poll(false), DelayStep::Pending);
}

#[test]
fn delay_is_ready_when_due() {
    let mut delay = Delay::new(0);
    assert!(delay.is_due());
    assert_eq!(delay.poll(true), DelayStep::Ready("Done"));
}

#[test]
fn delay_ready_after_timer() {
    let mut delay = Delay::new(Duration::from_millis(10).as_nanos());
    assert_eq!(delay.poll(false), DelayStep::StartTimer);
    while !delay.is_due() {
        std::hint::spin_loop();
    }
    let due = delay.is_due();
    assert_eq!(delay.poll(due), DelayStep::Ready("Done"));
}

#[test]
fn delay_due_and_remaining_by_elapsed_time() {
    let delay = Delay::new(3_000);
    assert!(!delay.is_due_at(2_999));
    assert!(delay.is_due_at(3_000));
    assert_eq!(delay.remaining_at(1_000), 2_000);
    assert_eq!(delay.remaining_at(5_000), 0);
    assert!(delay.remaining() <= 3_000);
}

fn poll_once(task_future: &mut TaskFuture, cx: &mut Context<'_>) -> bool {
    match task_future.poll() {
        Some(future) => {
            let ready = Pin::new(future).poll(cx).is_ready();
            task_future.record_poll(ready);
            true
        }
        None => false,
    }
}

#[test]
fn task_future_polls_until_ready() {
    let hits = Arc::new(AtomicBool::new(false));
    let flag = hits.clone();
    let mut task_future = TaskFuture::new(async move {
        flag.store(true, Ordering::SeqCst);
    });
    let waker = futures::task::noop_waker();
    let mut cx = Context::from_waker(&waker);
    assert!(!hits.load(Ordering::SeqCst));
    assert!(poll_once(&mut task_future, &mut cx));
    assert!(hits.load(Ordering::SeqCst));
    assert!(!poll_once(&mut task_future, &mut cx));
}

#[test]
fn pending_future_is_polled_again() {
    let mut task_future = TaskFuture::new(futures::future::pending::<()>());
    let waker = futures::task::noop_waker();
    let mut cx = Context::from_waker(&waker);
    assert!(poll_once(&mut task_future, &mut cx));
    assert!(poll_once(&mut task_future, &mut cx));
    task_future.record_poll(true);
    assert!(task_future.poll().is_none());
}

#[test]
fn spawned_task_is_scheduled_and_runs() {
    let hits = Arc::new(AtomicBool::new(false));
    let flag = hits.clone();
    let mut executor = MiniTokio::new();
    executor.spawn(async move {
        flag.store(true, Ordering::SeqCst);
    });
    let task = executor.next_task().expect("a scheduled task");
    let waker = futures::task::noop_waker();
    let mut cx = Context::from_waker(&waker);
    {
        let mut guard = task.lock_future().expect("the future is free");
        assert!(poll_once(&mut guard, &mut cx));
    }
    assert!(hits.load(Ordering::SeqCst));
    assert!(task.schedule());
    let again = executor.next_task().expect("the rescheduled task");
    let mut guard = again.lock_future().expect("the future is free");
    assert!(!poll_once(&mut guard, &mut cx));
}

#[test]
fn locked_future_is_not_locked_twice() {
    let mut executor = MiniTokio::new();
    executor.spawn(async {});
    let task = executor.next_task().expect("a scheduled task");
    let guard = task.lock_future();
    assert!(guard.is_some());
    assert!(task.lock_future().is_none());
}

#[test]
fn delay_stays_due() {
    let mut delay = Delay::new(1_000);
    assert!(!delay.is_due_at(999));
    assert!(delay.is_due_at(1_000));
    assert!(delay.is_due_at(1_000_000));
    assert_eq!(delay.poll(false), DelayStep::StartTimer);
    assert!(delay.is_due_at(1_000));
    assert_eq!(delay.remaining_at(400), 600);
    assert_eq!(delay.poll(true), DelayStep::Ready("Done"));
    assert_eq!(delay.poll(true), DelayStep::Ready("Done"));
}
