//! A small single-threaded executor: tasks that own a future, a channel on
//! which woken tasks are scheduled, and a delay future that becomes ready at
//! a deadline.
//!
//! The parts that run a task's own code or need a waker or a thread (polling
//! a future, waking a task, sleeping until a deadline) are driven from
//! outside: the decisions they follow are here.
use futures::future::FutureObj;
use std::future::Future;
use std::sync::mpsc::{Receiver, Sender};
use std::sync::{Arc, Mutex, MutexGuard};
use std::time::{Duration, Instant};
use vstd::prelude::*;

verus! {

/// A point in monotonic time.
#[verifier::external_type_specification]
#[verifier::external_body]
pub struct ExInstant(Instant);

/// A boxed, type-erased future of the `futures` crate.
#[verifier::external_type_specification]
#[verifier::external_body]
#[verifier::reject_recursive_types(T)]
pub struct ExFutureObj<'a, T>(FutureObj<'a, T>);

/// A mutual-exclusion lock.
#[verifier::external_type_specification]
#[verifier::external_body]
#[verifier::reject_recursive_types(T)]
pub struct ExMutex<T: ?Sized>(Mutex<T>);

/// The guard of a held lock.
#[verifier::external_type_specification]
#[verifier::external_body]
#[verifier::reject_recursive_types(T)]
pub struct ExMutexGuard<'a, T: ?Sized + 'a>(MutexGuard<'a, T>);

/// The receiving end of a channel.
#[verifier::external_type_specification]
#[verifier::external_body]
#[verifier::reject_recursive_types(T)]
pub struct ExReceiver<T>(Receiver<T>);

/// Calls `Instant::now`. Nothing is claimed: the result is the time of the
/// call.
#[verifier::external_body]
fn instant_now() -> Instant {
    Instant::now()
}

/// Calls `Instant::elapsed` and reads the time as nanoseconds
/// (`Duration::as_nanos`). Nothing is claimed of the result, the time that
/// has passed since `start` by the clock now; `elapsed` gives zero rather
/// than panicking should the clock read earlier than `start`.
#[verifier::external_body]
fn elapsed_nanos(start: &Instant) -> u128 {
    start.elapsed().as_nanos()
}

/// How a [`Delay`] is polled.
#[derive(Debug, PartialEq, Eq)]
pub enum DelayStep {
    /// The deadline has passed: the delay is over, with this output.
    Ready(&'static str),
    /// Not yet, and a timer is already running: keep the registered waker up
    /// to date with the polling task's.
    Pending,
    /// Not yet, and no timer runs: register the polling task's waker and
    /// start a timer that wakes it at the deadline.
    StartTimer,
}

/// A future that becomes ready at a deadline. Time is counted in
/// nanoseconds from the moment the delay was made.
pub struct Delay {
    start: Instant,
    when: u128,
    count: u32,
    timer_started: bool,
}

impl Delay {
    /// The deadline, in nanoseconds after the delay was made.
    pub closed spec fn when(&self) -> u128 {
        self.when
    }

    /// Whether a timer has been started for this delay.
    pub closed spec fn timer_started(&self) -> bool {
        self.timer_started
    }

    /// How many times the delay has been counted as polled.
    pub closed spec fn count(&self) -> u32 {
        self.count
    }

    /// The moment the delay was made, from which its deadline is counted.
    pub closed spec fn start(&self) -> Instant {
        self.start
    }

    /// A delay whose deadline is `delay_nanos` nanoseconds from now; no timer
    /// runs yet.
    pub fn new(delay_nanos: u128) -> (d: Delay)
        ensures
            d.when() == delay_nanos,
            !d.timer_started(),
            d.count() == 0,
    {
        Delay { start: instant_now(), when: delay_nanos, count: 0, timer_started: false }
    }

    /// Whether the deadline has passed when `elapsed` nanoseconds have gone
    /// by since the delay was made.
    pub fn is_due_at(&self, elapsed: u128) -> (r: bool)
        ensures
            r == (self.when() <= elapsed),
    {
        self.when <= elapsed
    }

    /// Whether the deadline has passed, by the clock now: always, for a
    /// deadline of zero.
    pub fn is_due(&self) -> (r: bool)
        ensures
            self.when() == 0 ==> r,
    {
        self.is_due_at(elapsed_nanos(&self.start))
    }

    /// How many nanoseconds are left until the deadline when `elapsed`
    /// nanoseconds have gone by since the delay was made: none once it has
    /// passed.
    pub fn remaining_at(&self, elapsed: u128) -> (r: u128)
        ensures
            r == (if self.when() > elapsed { self.when() - elapsed } else { 0 }),
    {
        if self.when > elapsed {
            self.when - elapsed
        } else {
            0
        }
    }

    /// How many nanoseconds are left until the deadline, by the clock now,
    /// for a timer to sleep: never more than the whole delay.
    pub fn remaining(&self) -> (r: u128)
        ensures
            r <= self.when(),
    {
        self.remaining_at(elapsed_nanos(&self.start))
    }

    /// One poll of the delay, given whether the deadline has passed: ready
    /// with `"Done"` once it has; otherwise pending, with a timer started on
    /// the first pending poll and never again.
    pub fn poll(&mut self, due: bool) -> (r: DelayStep)
        ensures
            due ==> (r matches DelayStep::Ready(out) && out@ == seq!['D', 'o', 'n', 'e']) && *final(self)
                == *old(self),
            !due && old(self).timer_started() ==> r is Pending && *final(self) == *old(self),
            !due && !old(self).timer_started() ==> r is StartTimer && final(self).timer_started()
                && final(self).when() == old(self).when() && final(self).count() == old(self).count()
                && final(self).start() == old(self).start(),
    {
        if due {
            let out = "Done";
            proof {
                reveal_strlit("Done");
            }
            return DelayStep::Ready(out);
        }
        if self.timer_started {
            DelayStep::Pending
        } else {
            self.timer_started = true;
            DelayStep::StartTimer
        }
    }
}

/// Once a delay is due, it stays due: polling never moves its deadline or
/// the moment it is counted from, and a delay that is due after `earlier`
/// nanoseconds is due after every `later` count too.
pub proof fn law_due_stays_due(d: Delay, earlier: u128, later: u128)
    requires
        d.when() <= earlier,
        earlier <= later,
    ensures
        d.when() <= later,
{
}

/// Whether a task's future has finished.
#[derive(Debug, PartialEq, Eq)]
pub enum PollState {
    Pending,
    Ready,
}

/// Calls `FutureObj::new` on the boxed future. Nothing is claimed: the
/// future object is opaque.
#[verifier::external_body]
fn future_obj_new<F: Future<Output = ()> + Send + 'static>(future: F) -> FutureObj<'static, ()> {
    FutureObj::new(Box::new(future))
}

/// A future owned by a task, with whether it has finished. Polling the
/// future runs code of the task's own, so it is done by the caller: this
/// type decides whether the future is polled and records the outcome.
pub struct TaskFuture {
    future: FutureObj<'static, ()>,
    poll: PollState,
}

impl TaskFuture {
    /// Whether the future has finished.
    pub closed spec fn is_ready(&self) -> bool {
        self.poll is Ready
    }

    /// The future held.
    pub closed spec fn future(&self) -> FutureObj<'static, ()> {
        self.future
    }

    /// Takes `future`, not yet polled.
    pub fn new(future: impl Future<Output = ()> + Send + 'static) -> (t: TaskFuture)
        ensures
            !t.is_ready(),
    {
        TaskFuture { future: future_obj_new(future), poll: PollState::Pending }
    }

    /// The future to poll now: none once it has finished, so that a finished
    /// future is never polled again.
    pub fn poll(&mut self) -> (r: Option<&mut FutureObj<'static, ()>>)
        ensures
            r is Some <==> !old(self).is_ready(),
            r matches Some(f) ==> *f == old(self).future() && final(self).future() == *final(f),
            r is None ==> final(self).future() == old(self).future(),
            final(self).is_ready() == old(self).is_ready(),
    {
        match self.poll {
            PollState::Pending => Some(&mut self.future),
            PollState::Ready => None,
        }
    }

    /// Records the outcome of polling the future: once it has finished it
    /// stays finished.
    pub fn record_poll(&mut self, ready: bool)
        ensures
            final(self).is_ready() == (old(self).is_ready() || ready),
            final(self).future() == old(self).future(),
    {
        if ready {
            self.poll = PollState::Ready;
        }
    }
}

/// Calls `Mutex::new`. Nothing is claimed: what a lock holds can change
/// under any holder of it.
#[verifier::external_body]
fn mutex_new(value: TaskFuture) -> Mutex<TaskFuture> {
    Mutex::new(value)
}

/// Calls `Mutex::try_lock`, keeping the guard on success. Nothing is
/// claimed: whether the lock is free depends on other holders.
#[verifier::external_body]
fn mutex_try_lock(lock: &Mutex<TaskFuture>) -> Option<MutexGuard<'_, TaskFuture>> {
    lock.try_lock().ok()
}

/// The sending end of the channel on which tasks are scheduled.
#[verifier::external_body]
pub struct TaskSender {
    inner: Sender<Arc<Task>>,
}

/// Calls `std::sync::mpsc::channel`. Nothing is claimed: the channel is
/// opaque.
#[verifier::external_body]
fn task_channel() -> (TaskSender, Receiver<Arc<Task>>) {
    let (inner, receiver) = std::sync::mpsc::channel();
    (TaskSender { inner }, receiver)
}

/// Calls `Sender::send` and tells whether the task was sent. Nothing is
/// claimed: sending fails when the receiving end has been dropped.
#[verifier::external_body]
fn task_send(sender: &TaskSender, task: Arc<Task>) -> bool {
    sender.inner.send(task).is_ok()
}

/// Calls `Sender::clone`. Nothing is claimed: the sender is opaque.
#[verifier::external_body]
fn task_sender_clone(sender: &TaskSender) -> TaskSender {
    TaskSender { inner: sender.inner.clone() }
}

/// Why no task was received.
#[derive(Debug, PartialEq, Eq)]
pub enum RecvError {
    /// No task was scheduled within the timeout.
    Timeout,
    /// Every sender is gone.
    Disconnected,
}

/// Calls `Receiver::recv_timeout` with a timeout of `secs` seconds, telling
/// its two errors apart. Nothing is claimed: what arrives depends on the
/// senders and on time.
#[verifier::external_body]
fn task_recv_timeout(receiver: &Receiver<Arc<Task>>, secs: u64) -> Result<Arc<Task>, RecvError> {
    match receiver.recv_timeout(Duration::from_secs(secs)) {
        Ok(task) => Ok(task),
        Err(std::sync::mpsc::RecvTimeoutError::Timeout) => Err(RecvError::Timeout),
        Err(std::sync::mpsc::RecvTimeoutError::Disconnected) => Err(RecvError::Disconnected),
    }
}

/// A spawned future and the channel it is scheduled on when woken.
pub struct Task {
    task_future: Mutex<TaskFuture>,
    executor: TaskSender,
}

impl Task {
    /// Schedules the task on its executor's channel; false when the
    /// executor is gone.
    pub fn schedule(self: &Arc<Self>) -> bool {
        task_send(&self.executor, self.clone())
    }

    /// Locks the task's future for a poll; none when another poll holds it.
    pub fn lock_future(&self) -> Option<MutexGuard<'_, TaskFuture>> {
        mutex_try_lock(&self.task_future)
    }

    /// Wraps `future` in a task scheduled on `sender` and schedules it; a
    /// task for a gone executor is dropped.
    pub fn spawn(future: impl Future<Output = ()> + Send + 'static, sender: &TaskSender) {
        let task = Arc::new(
            Task { task_future: mutex_new(TaskFuture::new(future)), executor: task_sender_clone(sender) },
        );
        let _ = task_send(sender, task);
    }
}

/// How long the executor waits for a scheduled task before it stops, in
/// seconds.
pub const TIMEOUT: u64 = 5;

/// The executor: the channel of scheduled tasks.
pub struct MiniTokio {
    scheduled: Receiver<Arc<Task>>,
    sender: TaskSender,
}

impl MiniTokio {
    /// An executor with no tasks.
    pub fn new() -> MiniTokio {
        let (sender, scheduled) = task_channel();
        MiniTokio { scheduled, sender }
    }

    /// The next scheduled task, waiting at most [`TIMEOUT`] seconds.
    pub fn next_task(&self) -> Result<Arc<Task>, RecvError> {
        task_recv_timeout(&self.scheduled, TIMEOUT)
    }

    /// Spawns `future` as a task of this executor.
    pub fn spawn(&mut self, future: impl Future<Output = ()> + Send + 'static) {
        Task::spawn(future, &self.sender);
    }
}

} // verus!
