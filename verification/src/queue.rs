//! Units of work for a pool of workers, and the queue through which such a
//! pool takes work and is shut down. The queue makes an `spmc` channel and
//! keeps its sending end; the receiving end, and the worker threads that
//! pull from it, belong to the program that embeds the queue.

use vstd::prelude::*;

verus! {

/// A unit of work. It may yield one output, or none.
pub trait Task {
    type Output: Send;

    fn run(&self) -> Option<Self::Output>;
}

/// The sending end of an `spmc` channel. Nothing is known of what is
/// inside it.
#[verifier::external_type_specification]
#[verifier::external_body]
#[verifier::reject_recursive_types(T)]
pub struct ExSender<T: Send>(spmc::Sender<T>);

/// A receiving end of an `spmc` channel. Nothing is known of what is
/// inside it.
#[verifier::external_type_specification]
#[verifier::external_body]
#[verifier::reject_recursive_types(T)]
pub struct ExReceiver<T: Send>(spmc::Receiver<T>);

/// Why the queue did not take a task.
#[derive(Debug, Clone, Copy, PartialEq, Eq)]
pub enum QueueError {
    /// The intake was closed before the task was submitted.
    Closed,
    /// No worker listens on the intake any more.
    Disconnected,
}

/// A task that the pool did not take, and why.
#[derive(Debug)]
pub struct Rejected<T> {
    pub task: T,
    pub cause: QueueError,
}

/// The queue of a pool of workers: the sending end of the task channel,
/// for as long as the intake is open, and the number of workers that have
/// not been joined yet.
#[verifier::reject_recursive_types(TaskType)]
pub struct WorkQueue<TaskType: 'static + Task + Send> {
    send_tasks: Option<spmc::Sender<TaskType>>,
    live_workers: usize,
}

/// What a shutdown did and what it leaves to the owner of the worker
/// threads: whether it closed an intake that was still open, and how many
/// workers are to be joined once the tasks that still wait in the channel
/// have been thrown away.
#[derive(Debug, Clone, Copy)]
pub struct Shutdown {
    pub intake_was_open: bool,
    pub join_workers: usize,
}

/// What submitting `task` gives: a closed pool hands it back at once;
/// an open one hands it to the channel, which takes it (`sent` is `Ok`) or
/// hands it back.
pub open spec fn enqueue_outcome<T>(accepting: bool, task: T, sent: Result<(), T>) -> Result<
    (),
    Rejected<T>,
> {
    if !accepting {
        Err(Rejected { task, cause: QueueError::Closed })
    } else {
        match sent {
            Ok(_) => Ok(()),
            Err(back) => Err(Rejected { task: back, cause: QueueError::Disconnected }),
        }
    }
}

/// A pool after its shutdown: the intake is closed and no worker is left.
pub open spec fn is_shut_down<T: 'static + Task + Send>(s: WorkQueue<T>) -> bool {
    !s.accepting() && s.live_workers() == 0
}

/// Calls `spmc::Sender::send`, which either puts the task into the channel
/// or, when every receiver is gone, hands the same task back. Which of the
/// two happens depends on the other ends of the channel. Not proved: that
/// a task that comes back is the one that was sent.
#[verifier::external_body]
fn send_task<T: Send>(sender: &mut spmc::Sender<T>, task: T) -> (sent: Result<(), T>)
    ensures
        sent matches Err(back) ==> back == task,
{
    sender.send(task).map_err(|e| e.0)
}

/// Calls `spmc::channel`, which makes a new channel and hands back its two
/// ends.
#[verifier::external_body]
fn task_channel<T: Send>() -> (ends: (spmc::Sender<T>, spmc::Receiver<T>)) {
    spmc::channel()
}

impl<T: 'static + Task + Send> WorkQueue<T> {
    /// Whether the intake is open.
    pub closed spec fn accepting(&self) -> bool {
        self.send_tasks is Some
    }

    /// The number of workers that have not been joined yet.
    pub closed spec fn live_workers(&self) -> usize {
        self.live_workers
    }

    /// A queue for a pool of `n_workers` workers, with an open intake and
    /// nothing in it, and the end of its channel that the workers pull
    /// from.
    pub fn new(n_workers: usize) -> (made: (WorkQueue<T>, spmc::Receiver<T>))
        ensures
            made.0.accepting(),
            made.0.live_workers() == n_workers,
    {
        let (send_tasks, recv_tasks) = task_channel();
        (WorkQueue { send_tasks: Some(send_tasks), live_workers: n_workers }, recv_tasks)
    }

    /// Whether the intake is open.
    pub fn is_accepting(&self) -> (open: bool)
        ensures
            open == self.accepting(),
    {
        self.send_tasks.is_some()
    }

    /// The number of workers that have not been joined yet.
    pub fn workers(&self) -> (n: usize)
        ensures
            n == self.live_workers(),
    {
        self.live_workers
    }

    /// Hands a task to the workers. After a shutdown the task comes back
    /// at once with `Closed`; before it, the channel decides.
    pub fn enqueue(&mut self, task: T) -> (r: Result<(), Rejected<T>>)
        ensures
            final(self).accepting() == old(self).accepting(),
            final(self).live_workers() == old(self).live_workers(),
            !old(self).accepting() ==> r == Err::<(), Rejected<T>>(
                Rejected { task, cause: QueueError::Closed },
            ),
            exists|sent: Result<(), T>|
                (sent matches Err(back) ==> back == task) && r == enqueue_outcome(
                    old(self).accepting(),
                    task,
                    sent,
                ),
    {
        match &mut self.send_tasks {
            Some(sender) => {
                let sent = send_task(sender, task);
                let r = match sent {
                    Ok(_) => Ok(()),
                    Err(back) => Err(Rejected { task: back, cause: QueueError::Disconnected }),
                };
                assert(r == enqueue_outcome(true, task, sent));
                r
            },
            None => {
                let r = Err(Rejected { task, cause: QueueError::Closed });
                assert(r == enqueue_outcome(false, task, Ok::<(), T>(())));
                r
            },
        }
    }

    /// Shuts the pool down: closes the intake by dropping its sending end,
    /// and says what is left to do. Shutting down a pool that is shut down
    /// already closes nothing and leaves no worker to join.
    pub fn shutdown(&mut self) -> (todo: Shutdown)
        ensures
            is_shut_down(*final(self)),
            todo == (Shutdown {
                intake_was_open: old(self).accepting(),
                join_workers: old(self).live_workers(),
            }),
    {
        let todo = Shutdown {
            intake_was_open: self.send_tasks.is_some(),
            join_workers: self.live_workers,
        };
        self.send_tasks = None;
        self.live_workers = 0;
        todo
    }

    /// Whether a pool that is dropped in this state still has to be shut
    /// down: it has, unless a shutdown has closed its intake already.
    pub fn shutdown_on_drop(&self) -> (needed: bool)
        ensures
            needed == self.accepting(),
    {
        self.send_tasks.is_some()
    }
}

/// After a shutdown no worker is left alive, and no task is taken any
/// more: whatever the channel would have said, the task comes back at once
/// with `Closed`.
pub proof fn shutdown_is_final<T: 'static + Task + Send>(
    s: WorkQueue<T>,
    task: T,
    sent: Result<(), T>,
)
    requires
        is_shut_down(s),
    ensures
        s.live_workers() == 0,
        enqueue_outcome(s.accepting(), task, sent) == Err::<(), Rejected<T>>(
            Rejected { task, cause: QueueError::Closed },
        ),
{
}

} // verus!
