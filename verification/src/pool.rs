//! The rules of a worker pool: a fixed number of workers take messages
//! from the head of one queue. A message is a job or the signal to stop.
//! The pool decides what goes into the queue, and a worker decides what to
//! do with what it took out; the threads and the queue itself belong to
//! the program around this crate.

use crate::error::Error;
use vstd::prelude::*;

verus! {

/// What travels through the queue.
pub enum Message<J> {
    Job(J),
    Shutdown,
}

/// What a worker does with a message.
pub enum Step<J> {
    /// Run the job to its end, then take the next message.
    Run(J),
    /// Leave.
    Exit,
}

/// What a worker does with `message`.
pub open spec fn step_for<J>(message: Message<J>) -> Step<J> {
    match message {
        Message::Job(job) => Step::Run(job),
        Message::Shutdown => Step::Exit,
    }
}

/// What a worker does with `message`.
pub fn worker_step<J>(message: Message<J>) -> (step: Step<J>)
    ensures
        step == step_for(message),
{
    match message {
        Message::Job(job) => Step::Run(job),
        Message::Shutdown => Step::Exit,
    }
}

/// A pool of workers. Its size is the number of workers that are at work:
/// the number it was made with until it is shut down, and 0 from then on.
pub struct Pool {
    size: usize,
}

impl View for Pool {
    type V = usize;

    closed spec fn view(&self) -> usize {
        self.size
    }
}

impl Pool {
    /// Start a new pool of `size` workers. A pool of no workers is shut
    /// down from the start.
    pub fn new(size: usize) -> (pool: Pool)
        ensures
            pool@ == size,
    {
        Pool { size }
    }

    /// The number of workers at work.
    pub fn size(&self) -> (size: usize)
        ensures
            size == self@,
    {
        self.size
    }

    /// Whether the pool was shut down.
    pub fn is_closed(&self) -> (closed: bool)
        ensures
            closed == (self@ == 0),
    {
        self.size == 0
    }

    /// Schedule a new job onto the pool: gives the message to put at the
    /// end of the queue. A pool that was shut down takes no job.
    pub fn schedule<J>(&self, job: J) -> (r: Result<Message<J>, Error>)
        ensures
            r == if self@ == 0 {
                Err::<Message<J>, Error>(Error::PoolClosed)
            } else {
                Ok::<Message<J>, Error>(Message::Job(job))
            },
    {
        if self.size == 0 {
            return Err(Error::PoolClosed);
        }
        Ok(Message::Job(job))
    }

    /// Terminate the pool: gives the number of stop signals to put at the
    /// end of the queue, one for each worker, and closes the pool. The
    /// outstanding jobs are ahead of the signals and are still run.
    pub fn shutdown(&mut self) -> (signals: usize)
        ensures
            signals == old(self)@,
            final(self)@ == 0,
    {
        let signals: usize = self.size;
        self.size = 0;
        signals
    }
}

/// The number of stop signals in `queue`.
pub open spec fn signals_in<J>(queue: Seq<Message<J>>) -> nat
    decreases queue.len(),
{
    if queue.len() == 0 {
        0
    } else if queue[0] is Shutdown {
        signals_in(queue.drop_first()) + 1
    } else {
        signals_in(queue.drop_first())
    }
}

/// The jobs in `queue`, the oldest first.
pub open spec fn jobs_in<J>(queue: Seq<Message<J>>) -> Seq<J>
    decreases queue.len(),
{
    if queue.len() == 0 {
        Seq::empty()
    } else {
        match queue[0] {
            Message::Job(job) => seq![job] + jobs_in(queue.drop_first()),
            Message::Shutdown => jobs_in(queue.drop_first()),
        }
    }
}

/// The queue after `jobs` were scheduled and a pool of `workers` workers was
/// then shut down: the jobs, then one stop signal for each worker.
pub open spec fn queue_at_shutdown<J>(jobs: Seq<J>, workers: nat) -> Seq<Message<J>> {
    Seq::new(jobs.len(), |i: int| Message::Job(jobs[i])) + Seq::new(
        workers,
        |i: int| Message::Shutdown,
    )
}

/// A queue with the workers that take from it.
pub struct Floor<J> {
    /// The messages that wait, the oldest first.
    pub queue: Seq<Message<J>>,
    /// The number of workers that have not left.
    pub workers: nat,
    /// The jobs that were taken to be run, in the order in which they were
    /// taken.
    pub taken: Seq<J>,
}

impl<J> Floor<J> {
    /// Whether a message can be taken: one waits, and a worker is left to
    /// take it.
    pub open spec fn can_take(self) -> bool {
        self.queue.len() > 0 && self.workers > 0
    }

    /// The floor after a worker took the oldest message and did with it
    /// what `step_for` says.
    pub open spec fn take(self) -> Floor<J> {
        match step_for(self.queue[0]) {
            Step::Run(job) => Floor {
                queue: self.queue.drop_first(),
                taken: self.taken.push(job),
                ..self
            },
            Step::Exit => Floor {
                queue: self.queue.drop_first(),
                workers: (self.workers - 1) as nat,
                ..self
            },
        }
    }

    /// The floor when no message can be taken any more.
    pub open spec fn at_rest(self) -> Floor<J>
        decreases self.queue.len(),
    {
        if self.can_take() {
            self.take().at_rest()
        } else {
            self
        }
    }
}

/// A queue that ends in a stop signal holds one at least.
pub proof fn lemma_last_signal_counts<J>(queue: Seq<Message<J>>)
    requires
        queue.len() > 0,
        queue.last() is Shutdown,
    ensures
        signals_in(queue) >= 1,
    decreases queue.len(),
{
    if queue.len() > 1 {
        assert(queue.drop_first().last() == queue.last());
        lemma_last_signal_counts(queue.drop_first());
    }
}

/// Where the queue holds as many stop signals as there are workers, and
/// the last message is one of them, the workers come to rest with the
/// queue empty and every worker gone, and every job of the queue was taken
/// once, the oldest first.
pub proof fn lemma_signals_clear_the_floor<J>(floor: Floor<J>)
    requires
        signals_in(floor.queue) == floor.workers,
        floor.queue.len() > 0 ==> floor.queue.last() is Shutdown,
    ensures
        floor.at_rest().queue.len() == 0,
        floor.at_rest().workers == 0,
        floor.at_rest().taken == floor.taken + jobs_in(floor.queue),
    decreases floor.queue.len(),
{
    if floor.queue.len() == 0 {
        assert(floor.taken + jobs_in(floor.queue) =~= floor.taken);
    } else {
        lemma_last_signal_counts(floor.queue);
        let next = floor.take();
        if next.queue.len() > 0 {
            assert(next.queue.last() == floor.queue.last());
        }
        lemma_signals_clear_the_floor(next);
        assert(next.taken + jobs_in(next.queue) =~= floor.taken + jobs_in(floor.queue));
    }
}

/// The queue at shutdown holds the scheduled jobs in their order and one
/// stop signal for each worker, the last message being one of them.
pub proof fn lemma_queue_at_shutdown<J>(jobs: Seq<J>, workers: nat)
    ensures
        signals_in(queue_at_shutdown(jobs, workers)) == workers,
        jobs_in(queue_at_shutdown(jobs, workers)) == jobs,
        workers > 0 ==> queue_at_shutdown(jobs, workers).last() is Shutdown,
    decreases jobs.len(), workers,
{
    let queue = queue_at_shutdown(jobs, workers);
    if jobs.len() > 0 {
        lemma_queue_at_shutdown(jobs.drop_first(), workers);
        assert(queue.drop_first() =~= queue_at_shutdown(jobs.drop_first(), workers));
        assert(queue[0] == Message::Job(jobs[0]));
        assert(seq![jobs[0]] + jobs.drop_first() =~= jobs);
    } else if workers > 0 {
        lemma_queue_at_shutdown(jobs, (workers - 1) as nat);
        assert(queue.drop_first() =~= queue_at_shutdown(jobs, (workers - 1) as nat));
        assert(queue[0] is Shutdown);
    } else {
        assert(jobs =~= Seq::empty());
    }
}

/// After any number of jobs were scheduled on a pool of one worker or more
/// and the pool was then shut down, the workers, each taking the oldest
/// message in its turn and each job returning, come to rest with the queue
/// empty and every worker gone: whoever waits for the workers to leave is
/// not kept waiting. Every job was taken once, in the order of scheduling.
pub proof fn lemma_shutdown_ends<J>(jobs: Seq<J>, workers: nat)
    requires
        workers >= 1,
    ensures
        ({
            let rest = Floor {
                queue: queue_at_shutdown(jobs, workers),
                workers,
                taken: Seq::empty(),
            }.at_rest();
            &&& rest.queue.len() == 0
            &&& rest.workers == 0
            &&& rest.taken == jobs
        }),
{
    lemma_queue_at_shutdown(jobs, workers);
    let floor = Floor { queue: queue_at_shutdown(jobs, workers), workers, taken: Seq::empty() };
    lemma_signals_clear_the_floor(floor);
    assert(floor.taken + jobs =~= jobs);
}

} // verus!
