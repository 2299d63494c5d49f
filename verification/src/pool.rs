//! The job queue of the worker pool: jobs in the order of their submission,
//! and behind them, once the pool shuts down, one sentinel for each worker.
//! The queue does not run anything; the workers that take from it do.

use std::collections::VecDeque;
use vstd::prelude::*;

verus! {

/// What a worker finds in the queue.
pub enum Message<J> {
    /// A job to run.
    NewJob(J),
    /// The sentinel: the worker that takes it stops.
    Terminate,
}

/// The number of sentinels in `queue`.
pub open spec fn sentinels<J>(queue: Seq<Message<J>>) -> nat
    decreases queue.len(),
{
    if queue.len() == 0 {
        0
    } else if queue.last() is Terminate {
        sentinels(queue.drop_last()) + 1
    } else {
        sentinels(queue.drop_last())
    }
}

/// True when no job stands behind a sentinel.
pub open spec fn jobs_first<J>(queue: Seq<Message<J>>) -> bool {
    forall|i: int, j: int|
        0 <= i <= j < queue.len() && queue[i] is Terminate ==> queue[j] is Terminate
}

/// The queue of a pool as plain values.
pub struct QueueModel<J> {
    /// What is waiting, the next to be taken first.
    pub pending: Seq<Message<J>>,
    /// The number of workers of the pool.
    pub workers: nat,
    /// True until the pool shuts down.
    pub open: bool,
}

impl<J> QueueModel<J> {
    /// The order of the queue: jobs stand before sentinels; an open queue
    /// holds no sentinel, and no queue holds more sentinels than the pool has
    /// workers.
    pub open spec fn well_formed(self) -> bool {
        &&& self.workers > 0
        &&& jobs_first(self.pending)
        &&& sentinels(self.pending) <= self.workers
        &&& self.open ==> sentinels(self.pending) == 0
    }

    /// The queue of a new pool.
    pub open spec fn start(workers: nat) -> QueueModel<J> {
        QueueModel { pending: Seq::empty(), workers, open: true }
    }

    /// The queue after `job` is submitted.
    pub open spec fn submit(self, job: J) -> QueueModel<J> {
        QueueModel { pending: self.pending.push(Message::NewJob(job)), ..self }
    }

    /// The queue after `count` sentinels are put behind what is waiting.
    pub open spec fn with_sentinels(self, count: nat) -> QueueModel<J>
        decreases count,
    {
        if count == 0 {
            self
        } else {
            let before = self.with_sentinels((count - 1) as nat);
            QueueModel { pending: before.pending.push(Message::Terminate), ..before }
        }
    }

    /// The queue after the pool shuts down: closed, with one sentinel for
    /// each worker behind the jobs. A closed queue stays as it is.
    pub open spec fn shut_down(self) -> QueueModel<J> {
        if self.open {
            QueueModel { open: false, ..self.with_sentinels(self.workers) }
        } else {
            self
        }
    }

    /// The queue after `jobs` are submitted, one after the other.
    pub open spec fn submit_all(self, jobs: Seq<J>) -> QueueModel<J>
        decreases jobs.len(),
    {
        if jobs.len() == 0 {
            self
        } else {
            self.submit_all(jobs.drop_last()).submit(jobs.last())
        }
    }

    /// The queue after a worker has taken the first message.
    pub open spec fn taken(self) -> QueueModel<J> {
        QueueModel { pending: self.pending.drop_first(), ..self }
    }
}

/// A job put behind a queue adds no sentinel.
pub proof fn lemma_sentinels_push<J>(queue: Seq<Message<J>>, message: Message<J>)
    ensures
        sentinels(queue.push(message)) == sentinels(queue) + (if message is Terminate {
            1nat
        } else {
            0nat
        }),
{
    assert(queue.push(message).drop_last() =~= queue);
}

/// Where a queue holds no sentinel, each of its messages is a job.
pub proof fn lemma_no_sentinel_means_jobs<J>(queue: Seq<Message<J>>)
    requires
        sentinels(queue) == 0,
    ensures
        forall|i: int| 0 <= i < queue.len() ==> #[trigger] queue[i] is NewJob,
    decreases queue.len(),
{
    if queue.len() > 0 {
        lemma_no_sentinel_means_jobs(queue.drop_last());
        assert forall|i: int| 0 <= i < queue.len() implies #[trigger] queue[i] is NewJob by {
            if i < queue.len() - 1 {
                assert(queue.drop_last()[i] == queue[i]);
            }
        }
    }
}

/// The sentinels of a queue are those of a part at its front and those of
/// the rest.
pub proof fn lemma_sentinels_split<J>(queue: Seq<Message<J>>, at: int)
    requires
        0 <= at <= queue.len(),
    ensures
        sentinels(queue) == sentinels(queue.take(at)) + sentinels(queue.skip(at)),
    decreases queue.len(),
{
    if at == queue.len() {
        assert(queue.take(at) =~= queue);
        assert(queue.skip(at) =~= Seq::<Message<J>>::empty());
    } else {
        lemma_sentinels_split(queue.drop_last(), at);
        assert(queue.drop_last().take(at) =~= queue.take(at));
        assert(queue.skip(at).drop_last() =~= queue.drop_last().skip(at));
    }
}

/// Sentinels put behind a well-formed open queue leave it in order, with
/// that many sentinels.
pub proof fn lemma_with_sentinels<J>(queue: QueueModel<J>, count: nat)
    requires
        queue.well_formed(),
        queue.open,
    ensures
        jobs_first(queue.with_sentinels(count).pending),
        sentinels(queue.with_sentinels(count).pending) == count,
        queue.with_sentinels(count).pending.len() == queue.pending.len() + count,
        queue.with_sentinels(count).pending.take(queue.pending.len() as int) == queue.pending,
        queue.with_sentinels(count).workers == queue.workers,
        queue.with_sentinels(count).open == queue.open,
    decreases count,
{
    if count > 0 {
        let before = queue.with_sentinels((count - 1) as nat);
        lemma_with_sentinels(queue, (count - 1) as nat);
        lemma_sentinels_push(before.pending, Message::Terminate);
        let after = before.pending.push(Message::Terminate);
        assert(after.take(queue.pending.len() as int) =~= before.pending.take(
            queue.pending.len() as int,
        ));
    } else {
        assert(queue.pending.take(queue.pending.len() as int) =~= queue.pending);
    }
}

/// Every step keeps the queue well formed: the submission of a job to an
/// open queue, the shutdown, and the taking of a message.
pub proof fn lemma_steps_keep_order<J>(queue: QueueModel<J>, job: J)
    requires
        queue.well_formed(),
    ensures
        queue.open ==> queue.submit(job).well_formed(),
        queue.shut_down().well_formed(),
        !queue.shut_down().open,
        queue.pending.len() > 0 ==> queue.taken().well_formed(),
{
    if queue.open {
        lemma_sentinels_push(queue.pending, Message::NewJob(job));
        lemma_no_sentinel_means_jobs(queue.pending);
        lemma_with_sentinels(queue, queue.workers);
    }
    if queue.pending.len() > 0 {
        lemma_sentinels_split(queue.pending, 1);
        assert(queue.pending.skip(1) =~= queue.pending.drop_first());
    }
}

/// Jobs are handed out in the order of their submission, each once, and
/// before any sentinel: after a shutdown the queue holds what was waiting,
/// unchanged and in its order, and behind it one sentinel for each worker.
pub proof fn lemma_shutdown_keeps_jobs<J>(queue: QueueModel<J>)
    requires
        queue.well_formed(),
        queue.open,
    ensures
        queue.shut_down().pending.len() == queue.pending.len() + queue.workers,
        queue.shut_down().pending.take(queue.pending.len() as int) == queue.pending,
        forall|i: int|
            0 <= i < queue.pending.len() ==> #[trigger] queue.shut_down().pending[i] is NewJob,
        forall|i: int|
            queue.pending.len() <= i < queue.shut_down().pending.len()
                ==> #[trigger] queue.shut_down().pending[i] is Terminate,
{
    lemma_with_sentinels(queue, queue.workers);
    lemma_no_sentinel_means_jobs(queue.pending);
    let closed = queue.shut_down().pending;
    let n = queue.pending.len() as int;
    lemma_sentinels_split(closed, n);
    assert forall|i: int| 0 <= i < n implies #[trigger] closed[i] is NewJob by {
        assert(closed.take(n)[i] == closed[i]);
    }
    assert forall|i: int| n <= i < closed.len() implies #[trigger] closed[i] is Terminate by {
        lemma_all_sentinels(closed.skip(n));
        assert(closed.skip(n)[i - n] == closed[i]);
    }
}

/// A queue with as many sentinels as messages holds sentinels only.
pub proof fn lemma_all_sentinels<J>(queue: Seq<Message<J>>)
    requires
        sentinels(queue) == queue.len(),
    ensures
        forall|i: int| 0 <= i < queue.len() ==> #[trigger] queue[i] is Terminate,
    decreases queue.len(),
{
    if queue.len() > 0 {
        lemma_sentinels_bound(queue.drop_last());
        lemma_all_sentinels(queue.drop_last());
        assert forall|i: int| 0 <= i < queue.len() implies #[trigger] queue[i] is Terminate by {
            if i < queue.len() - 1 {
                assert(queue.drop_last()[i] == queue[i]);
            }
        }
    }
}

/// A queue holds no more sentinels than messages.
pub proof fn lemma_sentinels_bound<J>(queue: Seq<Message<J>>)
    ensures
        sentinels(queue) <= queue.len(),
    decreases queue.len(),
{
    if queue.len() > 0 {
        lemma_sentinels_bound(queue.drop_last());
    }
}

/// Once every worker has taken its sentinel, no job is left: where the
/// messages taken so far, the first `taken` of a closed queue, hold all its
/// sentinels, and it has one at least, they are all its messages.
pub proof fn lemma_stopped_workers_leave_no_job<J>(queue: Seq<Message<J>>, taken: int)
    requires
        jobs_first(queue),
        0 <= taken <= queue.len(),
        sentinels(queue) > 0,
        sentinels(queue.take(taken)) == sentinels(queue),
    ensures
        taken == queue.len(),
{
    lemma_sentinels_split(queue, taken);
    if taken < queue.len() {
        let front = queue.take(taken);
        assert(exists|i: int| 0 <= i < front.len() && front[i] is Terminate) by {
            if forall|i: int| 0 <= i < front.len() ==> !(front[i] is Terminate) {
                lemma_jobs_have_no_sentinel(front);
            }
        }
        let i = choose|i: int| 0 <= i < front.len() && front[i] is Terminate;
        assert(queue[i] is Terminate);
        let rest = queue.skip(taken);
        assert(rest.last() == queue[queue.len() - 1]);
        assert(rest.last() is Terminate);
    }
}

/// A queue of jobs holds no sentinel.
pub proof fn lemma_jobs_have_no_sentinel<J>(queue: Seq<Message<J>>)
    requires
        forall|i: int| 0 <= i < queue.len() ==> !(queue[i] is Terminate),
    ensures
        sentinels(queue) == 0,
    decreases queue.len(),
{
    if queue.len() > 0 {
        assert forall|i: int| 0 <= i < queue.drop_last().len() implies !(queue.drop_last()[i]
            is Terminate) by {
            assert(queue.drop_last()[i] == queue[i]);
        }
        lemma_jobs_have_no_sentinel(queue.drop_last());
    }
}

/// Jobs submitted to a new pool wait in the order of their submission, each
/// once, and nothing else waits.
pub proof fn lemma_submitted_jobs_wait<J>(workers: nat, jobs: Seq<J>)
    requires
        workers > 0,
    ensures
        QueueModel::<J>::start(workers).submit_all(jobs).well_formed(),
        QueueModel::<J>::start(workers).submit_all(jobs).open,
        QueueModel::<J>::start(workers).submit_all(jobs).workers == workers,
        QueueModel::<J>::start(workers).submit_all(jobs).pending.len() == jobs.len(),
        forall|i: int|
            0 <= i < jobs.len() ==> #[trigger] QueueModel::<J>::start(workers).submit_all(
                jobs,
            ).pending[i] == Message::NewJob(jobs[i]),
    decreases jobs.len(),
{
    if jobs.len() > 0 {
        let before = QueueModel::<J>::start(workers).submit_all(jobs.drop_last());
        lemma_submitted_jobs_wait(workers, jobs.drop_last());
        lemma_steps_keep_order(before, jobs.last());
        let after = before.submit(jobs.last());
        assert forall|i: int| 0 <= i < jobs.len() implies #[trigger] after.pending[i]
            == Message::NewJob(jobs[i]) by {
            if i < jobs.len() - 1 {
                assert(after.pending[i] == before.pending[i]);
                assert(jobs.drop_last()[i] == jobs[i]);
            }
        }
    }
}

/// Every job is handed out exactly once: after the jobs are submitted to a
/// new pool and the pool shuts down, the queue holds each job once, in the
/// order of submission, and behind the jobs one sentinel for each worker. A
/// worker takes what stands first, so each job is taken once, before any
/// sentinel, and each worker finds one sentinel.
pub proof fn lemma_every_job_is_handed_out_once<J>(workers: nat, jobs: Seq<J>)
    requires
        workers > 0,
    ensures
        QueueModel::<J>::start(workers).submit_all(jobs).shut_down().well_formed(),
        QueueModel::<J>::start(workers).submit_all(jobs).shut_down().pending.len() == jobs.len()
            + workers,
        forall|i: int|
            0 <= i < jobs.len() ==> #[trigger] QueueModel::<J>::start(workers).submit_all(
                jobs,
            ).shut_down().pending[i] == Message::NewJob(jobs[i]),
        forall|i: int|
            jobs.len() <= i < jobs.len() + workers ==> #[trigger] QueueModel::<J>::start(
                workers,
            ).submit_all(jobs).shut_down().pending[i] is Terminate,
{
    let open = QueueModel::<J>::start(workers).submit_all(jobs);
    lemma_submitted_jobs_wait(workers, jobs);
    lemma_shutdown_keeps_jobs(open);
    let any: J = arbitrary();
    lemma_steps_keep_order(open, any);
    let closed = open.shut_down();
    assert forall|i: int| 0 <= i < jobs.len() implies #[trigger] closed.pending[i]
        == Message::NewJob(jobs[i]) by {
        assert(closed.pending.take(jobs.len() as int)[i] == closed.pending[i]);
        assert(open.pending[i] == Message::NewJob(jobs[i]));
    }
}

/// The job queue of a pool.
pub struct JobQueue<J> {
    pending: VecDeque<Message<J>>,
    workers: usize,
    open: bool,
}

impl<J> View for JobQueue<J> {
    type V = QueueModel<J>;

    closed spec fn view(&self) -> QueueModel<J> {
        QueueModel { pending: self.pending@, workers: self.workers as nat, open: self.open }
    }
}

impl<J> JobQueue<J> {
    /// The queue of a new pool of `size` workers: open and empty.
    pub fn new(size: usize) -> (queue: JobQueue<J>)
        requires
            size > 0,
        ensures
            queue@ == QueueModel::<J>::start(size as nat),
            queue@.well_formed(),
    {
        JobQueue { pending: VecDeque::new(), workers: size, open: true }
    }

    /// The number of workers of the pool.
    pub fn workers(&self) -> (count: usize)
        ensures
            count == self@.workers,
    {
        self.workers
    }

    /// Tells whether jobs can still be submitted.
    pub fn is_open(&self) -> (open: bool)
        ensures
            open == self@.open,
    {
        self.open
    }

    /// The number of messages that are waiting.
    pub fn len(&self) -> (count: usize)
        ensures
            count == self@.pending.len(),
    {
        self.pending.len()
    }

    /// Puts `job` behind what is waiting. The pool has not shut down.
    pub fn execute(&mut self, job: J)
        requires
            old(self)@.open,
        ensures
            final(self)@ == old(self)@.submit(job),
            old(self)@.well_formed() ==> final(self)@.well_formed(),
    {
        proof {
            if self@.well_formed() {
                lemma_steps_keep_order(self@, job);
            }
        }
        self.pending.push_back(Message::NewJob(job));
    }

    /// Shuts the pool down: no job is accepted any more, and one sentinel for
    /// each worker is put behind what is waiting. A second shutdown changes
    /// nothing.
    pub fn shutdown(&mut self)
        ensures
            final(self)@ == old(self)@.shut_down(),
            old(self)@.well_formed() ==> final(self)@.well_formed(),
            !final(self)@.open,
    {
        if self.open {
            let ghost start = self@;
            let mut sent: usize = 0;
            while sent < self.workers
                invariant
                    sent <= self.workers,
                    self@ == start.with_sentinels(sent as nat),
                    self.workers == start.workers,
                decreases self.workers - sent,
            {
                self.pending.push_back(Message::Terminate);
                sent = sent + 1;
            }
            self.open = false;
        }
        proof {
            if old(self)@.well_formed() {
                let any: J = arbitrary();
                lemma_steps_keep_order(old(self)@, any);
            }
        }
    }

    /// Takes the message that waited longest, if one is waiting.
    pub fn take(&mut self) -> (message: Option<Message<J>>)
        ensures
            match message {
                Some(first) => old(self)@.pending.len() > 0 && first == old(self)@.pending[0]
                    && final(self)@ == old(self)@.taken(),
                None => old(self)@.pending.len() == 0 && final(self)@ == old(self)@,
            },
            old(self)@.well_formed() ==> final(self)@.well_formed(),
    {
        proof {
            if self@.well_formed() {
                let any: J = arbitrary();
                lemma_steps_keep_order(self@, any);
            }
        }
        let message = self.pending.pop_front();
        proof {
            if old(self)@.pending.len() > 0 {
                assert(self@.pending =~= old(self)@.pending.drop_first());
            }
        }
        message
    }
}

} // verus!
