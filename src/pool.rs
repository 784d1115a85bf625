use vstd::prelude::*;

use std::collections::VecDeque;

use crate::message::{jobs_before, terminates_before, ConstructionError, Message, SubmissionError};
use crate::worker::{state_after_receive, Worker, WorkerState};

verus! {

/// Number of entries of `ws` equal to `s`.
pub open spec fn count_state(ws: Seq<WorkerState>, s: WorkerState) -> nat
    decreases ws.len(),
{
    if ws.len() == 0 {
        0
    } else {
        count_state(ws.drop_last(), s) + if ws.last() == s {
            1nat
        } else {
            0nat
        }
    }
}

/// `n` terminate signals in a row.
pub open spec fn terminate_signals<J>(n: nat) -> Seq<Message<J>> {
    Seq::new(n, |i: int| Message::Terminate)
}

/// The state that the threads of a pool share: the dispatch queue, one
/// record per worker, and whether shutdown has begun.
///
/// Besides the queue itself the pool keeps, as ghost state, every message
/// ever enqueued (`sent`), how many of them workers have taken (`taken`),
/// and how many taken jobs have returned (`finished`). The queue is always
/// the part of `sent` that no worker has taken yet.
#[verifier::reject_recursive_types(J)]
pub struct ThreadPool<J> {
    workers: Vec<Worker>,
    queue: VecDeque<Message<J>>,
    shutting_down: bool,
    sent: Ghost<Seq<Message<J>>>,
    taken: Ghost<nat>,
    finished: Ghost<nat>,
}

impl<J> ThreadPool<J> {
    /// The state of each worker, indexed by worker identity.
    pub closed spec fn states(&self) -> Seq<WorkerState> {
        self.workers@.map_values(|w: Worker| w.state)
    }

    /// Every message enqueued since the pool was built, in queue order.
    pub closed spec fn sent(&self) -> Seq<Message<J>> {
        self.sent@
    }

    /// How many messages of `sent()` workers have taken off the queue.
    pub closed spec fn taken(&self) -> nat {
        self.taken@
    }

    /// How many taken jobs have returned.
    pub closed spec fn finished(&self) -> nat {
        self.finished@
    }

    pub closed spec fn is_shutting_down(&self) -> bool {
        self.shutting_down
    }

    /// The messages waiting in the queue, oldest first.
    pub open spec fn pending(&self) -> Seq<Message<J>> {
        self.sent().subrange(self.taken() as int, self.sent().len() as int)
    }

    pub open spec fn all_terminated(&self) -> bool {
        forall|i: int| 0 <= i < self.states().len() ==> self.states()[i] == WorkerState::Terminated
    }

    /// Everything but the worker states and the finished count is as in `other`.
    pub open spec fn same_queue(&self, other: &Self) -> bool {
        &&& self.sent() == other.sent()
        &&& self.taken() == other.taken()
        &&& self.is_shutting_down() == other.is_shutting_down()
    }

    pub closed spec fn wf(&self) -> bool {
        &&& self.workers@.len() > 0
        &&& forall|i: int| 0 <= i < self.workers@.len() ==> self.workers@[i].id == i
        &&& self.taken@ <= self.sent@.len()
        &&& self.queue@ == self.sent@.subrange(self.taken@ as int, self.sent@.len() as int)
        &&& terminates_before(self.sent@, self.taken@) == count_state(
            self.states(),
            WorkerState::Terminated,
        )
        &&& jobs_before(self.sent@, self.taken@) == self.finished@ + count_state(
            self.states(),
            WorkerState::Executing,
        )
        &&& self.sent@.len() >= self.shutdown_mark()
        &&& forall|i: int|
            0 <= i < self.sent@.len() ==> (self.sent@[i] is Terminate <==> i >= self.shutdown_mark())
    }

    /// Where the terminate signals start in `sent`: its length until shutdown
    /// begins, after which the last `states().len()` messages are the signals.
    pub closed spec fn shutdown_mark(&self) -> nat {
        if self.shutting_down {
            (self.sent@.len() - self.workers@.len()) as nat
        } else {
            self.sent@.len()
        }
    }

    /// Builds the shared state of a pool of `thread_count` idle workers and
    /// an empty queue; fails when `thread_count` is zero.
    pub fn new(thread_count: usize) -> (r: Result<Self, ConstructionError>)
        ensures
            r is Err <==> thread_count == 0,
            r is Err ==> r == Err::<Self, ConstructionError>(ConstructionError::ZeroWorkers),
            r matches Ok(p) ==> {
                &&& p.wf()
                &&& p.states() == Seq::new(thread_count as nat, |i: int| WorkerState::Idle)
                &&& p.sent() == Seq::<Message<J>>::empty()
                &&& p.taken() == 0
                &&& p.finished() == 0
                &&& !p.is_shutting_down()
            },
    {
        if thread_count == 0 {
            return Err(ConstructionError::ZeroWorkers);
        }
        let mut workers: Vec<Worker> = Vec::with_capacity(thread_count);
        let mut id: usize = 0;
        while id < thread_count
            invariant
                id <= thread_count,
                workers@.len() == id,
                forall|i: int|
                    0 <= i < id ==> workers@[i].id == i && workers@[i].state == WorkerState::Idle,
            decreases thread_count - id,
        {
            workers.push(Worker::new(id));
            id = id + 1;
        }
        let pool = ThreadPool {
            workers,
            queue: VecDeque::new(),
            shutting_down: false,
            sent: Ghost(Seq::empty()),
            taken: Ghost(0),
            finished: Ghost(0),
        };
        proof {
            assert(pool.states() =~= Seq::new(thread_count as nat, |i: int| WorkerState::Idle));
            lemma_count_none(pool.states(), WorkerState::Terminated);
            lemma_count_none(pool.states(), WorkerState::Executing);
            assert(pool.queue@ =~= pool.sent@.subrange(0, 0));
        }
        Ok(pool)
    }

    /// Enqueues `job` behind every message already waiting, unless shutdown
    /// has begun, in which case the job is refused and nothing changes.
    pub fn execute(&mut self, job: J) -> (r: Result<(), SubmissionError>)
        requires
            old(self).wf(),
        ensures
            final(self).wf(),
            r is Err <==> old(self).is_shutting_down(),
            r is Err ==> r == Err::<(), SubmissionError>(SubmissionError::ChannelClosed),
            final(self).states() == old(self).states(),
            final(self).taken() == old(self).taken(),
            final(self).finished() == old(self).finished(),
            final(self).is_shutting_down() == old(self).is_shutting_down(),
            r is Ok ==> final(self).sent() == old(self).sent().push(Message::NewJob(job)),
            r is Err ==> final(self).sent() == old(self).sent(),
    {
        if self.shutting_down {
            return Err(SubmissionError::ChannelClosed);
        }
        let msg = Message::NewJob(job);
        proof {
            lemma_prefix_counts(self.sent@, self.sent@.push(msg), self.taken@);
        }
        self.sent = Ghost(self.sent@.push(msg));
        self.queue.push_back(msg);
        assert(self.queue@ =~= self.sent@.subrange(self.taken@ as int, self.sent@.len() as int));
        Ok(())
    }

    /// Worker `id` asks for its next message. An idle worker takes the
    /// oldest waiting message: a job makes it busy, a terminate signal stops
    /// it. A busy, stopped or unknown worker, or an empty queue, gets `None`
    /// and nothing changes.
    pub fn next_message(&mut self, id: usize) -> (r: Option<Message<J>>)
        requires
            old(self).wf(),
        ensures
            final(self).wf(),
            final(self).sent() == old(self).sent(),
            final(self).finished() == old(self).finished(),
            final(self).is_shutting_down() == old(self).is_shutting_down(),
            ({
                let ready = id < old(self).states().len() && old(self).states()[id as int]
                    == WorkerState::Idle && old(self).taken() < old(self).sent().len();
                if ready {
                    &&& r == Some(old(self).sent()[old(self).taken() as int])
                    &&& final(self).taken() == old(self).taken() + 1
                    &&& final(self).states() == old(self).states().update(
                        id as int,
                        state_after_receive(old(self).sent()[old(self).taken() as int]),
                    )
                } else {
                    &&& r is None
                    &&& final(self).taken() == old(self).taken()
                    &&& final(self).states() == old(self).states()
                }
            }),
    {
        if id >= self.workers.len() || self.workers[id].state != WorkerState::Idle {
            return None;
        }
        let ghost pre_states = self.states();
        match self.queue.pop_front() {
            None => None,
            Some(msg) => {
                let mut w = self.workers[id];
                w.receive(&msg);
                self.workers[id] = w;
                proof {
                    let ws = self.states();
                    assert(ws =~= pre_states.update(id as int, w.state));
                    lemma_count_update(pre_states, id as int, w.state, WorkerState::Terminated);
                    lemma_count_update(pre_states, id as int, w.state, WorkerState::Executing);
                    self.taken@ = self.taken@ + 1;
                }
                assert(self.queue@ =~= self.sent@.subrange(
                    self.taken@ as int,
                    self.sent@.len() as int,
                ));
                Some(msg)
            },
        }
    }

    /// The job that worker `id` was running has returned: the worker is
    /// idle again. Returns `false`, changing nothing, when worker `id` does
    /// not exist or was not running a job.
    pub fn job_done(&mut self, id: usize) -> (r: bool)
        requires
            old(self).wf(),
        ensures
            final(self).wf(),
            final(self).same_queue(old(self)),
            r == (id < old(self).states().len() && old(self).states()[id as int]
                == WorkerState::Executing),
            r ==> final(self).states() == old(self).states().update(id as int, WorkerState::Idle),
            r ==> final(self).finished() == old(self).finished() + 1,
            !r ==> final(self).states() == old(self).states(),
            !r ==> final(self).finished() == old(self).finished(),
    {
        if id >= self.workers.len() || self.workers[id].state != WorkerState::Executing {
            return false;
        }
        let ghost pre_states = self.states();
        let mut w = self.workers[id];
        w.finish_job();
        self.workers[id] = w;
        proof {
            assert(self.states() =~= pre_states.update(id as int, WorkerState::Idle));
            lemma_count_update(pre_states, id as int, WorkerState::Idle, WorkerState::Terminated);
            lemma_count_update(pre_states, id as int, WorkerState::Idle, WorkerState::Executing);
            self.finished@ = self.finished@ + 1;
        }
        true
    }

    /// Begins shutdown: appends exactly one terminate signal per worker
    /// behind every waiting message, and returns `true`. Once shutdown has
    /// begun a further call sends nothing and returns `false`.
    pub fn shutdown(&mut self) -> (r: bool)
        requires
            old(self).wf(),
        ensures
            final(self).wf(),
            r == !old(self).is_shutting_down(),
            final(self).is_shutting_down(),
            final(self).states() == old(self).states(),
            final(self).taken() == old(self).taken(),
            final(self).finished() == old(self).finished(),
            r ==> final(self).sent() == old(self).sent() + terminate_signals::<J>(
                old(self).states().len(),
            ),
            !r ==> final(self).sent() == old(self).sent(),
    {
        if self.shutting_down {
            return false;
        }
        let n = self.workers.len();
        let ghost pre = self.sent@;
        let mut k: usize = 0;
        while k < n
            invariant
                k <= n,
                n == self.workers@.len(),
                self.workers@ == old(self).workers@,
                self.taken@ == old(self).taken@,
                self.finished@ == old(self).finished@,
                !self.shutting_down,
                pre == old(self).sent@,
                self.sent@ == pre + terminate_signals::<J>(k as nat),
                self.queue@ == self.sent@.subrange(self.taken@ as int, self.sent@.len() as int),
                self.taken@ <= pre.len(),
            decreases n - k,
        {
            let ghost before = self.sent@;
            self.sent = Ghost(self.sent@.push(Message::Terminate));
            self.queue.push_back(Message::Terminate);
            k = k + 1;
            assert(self.sent@ =~= pre + terminate_signals::<J>(k as nat));
            assert(self.queue@ =~= self.sent@.subrange(
                self.taken@ as int,
                self.sent@.len() as int,
            ));
        }
        self.shutting_down = true;
        proof {
            lemma_prefix_counts(pre, self.sent@, self.taken@);
        }
        true
    }

    /// Whether every worker has received its terminate signal.
    pub fn is_stopped(&self) -> (r: bool)
        requires
            self.wf(),
        ensures
            r == self.all_terminated(),
    {
        let mut i: usize = 0;
        while i < self.workers.len()
            invariant
                i <= self.workers@.len(),
                forall|j: int| 0 <= j < i ==> self.states()[j] == WorkerState::Terminated,
            decreases self.workers@.len() - i,
        {
            if self.workers[i].state != WorkerState::Terminated {
                assert(self.states()[i as int] != WorkerState::Terminated);
                return false;
            }
            i = i + 1;
        }
        true
    }

    /// The number of workers, fixed when the pool was built.
    pub fn worker_count(&self) -> (n: usize)
        requires
            self.wf(),
        ensures
            n == self.states().len(),
            n > 0,
    {
        self.workers.len()
    }
}

/// Once every worker has stopped, the pool has run its whole history: every
/// message ever enqueued was taken off the queue exactly once, in order, and
/// every job among them returned. So for any number of workers and of
/// accepted jobs, each job ran once, none was skipped.
pub proof fn lemma_stopped_pool_ran_every_job<J>(p: &ThreadPool<J>)
    requires
        p.wf(),
        p.all_terminated(),
    ensures
        p.is_shutting_down(),
        p.taken() == p.sent().len(),
        p.pending().len() == 0,
        p.finished() == jobs_before(p.sent(), p.sent().len()),
{
    lemma_count_all(p.states(), WorkerState::Terminated);
    lemma_count_none(p.states(), WorkerState::Executing);
    lemma_split_counts(p.sent@, p.shutdown_mark(), p.taken@);
}

/// Drain before stop: terminate signals queue up behind every accepted job,
/// so as soon as any worker has stopped, every job that was ever accepted,
/// including those still waiting when shutdown began, has been taken by
/// some worker.
pub proof fn lemma_jobs_drain_before_stop<J>(p: &ThreadPool<J>, w: int)
    requires
        p.wf(),
        0 <= w < p.states().len(),
        p.states()[w] == WorkerState::Terminated,
    ensures
        forall|i: int| 0 <= i < p.sent().len() && p.sent()[i] is NewJob ==> i < p.taken(),
{
    lemma_count_some(p.states(), WorkerState::Terminated, w);
    lemma_split_counts(p.sent@, p.shutdown_mark(), p.taken@);
}

/// With a single worker, jobs run one after another in queue order: whenever
/// that worker is not running a job (the only time it can be handed one),
/// every job taken before has already returned.
pub proof fn lemma_single_worker_serializes<J>(p: &ThreadPool<J>)
    requires
        p.wf(),
        p.states().len() == 1,
        p.states()[0] != WorkerState::Executing,
    ensures
        p.finished() == jobs_before(p.sent(), p.taken()),
{
    lemma_count_none(p.states(), WorkerState::Executing);
}

/// No entry equal to `s`: the count is zero.
proof fn lemma_count_none(ws: Seq<WorkerState>, s: WorkerState)
    requires
        forall|i: int| 0 <= i < ws.len() ==> ws[i] != s,
    ensures
        count_state(ws, s) == 0,
    decreases ws.len(),
{
    if ws.len() > 0 {
        lemma_count_none(ws.drop_last(), s);
    }
}

/// Every entry equal to `s`: the count is the length.
proof fn lemma_count_all(ws: Seq<WorkerState>, s: WorkerState)
    requires
        forall|i: int| 0 <= i < ws.len() ==> ws[i] == s,
    ensures
        count_state(ws, s) == ws.len(),
    decreases ws.len(),
{
    if ws.len() > 0 {
        lemma_count_all(ws.drop_last(), s);
    }
}

/// One entry equal to `s`: the count is positive.
proof fn lemma_count_some(ws: Seq<WorkerState>, s: WorkerState, k: int)
    requires
        0 <= k < ws.len(),
        ws[k] == s,
    ensures
        count_state(ws, s) > 0,
    decreases ws.len(),
{
    if k < ws.len() - 1 {
        lemma_count_some(ws.drop_last(), s, k);
    }
}

/// Changing one entry changes each count by what left and what came in.
proof fn lemma_count_update(ws: Seq<WorkerState>, k: int, v: WorkerState, s: WorkerState)
    requires
        0 <= k < ws.len(),
    ensures
        count_state(ws.update(k, v), s) + (if ws[k] == s {
            1int
        } else {
            0int
        }) == count_state(ws, s) + (if v == s {
            1int
        } else {
            0int
        }),
    decreases ws.len(),
{
    let u = ws.update(k, v);
    if k < ws.len() - 1 {
        assert(u.drop_last() =~= ws.drop_last().update(k, v));
        lemma_count_update(ws.drop_last(), k, v, s);
    } else {
        assert(u.drop_last() =~= ws.drop_last());
    }
}

/// Two sequences that agree on their first `n` messages count alike there.
proof fn lemma_prefix_counts<J>(s1: Seq<Message<J>>, s2: Seq<Message<J>>, n: nat)
    requires
        n <= s1.len(),
        n <= s2.len(),
        forall|i: int| 0 <= i < n ==> s1[i] == s2[i],
    ensures
        terminates_before(s1, n) == terminates_before(s2, n),
        jobs_before(s1, n) == jobs_before(s2, n),
    decreases n,
{
    if n > 0 {
        lemma_prefix_counts(s1, s2, (n - 1) as nat);
    }
}

/// In a sequence of jobs followed by terminate signals from index `m` on,
/// the first `n` messages hold `min(n, m)` jobs and the rest signals.
proof fn lemma_split_counts<J>(s: Seq<Message<J>>, m: nat, n: nat)
    requires
        n <= s.len(),
        forall|i: int| 0 <= i < s.len() ==> (s[i] is Terminate <==> i >= m),
    ensures
        jobs_before(s, n) == if n > m {
            m
        } else {
            n
        },
        terminates_before(s, n) == if n > m {
            (n - m) as nat
        } else {
            0
        },
    decreases n,
{
    if n > 0 {
        lemma_split_counts(s, m, (n - 1) as nat);
    }
}

} // verus!
