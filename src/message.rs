use vstd::prelude::*;

verus! {

/// The unit carried by the dispatch queue: a job to run, or the signal that
/// tells the worker which takes it to stop.
pub enum Message<J> {
    NewJob(J),
    Terminate,
}

impl<J> Message<J> {
    pub fn is_terminate(&self) -> (r: bool)
        ensures
            r == (*self is Terminate),
    {
        match self {
            Message::NewJob(_) => false,
            Message::Terminate => true,
        }
    }
}

/// Why a pool could not be built.
#[derive(PartialEq, Eq, Structural, Clone, Copy, Debug)]
pub enum ConstructionError {
    /// A pool needs at least one worker to make progress.
    ZeroWorkers,
}

/// Why a job was not accepted.
#[derive(PartialEq, Eq, Structural, Clone, Copy, Debug)]
pub enum SubmissionError {
    /// The pool has begun to shut down; the job was not enqueued.
    ChannelClosed,
}

/// Number of `Terminate` messages among the first `n` messages of `s`.
pub open spec fn terminates_before<J>(s: Seq<Message<J>>, n: nat) -> nat
    decreases n,
{
    if n == 0 {
        0
    } else {
        terminates_before(s, (n - 1) as nat) + if s[n - 1] is Terminate {
            1nat
        } else {
            0nat
        }
    }
}

/// Number of jobs among the first `n` messages of `s`.
pub open spec fn jobs_before<J>(s: Seq<Message<J>>, n: nat) -> nat
    decreases n,
{
    if n == 0 {
        0
    } else {
        jobs_before(s, (n - 1) as nat) + if s[n - 1] is NewJob {
            1nat
        } else {
            0nat
        }
    }
}

} // verus!
