use vstd::prelude::*;

use crate::message::Message;

verus! {

/// Where a worker stands in its loop.
#[derive(PartialEq, Eq, Structural, Clone, Copy, Debug)]
pub enum WorkerState {
    /// Waiting for the next message.
    Idle,
    /// Running a job; takes no message until the job returns.
    Executing,
    /// Received its terminate signal; takes no message ever again.
    Terminated,
}

/// The record of one worker: its identity and its state.
#[derive(Clone, Copy, Debug)]
pub struct Worker {
    pub id: usize,
    pub state: WorkerState,
}

/// The state a worker moves to when it receives `msg` while idle.
pub open spec fn state_after_receive<J>(msg: Message<J>) -> WorkerState {
    match msg {
        Message::NewJob(_) => WorkerState::Executing,
        Message::Terminate => WorkerState::Terminated,
    }
}

impl Worker {
    /// A fresh worker with identity `id`, waiting for its first message.
    pub fn new(id: usize) -> (w: Worker)
        ensures
            w.id == id,
            w.state == WorkerState::Idle,
    {
        Worker { id, state: WorkerState::Idle }
    }

    /// An idle worker takes `msg`: a job makes it busy, a terminate signal
    /// stops it for good.
    pub fn receive<J>(&mut self, msg: &Message<J>)
        requires
            old(self).state == WorkerState::Idle,
        ensures
            final(self).id == old(self).id,
            final(self).state == state_after_receive(*msg),
    {
        self.state = if msg.is_terminate() {
            WorkerState::Terminated
        } else {
            WorkerState::Executing
        };
    }

    /// The job a busy worker was running has returned: it is idle again.
    pub fn finish_job(&mut self)
        requires
            old(self).state == WorkerState::Executing,
        ensures
            final(self).id == old(self).id,
            final(self).state == WorkerState::Idle,
    {
        self.state = WorkerState::Idle;
    }
}

} // verus!
