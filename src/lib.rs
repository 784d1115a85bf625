//! A fixed-size worker pool, described as the state that its threads share:
//! the dispatch queue of messages, one record per worker, and the lifecycle
//! of the pool. Every decision of the pool (who may take the next message,
//! when a submission is refused, how many terminate signals a shutdown
//! sends) is made here and verified; the threads that carry the decisions
//! out live outside this library.

pub mod message;
pub mod worker;
pub mod pool;

pub use message::{ConstructionError, Message, SubmissionError};
pub use pool::ThreadPool;
pub use worker::{Worker, WorkerState};
