use vstd::prelude::*;

verus! {

/// The kind of a lifecycle event that an executor emits for one job.
#[derive(Clone, Copy, Debug, PartialEq, Eq, Structural)]
pub enum JobMessagePayload {
    JobStarted,
    RunStarted,
    RunFinished,
    RunFailed,
    JobFinished,
}

/// A lifecycle event: which job (its index in the batch), when (nanoseconds
/// since a fixed origin of a monotonic clock), and what happened.
#[derive(Clone, Copy, Debug, PartialEq, Eq, Structural)]
pub struct JobMessage {
    pub job: usize,
    pub timestamp: u64,
    pub kind: JobMessagePayload,
}

impl JobMessage {
    pub fn new(job: usize, timestamp: u64, kind: JobMessagePayload) -> (r: JobMessage)
        ensures
            r.job == job,
            r.timestamp == timestamp,
            r.kind == kind,
    {
        JobMessage { job, timestamp, kind }
    }
}

} // verus!
