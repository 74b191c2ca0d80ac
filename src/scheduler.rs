//! The decisions of the scheduler: which job takes a free slot next, and what
//! an executor does next while it carries one job through its runs. The
//! threads, the channel and the external command stay with the caller, who
//! performs each action and reports back.
use vstd::prelude::*;

use crate::aggregator::{record_step, JobState, RecordView};
use crate::event::{JobMessage, JobMessagePayload};

verus! {

/// How many events of kind `k` the sequence `s` holds.
pub open spec fn count_kind(s: Seq<JobMessagePayload>, k: JobMessagePayload) -> nat
    decreases s.len(),
{
    if s.len() == 0 {
        0
    } else {
        count_kind(s.drop_last(), k) + if s.last() == k {
            1nat
        } else {
            0nat
        }
    }
}

proof fn lemma_count_push(s: Seq<JobMessagePayload>, x: JobMessagePayload, k: JobMessagePayload)
    ensures
        count_kind(s.push(x), k) == count_kind(s, k) + if x == k {
            1nat
        } else {
            0nat
        },
{
    assert(s.push(x).drop_last() =~= s);
}

/// Hands out the jobs of a batch, in order, each once, to at most
/// `parallel_jobs` slots at a time.
pub struct Dispatcher {
    nr_of_jobs: usize,
    parallel_jobs: usize,
    next: usize,
    running: usize,
}

impl Dispatcher {
    pub closed spec fn nr_of_jobs_spec(&self) -> nat {
        self.nr_of_jobs as nat
    }

    pub closed spec fn parallel_jobs_spec(&self) -> nat {
        self.parallel_jobs as nat
    }

    /// How many jobs have been handed out: jobs `0 .. dispatched` are.
    pub closed spec fn dispatched(&self) -> nat {
        self.next as nat
    }

    /// How many of the jobs handed out are still running.
    pub closed spec fn running(&self) -> nat {
        self.running as nat
    }

    /// How many of the jobs handed out have finished.
    pub open spec fn finished(&self) -> int {
        self.dispatched() - self.running()
    }

    pub closed spec fn wf(&self) -> bool {
        &&& 1 <= self.parallel_jobs
        &&& self.next <= self.nr_of_jobs
        &&& self.running <= self.next
        &&& self.running <= self.parallel_jobs
    }

    /// A dispatcher for `nr_of_jobs` jobs with `parallel_jobs` slots.
    pub fn new(nr_of_jobs: usize, parallel_jobs: usize) -> (r: Dispatcher)
        requires
            parallel_jobs >= 1,
        ensures
            r.wf(),
            r.nr_of_jobs_spec() == nr_of_jobs,
            r.parallel_jobs_spec() == parallel_jobs,
            r.dispatched() == 0,
            r.running() == 0,
    {
        Dispatcher { nr_of_jobs, parallel_jobs, next: 0, running: 0 }
    }

    /// The next job to start, if a slot is free and a job is left; that job
    /// then holds the slot until `job_finished`.
    pub fn next_job(&mut self) -> (r: Option<usize>)
        requires
            old(self).wf(),
        ensures
            final(self).wf(),
            final(self).nr_of_jobs_spec() == old(self).nr_of_jobs_spec(),
            final(self).parallel_jobs_spec() == old(self).parallel_jobs_spec(),
            old(self).running() < old(self).parallel_jobs_spec() && old(self).dispatched()
                < old(self).nr_of_jobs_spec() ==> r == Some(old(self).dispatched() as usize)
                && final(self).dispatched() == old(self).dispatched() + 1 && final(self).running()
                == old(self).running() + 1,
            !(old(self).running() < old(self).parallel_jobs_spec() && old(self).dispatched()
                < old(self).nr_of_jobs_spec()) ==> r is None && *final(self) == *old(self),
    {
        if self.running < self.parallel_jobs && self.next < self.nr_of_jobs {
            let j = self.next;
            self.next = self.next + 1;
            self.running = self.running + 1;
            Some(j)
        } else {
            None
        }
    }

    /// Frees the slot of a job that has finished.
    pub fn job_finished(&mut self)
        requires
            old(self).wf(),
            old(self).running() > 0,
        ensures
            final(self).wf(),
            final(self).nr_of_jobs_spec() == old(self).nr_of_jobs_spec(),
            final(self).parallel_jobs_spec() == old(self).parallel_jobs_spec(),
            final(self).dispatched() == old(self).dispatched(),
            final(self).running() == old(self).running() - 1,
    {
        self.running = self.running - 1;
    }

    /// The number of jobs that hold a slot.
    pub fn running_jobs(&self) -> (r: usize)
        ensures
            r == self.running(),
    {
        self.running
    }

    /// Whether every job has been handed out and has finished.
    pub fn is_done(&self) -> (r: bool)
        requires
            self.wf(),
        ensures
            r == (self.dispatched() == self.nr_of_jobs_spec() && self.running() == 0),
    {
        self.next == self.nr_of_jobs && self.running == 0
    }
}

/// No more jobs hold a slot than there are slots, and no job is handed out
/// twice: those handed out are the first `dispatched` of the batch.
pub proof fn lemma_slots_bounded(d: Dispatcher)
    requires
        d.wf(),
    ensures
        d.running() <= d.parallel_jobs_spec(),
        d.dispatched() <= d.nr_of_jobs_spec(),
        0 <= d.finished() <= d.dispatched(),
{
}

/// A job is handed out only once enough jobs before it have finished: job
/// `j` starts only after at least `j + 1 - parallel_jobs` jobs have finished.
pub proof fn lemma_start_waits_for_slot(d: Dispatcher, d2: Dispatcher, j: usize)
    requires
        d.wf(),
        d2.wf(),
        d.dispatched() == j,
        d2.dispatched() == j + 1,
        d2.running() == d.running() + 1,
        d2.parallel_jobs_spec() == d.parallel_jobs_spec(),
    ensures
        d.finished() >= j + 1 - d.parallel_jobs_spec(),
{
}

/// What an executor asks its caller to do next.
#[derive(Clone, Copy, Debug, PartialEq, Eq, Structural)]
pub enum ExecutorStep {
    /// Send an event of this kind for the job, stamped with the time now.
    Emit(JobMessagePayload),
    /// Run the external command once and report whether it succeeded.
    RunCommand,
    /// The job is over.
    Done,
}

#[derive(Clone, Copy, Debug, PartialEq, Eq, Structural)]
pub enum ExecutorPhase {
    NotStarted,
    Idle,
    Running,
    Finished,
}

/// Carries one job through `iterations` runs: the job starts, each run starts
/// and then finishes or fails as the command went, and the job finishes.
pub struct Executor {
    iterations: u32,
    runs_done: u32,
    phase: ExecutorPhase,
    emitted: Ghost<Seq<JobMessagePayload>>,
}

impl Executor {
    pub closed spec fn iterations_spec(&self) -> nat {
        self.iterations as nat
    }

    pub closed spec fn runs_done(&self) -> nat {
        self.runs_done as nat
    }

    pub closed spec fn phase(&self) -> ExecutorPhase {
        self.phase
    }

    /// The kinds of the events emitted so far, in order.
    pub closed spec fn emitted(&self) -> Seq<JobMessagePayload> {
        self.emitted@
    }

    pub closed spec fn wf(&self) -> bool {
        let e = self.emitted@;
        &&& self.runs_done <= self.iterations
        &&& (self.phase == ExecutorPhase::NotStarted <==> e.len() == 0)
        &&& e.len() > 0 ==> e[0] == JobMessagePayload::JobStarted
        &&& count_kind(e, JobMessagePayload::JobStarted) == if e.len() > 0 {
            1nat
        } else {
            0nat
        }
        &&& count_kind(e, JobMessagePayload::RunStarted) == self.runs_done + if self.phase
            == ExecutorPhase::Running {
            1nat
        } else {
            0nat
        }
        &&& count_kind(e, JobMessagePayload::RunFinished) + count_kind(
            e,
            JobMessagePayload::RunFailed,
        ) == self.runs_done
        &&& count_kind(e, JobMessagePayload::JobFinished) == if self.phase
            == ExecutorPhase::Finished {
            1nat
        } else {
            0nat
        }
        &&& self.phase == ExecutorPhase::Running ==> self.runs_done < self.iterations
            && e.last() == JobMessagePayload::RunStarted
        &&& self.phase == ExecutorPhase::Finished ==> self.runs_done == self.iterations
            && e.last() == JobMessagePayload::JobFinished
    }

    /// An executor for a job of `iterations` runs that has not started.
    pub fn new(iterations: u32) -> (r: Executor)
        ensures
            r.wf(),
            r.iterations_spec() == iterations,
            r.runs_done() == 0,
            r.phase() == ExecutorPhase::NotStarted,
            r.emitted() == Seq::<JobMessagePayload>::empty(),
    {
        Executor { iterations, runs_done: 0, phase: ExecutorPhase::NotStarted, emitted: Ghost(Seq::empty()) }
    }

    /// What to do next, where no command is in progress. A started job with
    /// runs left starts its next run; one with none left finishes.
    pub fn next_step(&mut self) -> (r: ExecutorStep)
        requires
            old(self).wf(),
        ensures
            final(self).wf(),
            final(self).iterations_spec() == old(self).iterations_spec(),
            match old(self).phase() {
                ExecutorPhase::NotStarted => r == ExecutorStep::Emit(JobMessagePayload::JobStarted)
                    && final(self).phase() == ExecutorPhase::Idle && final(self).runs_done() == 0,
                ExecutorPhase::Idle => if old(self).runs_done() < old(self).iterations_spec() {
                    r == ExecutorStep::Emit(JobMessagePayload::RunStarted) && final(self).phase()
                        == ExecutorPhase::Running && final(self).runs_done() == old(self).runs_done()
                } else {
                    r == ExecutorStep::Emit(JobMessagePayload::JobFinished) && final(self).phase()
                        == ExecutorPhase::Finished && final(self).runs_done() == old(self).runs_done()
                },
                ExecutorPhase::Running => r == ExecutorStep::RunCommand && *final(self) == *old(self),
                ExecutorPhase::Finished => r == ExecutorStep::Done && *final(self) == *old(self),
            },
            r matches ExecutorStep::Emit(k) ==> final(self).emitted() == old(self).emitted().push(k)
                && executor_step(*old(self), *final(self), k),
    {
        match self.phase {
            ExecutorPhase::NotStarted => {
                let k = JobMessagePayload::JobStarted;
                proof {
                    lemma_count_all(self.emitted@, k);
                }
                self.emit(k);
                self.phase = ExecutorPhase::Idle;
                ExecutorStep::Emit(k)
            },
            ExecutorPhase::Idle => {
                let k = if self.runs_done < self.iterations {
                    self.phase = ExecutorPhase::Running;
                    JobMessagePayload::RunStarted
                } else {
                    self.phase = ExecutorPhase::Finished;
                    JobMessagePayload::JobFinished
                };
                proof {
                    lemma_count_all(self.emitted@, k);
                }
                self.emit(k);
                ExecutorStep::Emit(k)
            },
            ExecutorPhase::Running => ExecutorStep::RunCommand,
            ExecutorPhase::Finished => ExecutorStep::Done,
        }
    }

    /// Records how the command of the run in progress went, and gives the
    /// kind of the event to send for it.
    pub fn run_ended(&mut self, succeeded: bool) -> (r: JobMessagePayload)
        requires
            old(self).wf(),
            old(self).phase() == ExecutorPhase::Running,
        ensures
            final(self).wf(),
            final(self).iterations_spec() == old(self).iterations_spec(),
            r == if succeeded {
                JobMessagePayload::RunFinished
            } else {
                JobMessagePayload::RunFailed
            },
            final(self).phase() == ExecutorPhase::Idle,
            final(self).runs_done() == old(self).runs_done() + 1,
            final(self).emitted() == old(self).emitted().push(r),
            executor_step(*old(self), *final(self), r),
    {
        let k = if succeeded {
            JobMessagePayload::RunFinished
        } else {
            JobMessagePayload::RunFailed
        };
        proof {
            lemma_count_all(self.emitted@, k);
        }
        self.emit(k);
        self.runs_done = self.runs_done + 1;
        self.phase = ExecutorPhase::Idle;
        k
    }

    fn emit(&mut self, k: JobMessagePayload)
        ensures
            final(self).emitted() == old(self).emitted().push(k),
            final(self).iterations == old(self).iterations,
            final(self).runs_done == old(self).runs_done,
            final(self).phase == old(self).phase,
    {
        self.emitted = Ghost(self.emitted@.push(k));
    }
}

proof fn lemma_count_all(s: Seq<JobMessagePayload>, x: JobMessagePayload)
    ensures
        forall|k: JobMessagePayload| #[trigger] count_kind(s.push(x), k) == count_kind(s, k) + if x == k {
            1nat
        } else {
            0nat
        },
        s.push(x).last() == x,
        s.len() > 0 ==> s.push(x)[0] == s[0],
{
    assert forall|k: JobMessagePayload| #[trigger] count_kind(s.push(x), k) == count_kind(s, k) + if x == k {
        1nat
    } else {
        0nat
    } by {
        lemma_count_push(s, x, k);
    }
}

/// `e2` follows from `e` by a step in which the executor emits an event of
/// kind `k`.
pub open spec fn executor_step(e: Executor, e2: Executor, k: JobMessagePayload) -> bool {
    &&& e2.iterations_spec() == e.iterations_spec()
    &&& match e.phase() {
        ExecutorPhase::NotStarted => k == JobMessagePayload::JobStarted && e2.phase()
            == ExecutorPhase::Idle && e2.runs_done() == 0,
        ExecutorPhase::Idle => if e.runs_done() < e.iterations_spec() {
            k == JobMessagePayload::RunStarted && e2.phase() == ExecutorPhase::Running
                && e2.runs_done() == e.runs_done()
        } else {
            k == JobMessagePayload::JobFinished && e2.phase() == ExecutorPhase::Finished
                && e2.runs_done() == e.runs_done()
        },
        ExecutorPhase::Running => (k == JobMessagePayload::RunFinished || k
            == JobMessagePayload::RunFailed) && e2.phase() == ExecutorPhase::Idle
            && e2.runs_done() == e.runs_done() + 1,
        ExecutorPhase::Finished => false,
    }
}

/// The aggregator's record `r` of a job is in step with the executor `e`
/// that carries it.
pub open spec fn agrees(e: Executor, r: RecordView) -> bool {
    match e.phase() {
        ExecutorPhase::NotStarted => r.state == JobState::NotStarted && r.runs.len() == 0,
        ExecutorPhase::Idle => r.state == JobState::Idle && r.runs.len() == e.runs_done(),
        ExecutorPhase::Running => r.state is Active && r.runs.len() == e.runs_done(),
        ExecutorPhase::Finished => r.state == JobState::Finished,
    }
}

/// The aggregator accepts every event that an executor emits, in order,
/// when both count the same iterations and clock readings do not go back:
/// the record that results is again in step with the executor.
pub proof fn lemma_executor_events_accepted(
    e: Executor,
    e2: Executor,
    k: JobMessagePayload,
    r: RecordView,
    job: usize,
    timestamp: u64,
)
    requires
        e.wf(),
        agrees(e, r),
        executor_step(e, e2, k),
        r.state matches JobState::Active(start) ==> start <= timestamp,
    ensures
        record_step(r, JobMessage { job, timestamp, kind: k }, e.iterations_spec()) matches Some(
            r2,
        ) && agrees(e2, r2),
{
}

/// Once an executor is done, its job started once and finished once, and it
/// started exactly `iterations` runs, each of which finished or failed.
pub proof fn lemma_executor_complete(e: Executor)
    requires
        e.wf(),
        e.phase() == ExecutorPhase::Finished,
    ensures
        count_kind(e.emitted(), JobMessagePayload::JobStarted) == 1,
        count_kind(e.emitted(), JobMessagePayload::JobFinished) == 1,
        e.emitted()[0] == JobMessagePayload::JobStarted,
        e.emitted().last() == JobMessagePayload::JobFinished,
        count_kind(e.emitted(), JobMessagePayload::RunStarted) == e.iterations_spec(),
        count_kind(e.emitted(), JobMessagePayload::RunFinished) + count_kind(
            e.emitted(),
            JobMessagePayload::RunFailed,
        ) == e.iterations_spec(),
{
}

} // verus!
