//! The timing aggregator: the single consumer of the lifecycle events. It keeps
//! one record per job, turns run start and finish timestamps into durations,
//! and hands each job's runs out once the job has finished.
use vstd::prelude::*;

use crate::event::{JobMessage, JobMessagePayload};

verus! {

/// Where a job stands in the aggregator's view of the event stream.
#[derive(Clone, Copy, Debug, PartialEq, Eq, Structural)]
pub enum JobState {
    /// No event of the job has been seen yet.
    NotStarted,
    /// The job has started and no run of it is in progress.
    Idle,
    /// A run of the job is in progress; it started at the given timestamp.
    Active(u64),
    /// The job has finished; its record has been handed out.
    Finished,
}

/// A job's record as the contracts see it: its state and the runs it has
/// completed so far (a duration in nanoseconds, or `None` for a failed run).
pub struct RecordView {
    pub state: JobState,
    pub runs: Seq<Option<u64>>,
}

/// A breach of the event protocol: the event that could not be applied.
#[derive(Clone, Copy, Debug, PartialEq, Eq, Structural)]
pub struct ProtocolViolation {
    pub job: usize,
    pub kind: JobMessagePayload,
}

/// What the aggregator reports for an event that it accepted.
#[derive(Debug)]
pub enum Progress {
    /// The job has started.
    JobStarted,
    /// A run has started; `run_nr` counts from 1.
    RunStarted { run_nr: usize },
    /// A run has finished after `duration` nanoseconds.
    RunFinished { run_nr: usize, duration: u64 },
    /// A run has failed.
    RunFailed { run_nr: usize },
    /// The job has finished; `completed` jobs have finished so far, and `runs`
    /// holds the outcome of each of this job's runs in run order.
    JobFinished { completed: usize, runs: Vec<Option<u64>> },
}

/// `Progress` with its runs as a sequence.
pub enum ProgressView {
    JobStarted,
    RunStarted { run_nr: nat },
    RunFinished { run_nr: nat, duration: u64 },
    RunFailed { run_nr: nat },
    JobFinished { completed: nat, runs: Seq<Option<u64>> },
}

impl View for Progress {
    type V = ProgressView;

    open spec fn view(&self) -> ProgressView {
        match self {
            Progress::JobStarted => ProgressView::JobStarted,
            Progress::RunStarted { run_nr } => ProgressView::RunStarted { run_nr: *run_nr as nat },
            Progress::RunFinished { run_nr, duration } => ProgressView::RunFinished {
                run_nr: *run_nr as nat,
                duration: *duration,
            },
            Progress::RunFailed { run_nr } => ProgressView::RunFailed { run_nr: *run_nr as nat },
            Progress::JobFinished { completed, runs } => ProgressView::JobFinished {
                completed: *completed as nat,
                runs: runs@,
            },
        }
    }
}

/// The record that follows from applying `m` to a job's record `r` with
/// `iterations` runs configured per job, or `None` where the event breaks the
/// protocol: a job starts once, a run starts only in a started job with no run
/// in progress and fewer than `iterations` runs behind it, a run ends only
/// while one is in progress (and not before it started), and a job finishes
/// only when no run is in progress and all its runs are done.
pub open spec fn record_step(r: RecordView, m: JobMessage, iterations: nat) -> Option<RecordView> {
    match m.kind {
        JobMessagePayload::JobStarted => if r.state == JobState::NotStarted {
            Some(RecordView { state: JobState::Idle, runs: Seq::empty() })
        } else {
            None
        },
        JobMessagePayload::RunStarted => if r.state == JobState::Idle && r.runs.len() < iterations {
            Some(RecordView { state: JobState::Active(m.timestamp), runs: r.runs })
        } else {
            None
        },
        JobMessagePayload::RunFinished => match r.state {
            JobState::Active(start) => if start <= m.timestamp {
                Some(
                    RecordView {
                        state: JobState::Idle,
                        runs: r.runs.push(Some((m.timestamp - start) as u64)),
                    },
                )
            } else {
                None
            },
            _ => None,
        },
        JobMessagePayload::RunFailed => match r.state {
            JobState::Active(_) => Some(
                RecordView { state: JobState::Idle, runs: r.runs.push(None) },
            ),
            _ => None,
        },
        JobMessagePayload::JobFinished => if r.state == JobState::Idle && r.runs.len()
            == iterations {
            Some(RecordView { state: JobState::Finished, runs: Seq::empty() })
        } else {
            None
        },
    }
}

/// What the aggregator reports when `m` is applied to the record `r`, with
/// `completed` jobs finished before it.
pub open spec fn progress_of(r: RecordView, m: JobMessage, completed: nat) -> ProgressView {
    match m.kind {
        JobMessagePayload::JobStarted => ProgressView::JobStarted,
        JobMessagePayload::RunStarted => ProgressView::RunStarted { run_nr: r.runs.len() + 1 },
        JobMessagePayload::RunFinished => match r.state {
            JobState::Active(start) => ProgressView::RunFinished {
                run_nr: r.runs.len() + 1,
                duration: (m.timestamp - start) as u64,
            },
            _ => ProgressView::RunFailed { run_nr: r.runs.len() + 1 },
        },
        JobMessagePayload::RunFailed => ProgressView::RunFailed { run_nr: r.runs.len() + 1 },
        JobMessagePayload::JobFinished => ProgressView::JobFinished {
            completed: completed + 1,
            runs: r.runs,
        },
    }
}

pub open spec fn is_finished(r: RecordView) -> bool {
    r.state == JobState::Finished
}

/// How many of the records `s` are of finished jobs.
pub open spec fn finished_count(s: Seq<RecordView>) -> nat
    decreases s.len(),
{
    if s.len() == 0 {
        0
    } else {
        finished_count(s.drop_last()) + if is_finished(s.last()) {
            1nat
        } else {
            0nat
        }
    }
}

pub proof fn lemma_finished_count_bound(s: Seq<RecordView>)
    ensures
        finished_count(s) <= s.len(),
        finished_count(s) == s.len() <==> forall|i: int| 0 <= i < s.len() ==> is_finished(#[trigger] s[i]),
    decreases s.len(),
{
    if s.len() > 0 {
        lemma_finished_count_bound(s.drop_last());
        if finished_count(s) == s.len() {
            assert forall|i: int| 0 <= i < s.len() implies is_finished(#[trigger] s[i]) by {
                if i < s.len() - 1 {
                    assert(s[i] == s.drop_last()[i]);
                }
            }
        }
        if forall|i: int| 0 <= i < s.len() ==> is_finished(#[trigger] s[i]) {
            assert forall|i: int| 0 <= i < s.drop_last().len() implies is_finished(
                #[trigger] s.drop_last()[i],
            ) by {
                assert(s[i] == s.drop_last()[i]);
            }
        }
    }
}

pub proof fn lemma_finished_count_update(s: Seq<RecordView>, i: int, r: RecordView)
    requires
        0 <= i < s.len(),
    ensures
        finished_count(s.update(i, r)) + (if is_finished(s[i]) { 1int } else { 0int })
            == finished_count(s) + (if is_finished(r) { 1int } else { 0int }),
    decreases s.len(),
{
    let t = s.update(i, r);
    if i == s.len() - 1 {
        assert(t.drop_last() =~= s.drop_last());
    } else {
        assert(t.drop_last() =~= s.drop_last().update(i, r));
        lemma_finished_count_update(s.drop_last(), i, r);
    }
}

/// The aggregator's table: one record per job of the batch, indexed by the
/// job's position, and the number of jobs that have finished.
pub struct Aggregator {
    iterations: u32,
    states: Vec<JobState>,
    runs: Vec<Vec<Option<u64>>>,
    completed: usize,
}

impl Aggregator {
    /// The records of all jobs, in job order.
    pub closed spec fn records(&self) -> Seq<RecordView> {
        Seq::new(self.states@.len(), |i: int| RecordView { state: self.states@[i], runs: self.runs@[i]@ })
    }

    pub closed spec fn iterations_spec(&self) -> nat {
        self.iterations as nat
    }

    pub closed spec fn completed_spec(&self) -> nat {
        self.completed as nat
    }

    pub closed spec fn wf(&self) -> bool {
        &&& self.states@.len() == self.runs@.len()
        &&& self.completed as nat == finished_count(self.records())
        &&& forall|i: int| 0 <= i < self.states@.len() ==> (#[trigger] self.runs@[i])@.len() <= self.iterations
        &&& forall|i: int| 0 <= i < self.states@.len() ==> (#[trigger] self.states@[i] is Active ==> self.runs@[i]@.len() < self.iterations)
    }

    /// A table for `nr_of_jobs` jobs, none of them started, each to be run
    /// `iterations` times.
    pub fn new(nr_of_jobs: usize, iterations: u32) -> (r: Aggregator)
        ensures
            r.wf(),
            r.iterations_spec() == iterations,
            r.completed_spec() == 0,
            r.records().len() == nr_of_jobs,
            forall|i: int| 0 <= i < nr_of_jobs ==> (#[trigger] r.records()[i]).state == JobState::NotStarted
                && r.records()[i].runs.len() == 0,
    {
        let mut states: Vec<JobState> = Vec::new();
        let mut runs: Vec<Vec<Option<u64>>> = Vec::new();
        let mut i: usize = 0;
        while i < nr_of_jobs
            invariant
                i <= nr_of_jobs,
                states@.len() == i,
                runs@.len() == i,
                forall|k: int| 0 <= k < i ==> #[trigger] states@[k] == JobState::NotStarted,
                forall|k: int| 0 <= k < i ==> (#[trigger] runs@[k])@.len() == 0,
            decreases nr_of_jobs - i,
        {
            states.push(JobState::NotStarted);
            runs.push(Vec::new());
            i = i + 1;
        }
        let r = Aggregator { iterations, states, runs, completed: 0 };
        proof {
            lemma_finished_count_zero(r.records());
        }
        r
    }

    /// The number of jobs in the batch.
    pub fn nr_of_jobs(&self) -> (r: usize)
        requires
            self.wf(),
        ensures
            r == self.records().len(),
    {
        self.states.len()
    }

    /// The number of jobs that have finished.
    pub fn completed(&self) -> (r: usize)
        requires
            self.wf(),
        ensures
            r == self.completed_spec(),
            r == finished_count(self.records()),
    {
        self.completed
    }

    /// Whether every job of the batch has finished.
    pub fn is_done(&self) -> (r: bool)
        requires
            self.wf(),
        ensures
            r == (self.completed_spec() == self.records().len()),
            r == forall|i: int| 0 <= i < self.records().len() ==> is_finished(#[trigger] self.records()[i]),
    {
        proof {
            lemma_finished_count_bound(self.records());
        }
        self.completed == self.states.len()
    }

    /// Applies one event to the table. An event that breaks the protocol (see
    /// `record_step`), or names a job outside the batch, is refused and leaves
    /// the table as it was.
    pub fn handle(&mut self, m: JobMessage) -> (r: Result<Progress, ProtocolViolation>)
        requires
            old(self).wf(),
        ensures
            final(self).wf(),
            final(self).iterations_spec() == old(self).iterations_spec(),
            final(self).records().len() == old(self).records().len(),
            m.job >= old(self).records().len() ==> r == Err::<Progress, ProtocolViolation>(
                ProtocolViolation { job: m.job, kind: m.kind },
            ) && *final(self) == *old(self),
            m.job < old(self).records().len() ==> match record_step(
                old(self).records()[m.job as int],
                m,
                old(self).iterations_spec(),
            ) {
                None => r == Err::<Progress, ProtocolViolation>(
                    ProtocolViolation { job: m.job, kind: m.kind },
                ) && *final(self) == *old(self),
                Some(next) => r is Ok && r->Ok_0@ == progress_of(
                    old(self).records()[m.job as int],
                    m,
                    old(self).completed_spec(),
                ) && final(self).records() == old(self).records().update(m.job as int, next)
                    && final(self).completed_spec() == old(self).completed_spec() + if m.kind
                    == JobMessagePayload::JobFinished {
                    1nat
                } else {
                    0nat
                },
            },
    {
        let j = m.job;
        let err = ProtocolViolation { job: m.job, kind: m.kind };
        if j >= self.states.len() {
            return Err(err);
        }
        let ghost old_records = self.records();
        let ghost iterations = self.iterations as nat;
        let state = self.states[j];
        let nr_runs = self.runs[j].len();
        let progress = match m.kind {
            JobMessagePayload::JobStarted => {
                if state != JobState::NotStarted {
                    return Err(err);
                }
                self.states[j] = JobState::Idle;
                let mut fresh: Vec<Option<u64>> = Vec::new();
                std::mem::swap(&mut fresh, &mut self.runs[j]);
                Progress::JobStarted
            },
            JobMessagePayload::RunStarted => {
                if state != JobState::Idle || nr_runs >= self.iterations as usize {
                    return Err(err);
                }
                self.states[j] = JobState::Active(m.timestamp);
                Progress::RunStarted { run_nr: nr_runs + 1 }
            },
            JobMessagePayload::RunFinished => {
                match state {
                    JobState::Active(start) => {
                        if start > m.timestamp {
                            return Err(err);
                        }
                        let duration = m.timestamp - start;
                        self.runs[j].push(Some(duration));
                        self.states[j] = JobState::Idle;
                        Progress::RunFinished { run_nr: nr_runs + 1, duration }
                    },
                    _ => {
                        return Err(err);
                    },
                }
            },
            JobMessagePayload::RunFailed => {
                match state {
                    JobState::Active(_) => {
                        self.runs[j].push(None);
                        self.states[j] = JobState::Idle;
                        Progress::RunFailed { run_nr: nr_runs + 1 }
                    },
                    _ => {
                        return Err(err);
                    },
                }
            },
            JobMessagePayload::JobFinished => {
                if state != JobState::Idle || nr_runs != self.iterations as usize {
                    return Err(err);
                }
                let mut runs: Vec<Option<u64>> = Vec::new();
                std::mem::swap(&mut runs, &mut self.runs[j]);
                self.states[j] = JobState::Finished;
                proof {
                    let next = RecordView { state: JobState::Finished, runs: Seq::empty() };
                    assert(self.records() =~= old_records.update(j as int, next));
                    lemma_finished_count_update(old_records, j as int, next);
                    lemma_finished_count_bound(self.records());
                }
                self.completed = self.completed + 1;
                Progress::JobFinished { completed: self.completed, runs }
            },
        };
        proof {
            let next = record_step(old_records[j as int], m, iterations).unwrap();
            assert(self.records() =~= old_records.update(j as int, next));
            lemma_finished_count_update(old_records, j as int, next);
        }
        Ok(progress)
    }
}

/// The completed-job counter counts exactly the jobs whose finish has been
/// applied, never exceeds the number of jobs, and reaches it exactly when
/// every job of the batch has finished; no job's record ever holds more runs
/// than the configured iterations.
pub proof fn lemma_completed_counts_finished_jobs(a: Aggregator)
    requires
        a.wf(),
    ensures
        a.completed_spec() == finished_count(a.records()),
        a.completed_spec() <= a.records().len(),
        a.completed_spec() == a.records().len() <==> forall|i: int|
            0 <= i < a.records().len() ==> is_finished(#[trigger] a.records()[i]),
        forall|i: int| 0 <= i < a.records().len() ==> (#[trigger] a.records()[i]).runs.len()
            <= a.iterations_spec(),
{
    lemma_finished_count_bound(a.records());
    assert forall|i: int| 0 <= i < a.records().len() implies (#[trigger] a.records()[i]).runs.len()
        <= a.iterations_spec() by {
        assert(a.runs@[i]@.len() <= a.iterations);
    }
}

/// A job's finish is accepted only once all of its runs have finished or
/// failed: the runs it reports number exactly the configured iterations.
pub proof fn lemma_finished_job_has_all_runs(r: RecordView, m: JobMessage, iterations: nat, completed: nat)
    requires
        m.kind == JobMessagePayload::JobFinished,
        record_step(r, m, iterations) is Some,
    ensures
        progress_of(r, m, completed) matches ProgressView::JobFinished { runs, .. } && runs.len()
            == iterations,
        r.state == JobState::Idle,
{
}

/// An accepted run finish records the time from the run's start to its
/// finish, which is never negative.
pub proof fn lemma_duration_is_elapsed(r: RecordView, m: JobMessage, iterations: nat, completed: nat)
    requires
        m.kind == JobMessagePayload::RunFinished,
        record_step(r, m, iterations) is Some,
    ensures
        r.state matches JobState::Active(start) && start <= m.timestamp && record_step(
            r,
            m,
            iterations,
        )->Some_0.runs == r.runs.push(Some((m.timestamp - start) as u64)) && progress_of(
            r,
            m,
            completed,
        ) == (ProgressView::RunFinished {
            run_nr: r.runs.len() + 1,
            duration: (m.timestamp - start) as u64,
        }),
{
}

/// The record that follows from applying the events `ms` in order to `r`, or
/// `None` where one of them breaks the protocol.
pub open spec fn apply_all(r: RecordView, ms: Seq<JobMessage>, iterations: nat) -> Option<RecordView>
    decreases ms.len(),
{
    if ms.len() == 0 {
        Some(r)
    } else {
        match apply_all(r, ms.drop_last(), iterations) {
            Some(r1) => record_step(r1, ms.last(), iterations),
            None => None,
        }
    }
}

/// Two records have the same shape: the same state up to when a run in
/// progress started, the same number of runs, and the same runs failed.
pub open spec fn same_shape(a: RecordView, b: RecordView) -> bool {
    &&& (a.state is Active <==> b.state is Active)
    &&& !(a.state is Active) ==> a.state == b.state
    &&& a.runs.len() == b.runs.len()
    &&& forall|i: int| 0 <= i < a.runs.len() ==> (#[trigger] a.runs[i] is None <==> b.runs[i] is None)
}

proof fn lemma_step_keeps_shape(a: RecordView, b: RecordView, ma: JobMessage, mb: JobMessage, iterations: nat)
    requires
        same_shape(a, b),
        ma.kind == mb.kind,
        record_step(a, ma, iterations) is Some,
        record_step(b, mb, iterations) is Some,
    ensures
        same_shape(record_step(a, ma, iterations)->Some_0, record_step(b, mb, iterations)->Some_0),
{
    let a2 = record_step(a, ma, iterations)->Some_0;
    let b2 = record_step(b, mb, iterations)->Some_0;
    if ma.kind == JobMessagePayload::RunFinished || ma.kind == JobMessagePayload::RunFailed {
        assert forall|i: int| 0 <= i < a2.runs.len() implies (#[trigger] a2.runs[i] is None
            <==> b2.runs[i] is None) by {
            if i < a.runs.len() {
                assert(a2.runs[i] == a.runs[i] && b2.runs[i] == b.runs[i]);
            }
        }
    }
}

/// Replaying a job's events with the same kinds, whatever their timestamps,
/// gives a record of the same shape: where the command behaves the same, a
/// job records the same number of runs, and fails the same ones, every time.
pub proof fn lemma_same_kinds_same_shape(
    r: RecordView,
    ms1: Seq<JobMessage>,
    ms2: Seq<JobMessage>,
    iterations: nat,
)
    requires
        ms1.len() == ms2.len(),
        forall|i: int| 0 <= i < ms1.len() ==> (#[trigger] ms1[i]).kind == ms2[i].kind,
        apply_all(r, ms1, iterations) is Some,
        apply_all(r, ms2, iterations) is Some,
    ensures
        same_shape(apply_all(r, ms1, iterations)->Some_0, apply_all(r, ms2, iterations)->Some_0),
    decreases ms1.len(),
{
    if ms1.len() > 0 {
        let p1 = ms1.drop_last();
        let p2 = ms2.drop_last();
        assert forall|i: int| 0 <= i < p1.len() implies (#[trigger] p1[i]).kind == p2[i].kind by {
            assert(p1[i] == ms1[i] && p2[i] == ms2[i]);
        }
        lemma_same_kinds_same_shape(r, p1, p2, iterations);
        lemma_step_keeps_shape(
            apply_all(r, p1, iterations)->Some_0,
            apply_all(r, p2, iterations)->Some_0,
            ms1.last(),
            ms2.last(),
            iterations,
        );
    }
}

pub proof fn lemma_finished_count_zero(s: Seq<RecordView>)
    requires
        forall|i: int| 0 <= i < s.len() ==> (#[trigger] s[i]).state == JobState::NotStarted,
    ensures
        finished_count(s) == 0,
    decreases s.len(),
{
    if s.len() > 0 {
        assert forall|i: int| 0 <= i < s.drop_last().len() implies (#[trigger] s.drop_last()[i]).state
            == JobState::NotStarted by {
            assert(s[i] == s.drop_last()[i]);
        }
        lemma_finished_count_zero(s.drop_last());
    }
}

} // verus!
