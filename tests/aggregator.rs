use proof_bench::aggregator::{Aggregator, Progress, ProtocolViolation};
use proof_bench::event::{JobMessage, JobMessagePayload};

use JobMessagePayload::{JobFinished, JobStarted, RunFailed, RunFinished, RunStarted};

fn msg(job: usize, timestamp: u64, kind: JobMessagePayload) -> JobMessage {
    JobMessage::new(job, timestamp, kind)
}

#[test]
fn full_job_reports_each_step() {
    let mut a = Aggregator::new(1, 2);
    assert!(matches!(a.handle(msg(0, 0, JobStarted)), Ok(Progress::JobStarted)));
    assert!(matches!(a.handle(msg(0, 10, RunStarted)), Ok(Progress::RunStarted { run_nr: 1 })));
    assert!(matches!(
        a.handle(msg(0, 35, RunFinished)),
        Ok(Progress::RunFinished { run_nr: 1, duration: 25 })
    ));
    assert!(matches!(a.handle(msg(0, 40, RunStarted)), Ok(Progress::RunStarted { run_nr: 2 })));
    assert!(matches!(a.handle(msg(0, 41, RunFailed)), Ok(Progress::RunFailed { run_nr: 2 })));
    assert!(!a.is_done());
    match a.handle(msg(0, 50, JobFinished)) {
        Ok(Progress::JobFinished { completed, runs }) => {
            assert_eq!(completed, 1);
            assert_eq!(runs, vec![Some(25), None]);
        }
        other => panic!("unexpected {:?}", other),
    }
    assert!(a.is_done());
    assert_eq!(a.completed(), 1);
}

#[test]
fn zero_duration_run_is_recorded() {
    let mut a = Aggregator::new(1, 1);
    a.handle(msg(0, 5, JobStarted)).unwrap();
    a.handle(msg(0, 7, RunStarted)).unwrap();
    assert!(matches!(
        a.handle(msg(0, 7, RunFinished)),
        Ok(Progress::RunFinished { run_nr: 1, duration: 0 })
    ));
}

#[test]
fn interleaved_jobs_are_kept_apart() {
    let mut a = Aggregator::new(2, 1);
    a.handle(msg(1, 0, JobStarted)).unwrap();
    a.handle(msg(0, 1, JobStarted)).unwrap();
    a.handle(msg(1, 2, RunStarted)).unwrap();
    a.handle(msg(0, 3, RunStarted)).unwrap();
    a.handle(msg(0, 10, RunFinished)).unwrap();
    a.handle(msg(1, 20, RunFinished)).unwrap();
    match a.handle(msg(1, 21, JobFinished)) {
        Ok(Progress::JobFinished { completed, runs }) => {
            assert_eq!(completed, 1);
            assert_eq!(runs, vec![Some(18)]);
        }
        other => panic!("unexpected {:?}", other),
    }
    assert!(!a.is_done());
    match a.handle(msg(0, 22, JobFinished)) {
        Ok(Progress::JobFinished { completed, runs }) => {
            assert_eq!(completed, 2);
            assert_eq!(runs, vec![Some(7)]);
        }
        other => panic!("unexpected {:?}", other),
    }
    assert!(a.is_done());
}

#[test]
fn empty_batch_is_done_at_once() {
    let a = Aggregator::new(0, 3);
    assert!(a.is_done());
    assert_eq!(a.nr_of_jobs(), 0);
}

fn violation(job: usize, kind: JobMessagePayload) -> ProtocolViolation {
    ProtocolViolation { job, kind }
}

#[test]
fn job_started_twice_is_refused() {
    let mut a = Aggregator::new(1, 1);
    a.handle(msg(0, 0, JobStarted)).unwrap();
    assert_eq!(a.handle(msg(0, 1, JobStarted)).unwrap_err(), violation(0, JobStarted));
}

#[test]
fn run_before_job_start_is_refused() {
    let mut a = Aggregator::new(1, 1);
    assert_eq!(a.handle(msg(0, 1, RunStarted)).unwrap_err(), violation(0, RunStarted));
}

#[test]
fn run_started_twice_is_refused() {
    let mut a = Aggregator::new(1, 2);
    a.handle(msg(0, 0, JobStarted)).unwrap();
    a.handle(msg(0, 1, RunStarted)).unwrap();
    assert_eq!(a.handle(msg(0, 2, RunStarted)).unwrap_err(), violation(0, RunStarted));
}

#[test]
fn run_end_without_start_is_refused() {
    let mut a = Aggregator::new(1, 1);
    a.handle(msg(0, 0, JobStarted)).unwrap();
    assert_eq!(a.handle(msg(0, 1, RunFinished)).unwrap_err(), violation(0, RunFinished));
    assert_eq!(a.handle(msg(0, 1, RunFailed)).unwrap_err(), violation(0, RunFailed));
}

#[test]
fn run_finishing_before_its_start_is_refused() {
    let mut a = Aggregator::new(1, 1);
    a.handle(msg(0, 0, JobStarted)).unwrap();
    a.handle(msg(0, 10, RunStarted)).unwrap();
    assert_eq!(a.handle(msg(0, 9, RunFinished)).unwrap_err(), violation(0, RunFinished));
    // the refused event left the run in progress
    assert!(matches!(
        a.handle(msg(0, 12, RunFinished)),
        Ok(Progress::RunFinished { run_nr: 1, duration: 2 })
    ));
}

#[test]
fn run_beyond_iterations_is_refused() {
    let mut a = Aggregator::new(1, 1);
    a.handle(msg(0, 0, JobStarted)).unwrap();
    a.handle(msg(0, 1, RunStarted)).unwrap();
    a.handle(msg(0, 2, RunFailed)).unwrap();
    assert_eq!(a.handle(msg(0, 3, RunStarted)).unwrap_err(), violation(0, RunStarted));
}

#[test]
fn early_job_finish_is_refused() {
    let mut a = Aggregator::new(1, 2);
    a.handle(msg(0, 0, JobStarted)).unwrap();
    a.handle(msg(0, 1, RunStarted)).unwrap();
    assert_eq!(a.handle(msg(0, 2, JobFinished)).unwrap_err(), violation(0, JobFinished));
    a.handle(msg(0, 3, RunFinished)).unwrap();
    assert_eq!(a.handle(msg(0, 4, JobFinished)).unwrap_err(), violation(0, JobFinished));
    assert_eq!(a.completed(), 0);
}

#[test]
fn events_after_job_finish_are_refused() {
    let mut a = Aggregator::new(1, 1);
    a.handle(msg(0, 0, JobStarted)).unwrap();
    a.handle(msg(0, 1, RunStarted)).unwrap();
    a.handle(msg(0, 2, RunFinished)).unwrap();
    a.handle(msg(0, 3, JobFinished)).unwrap();
    assert_eq!(a.handle(msg(0, 4, JobStarted)).unwrap_err(), violation(0, JobStarted));
    assert_eq!(a.handle(msg(0, 4, JobFinished)).unwrap_err(), violation(0, JobFinished));
    assert_eq!(a.completed(), 1);
}

#[test]
fn unknown_job_is_refused() {
    let mut a = Aggregator::new(2, 1);
    assert_eq!(a.handle(msg(2, 0, JobStarted)).unwrap_err(), violation(2, JobStarted));
}
