use proof_bench::aggregator::{Aggregator, Progress};
use proof_bench::csv::csv_row_of;
use proof_bench::event::{JobMessage, JobMessagePayload};
use proof_bench::scheduler::{Dispatcher, Executor, ExecutorStep};

use JobMessagePayload::{JobFinished, JobStarted, RunFailed, RunFinished, RunStarted};

struct Outcome {
    events: Vec<(usize, JobMessagePayload)>,
    rows: Vec<String>,
    max_running: usize,
}

/// Runs a batch on one thread: the executors of the jobs that hold a slot take
/// turns, one step each, and the command of job `j` takes `10 * (j + 1)` clock
/// ticks and succeeds as `succeeds(j, run)` says.
fn simulate(
    names: &[&str],
    iterations: u32,
    parallel_jobs: usize,
    succeeds: &dyn Fn(usize, u32) -> bool,
) -> Outcome {
    let mut dispatcher = Dispatcher::new(names.len(), parallel_jobs);
    let mut aggregator = Aggregator::new(names.len(), iterations);
    let mut active: Vec<(usize, Executor, u32)> = Vec::new();
    let mut clock: u64 = 0;
    let mut events = Vec::new();
    let mut rows = Vec::new();
    let mut max_running = 0;
    while let Some(j) = dispatcher.next_job() {
        active.push((j, Executor::new(iterations), 0));
    }
    while !aggregator.is_done() {
        let mut i = 0;
        while i < active.len() {
            let (job, ref mut executor, ref mut run) = active[i];
            let kind = match executor.next_step() {
                ExecutorStep::Emit(kind) => kind,
                ExecutorStep::RunCommand => {
                    clock += 10 * (job as u64 + 1);
                    let ok = succeeds(job, *run);
                    *run += 1;
                    executor.run_ended(ok)
                }
                ExecutorStep::Done => {
                    active.remove(i);
                    continue;
                }
            };
            clock += 1;
            events.push((job, kind));
            max_running = max_running.max(dispatcher.running_jobs());
            match aggregator.handle(JobMessage::new(job, clock, kind)).unwrap() {
                Progress::JobFinished { runs, .. } => {
                    let row = csv_row_of(names[job].as_bytes(), &runs);
                    rows.push(String::from_utf8(row).unwrap());
                    dispatcher.job_finished();
                    while let Some(j) = dispatcher.next_job() {
                        active.push((j, Executor::new(iterations), 0));
                    }
                }
                _ => {}
            }
            i += 1;
        }
    }
    assert!(dispatcher.is_done());
    Outcome { events, rows, max_running }
}

fn count(events: &[(usize, JobMessagePayload)], job: usize, kind: JobMessagePayload) -> usize {
    events.iter().filter(|(j, k)| *j == job && *k == kind).count()
}

#[test]
fn dispatcher_waits_for_a_free_slot() {
    let mut d = Dispatcher::new(3, 2);
    assert_eq!(d.next_job(), Some(0));
    assert_eq!(d.next_job(), Some(1));
    assert_eq!(d.next_job(), None);
    assert_eq!(d.running_jobs(), 2);
    d.job_finished();
    assert_eq!(d.next_job(), Some(2));
    assert_eq!(d.next_job(), None);
    d.job_finished();
    d.job_finished();
    assert!(d.is_done());
}

#[test]
fn dispatcher_with_more_slots_than_jobs() {
    let mut d = Dispatcher::new(1, 4);
    assert_eq!(d.next_job(), Some(0));
    assert_eq!(d.next_job(), None);
    assert!(!d.is_done());
    d.job_finished();
    assert!(d.is_done());
}

#[test]
fn executor_runs_each_iteration_once() {
    let mut e = Executor::new(2);
    assert_eq!(e.next_step(), ExecutorStep::Emit(JobStarted));
    assert_eq!(e.next_step(), ExecutorStep::Emit(RunStarted));
    assert_eq!(e.next_step(), ExecutorStep::RunCommand);
    assert_eq!(e.run_ended(true), RunFinished);
    assert_eq!(e.next_step(), ExecutorStep::Emit(RunStarted));
    assert_eq!(e.run_ended(false), RunFailed);
    assert_eq!(e.next_step(), ExecutorStep::Emit(JobFinished));
    assert_eq!(e.next_step(), ExecutorStep::Done);
    assert_eq!(e.next_step(), ExecutorStep::Done);
}

#[test]
fn executor_with_no_iterations_starts_and_finishes() {
    let mut e = Executor::new(0);
    assert_eq!(e.next_step(), ExecutorStep::Emit(JobStarted));
    assert_eq!(e.next_step(), ExecutorStep::Emit(JobFinished));
    assert_eq!(e.next_step(), ExecutorStep::Done);
}

#[test]
fn third_job_waits_for_one_of_the_first_two() {
    let out = simulate(&["A", "B", "C"], 2, 2, &|_, _| true);
    let first_c_run = out.events.iter().position(|e| *e == (2, RunStarted)).unwrap();
    let first_finish = out
        .events
        .iter()
        .position(|e| *e == (0, JobFinished) || *e == (1, JobFinished))
        .unwrap();
    assert!(first_finish < first_c_run);
    assert_eq!(out.rows.len(), 3);
    for row in &out.rows {
        let fields: Vec<&str> = row.trim_end_matches('\n').split(',').collect();
        assert_eq!(fields.len(), 3);
        for f in &fields[1..] {
            assert!(f.parse::<f64>().is_ok());
        }
    }
    assert!(out.max_running <= 2);
}

#[test]
fn failing_command_leaves_empty_fields() {
    let out = simulate(&["only"], 3, 1, &|_, _| false);
    assert_eq!(count(&out.events, 0, RunFailed), 3);
    assert_eq!(count(&out.events, 0, RunFinished), 0);
    assert_eq!(count(&out.events, 0, JobFinished), 1);
    assert_eq!(out.rows, vec!["only,,,\n".to_string()]);
}

#[test]
fn every_job_finishes_once_with_all_its_runs() {
    let names = ["p", "q", "r", "s", "t"];
    let out = simulate(&names, 3, 2, &|j, run| (j + run as usize) % 2 == 0);
    assert_eq!(out.rows.len(), names.len());
    for j in 0..names.len() {
        assert_eq!(count(&out.events, j, JobStarted), 1);
        assert_eq!(count(&out.events, j, JobFinished), 1);
        assert_eq!(count(&out.events, j, RunStarted), 3);
        assert_eq!(count(&out.events, j, RunFinished) + count(&out.events, j, RunFailed), 3);
    }
    for row in &out.rows {
        assert_eq!(row.matches(',').count(), 3);
    }
    assert!(out.max_running <= 2);
}

#[test]
fn same_inputs_give_the_same_rows() {
    let names = ["x", "y", "z"];
    let stub = |j: usize, run: u32| j != 1 || run == 0;
    let mut first = simulate(&names, 2, 2, &stub).rows;
    let mut second = simulate(&names, 2, 2, &stub).rows;
    first.sort();
    second.sort();
    assert_eq!(first, second);
    let y = first.iter().find(|r| r.starts_with("y,")).unwrap();
    let fields: Vec<&str> = y.trim_end_matches('\n').split(',').collect();
    assert_eq!(fields.len(), 3);
    assert!(fields[1].parse::<f64>().unwrap() > 0.0);
    assert_eq!(fields[2], "");
}
