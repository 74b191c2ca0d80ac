use proof_bench::job_source::select_jobs;

fn entry(name: &str, qualifies: bool) -> (Vec<u8>, bool) {
    (name.as_bytes().to_vec(), qualifies)
}

#[test]
fn only_qualifying_directory_is_a_job() {
    let jobs = select_jobs(vec![entry("with_makefile", true), entry("without", false)]);
    assert_eq!(jobs, vec![b"with_makefile".to_vec()]);
}

#[test]
fn jobs_come_in_byte_order() {
    let jobs = select_jobs(vec![
        entry("c", true),
        entry("B", true),
        entry("a", true),
        entry("ab", true),
        entry("skip", false),
    ]);
    let names: Vec<&[u8]> = jobs.iter().map(|j| j.as_slice()).collect();
    assert_eq!(names, vec![&b"B"[..], &b"a"[..], &b"ab"[..], &b"c"[..]]);
}

#[test]
fn no_candidates_no_jobs() {
    assert!(select_jobs(Vec::new()).is_empty());
}
