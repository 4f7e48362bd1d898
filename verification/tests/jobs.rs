use crush::builtins::jobs::{exit_status_to_job_status, parse_job_spec, JobStatus, JobTable};

#[test]
fn job_numbers_start_at_one_and_are_reused() {
    let mut t = JobTable::new();
    assert!(t.is_empty());
    assert_eq!(t.add(100, "sleep 1"), 1);
    assert_eq!(t.add(200, "sleep 2"), 2);
    assert_eq!(t.add(300, "sleep 3"), 3);
    let notes = t.reap_done(&vec![(2, JobStatus::Done(0))]);
    assert_eq!(notes, vec!["\r\n[2]+ Done \x1b[2msleep 2\x1b[0m".to_string()]);
    assert_eq!(t.add(400, "sleep 4"), 2);
    assert_eq!(t.next_id(), 4);
}

#[test]
fn reaping_reports_and_removes_finished_jobs() {
    let mut t = JobTable::new();
    t.add(10, "a");
    t.add(11, "b");
    let notes = t.reap_done(&vec![(2, JobStatus::Killed), (1, JobStatus::Done(3)), (9, JobStatus::Done(0))]);
    assert_eq!(notes, vec![
        "\r\n[1]+ Done(3) \x1b[2ma\x1b[0m".to_string(),
        "\r\n[2]+ Killed \x1b[2mb\x1b[0m".to_string(),
    ]);
    assert!(t.is_empty());
    assert_eq!(t.listing(), vec!["No background jobs.".to_string()]);
}

#[test]
fn still_running_jobs_stay() {
    let mut t = JobTable::new();
    t.add(42, "vim");
    assert!(t.reap_done(&vec![(1, JobStatus::Running)]).is_empty());
    assert_eq!(t.listing(), vec!["[1]     42  \x1b[1;32mRunning\x1b[0m  vim".to_string()]);
}

#[test]
fn job_specs() {
    assert_eq!(parse_job_spec("%1"), Some(1));
    assert_eq!(parse_job_spec("12"), Some(12));
    assert_eq!(parse_job_spec("%%3"), Some(3));
    assert_eq!(parse_job_spec("%x"), None);
    assert_eq!(parse_job_spec(""), None);
    let mut t = JobTable::new();
    t.add(7, "top");
    assert_eq!(t.print_job("%1"), Ok("[1]      7  \x1b[1;32mRunning\x1b[0m  top".to_string()));
    assert_eq!(t.print_job("%2"), Err("jobs: no such job: %2".to_string()));
    assert_eq!(t.print_job("x"), Err("jobs: invalid job spec: x".to_string()));
}

#[test]
fn exit_statuses() {
    assert_eq!(exit_status_to_job_status(Some(0)), JobStatus::Done(0));
    assert_eq!(exit_status_to_job_status(None), JobStatus::Killed);
}

#[test]
fn the_number_a_job_gets_names_it_again() {
    let mut t = JobTable::new();
    for pid in 1..=12u32 {
        t.add(pid, "x");
    }
    let id = t.add(99, "last");
    assert_eq!(id, 13);
    assert_eq!(parse_job_spec(&format!("%{}", id)), Some(id));
    assert_eq!(parse_job_spec(&id.to_string()), Some(id));
    assert_eq!(t.print_job(&format!("%{}", id)), Ok("[13]     99  \x1b[1;32mRunning\x1b[0m  last".to_string()));
}
