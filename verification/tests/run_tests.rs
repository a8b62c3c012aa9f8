use rhei_cli::run::{lock_progress_step, start_locks, LockCommand, LockProgress};
use rhei_cli::run::{
    lock_step, lock_wait_line, stamp_final_status, ticket_file_counts, wait_step, DescriptorRead, Liveness,
    LivenessStep, LockAction, RunDescriptor, RunStatus, UndecidedWatch, WaitAction, UNDECIDED_GRACE_MS,
};

fn descriptor(id: &str, status: RunStatus) -> RunDescriptor {
    RunDescriptor {
        id: id.to_string(),
        pid: 4242,
        status,
        workspace: "/work/space".to_string(),
        plan: "plan.rhei.md".to_string(),
        state_machine: None,
        control_url: Some("http://127.0.0.1:9000".to_string()),
        started_at: "2024-01-01T00:00:00Z".to_string(),
        headless: true,
        parallel: 2,
        log: None,
        events: "events.jsonl".to_string(),
        exit_code: None,
    }
}

#[test]
fn statuses_have_labels() {
    assert_eq!(RunStatus::Running.label(), "running");
    assert_eq!(RunStatus::Finished.label(), "finished");
    assert_eq!(RunStatus::Failed.label(), "failed");
    assert!(!RunStatus::Running.is_terminal());
    assert!(RunStatus::Failed.is_terminal());
    assert!(Liveness::Gone.has_ended());
    assert!(Liveness::Ended.has_ended());
    assert!(!Liveness::Live.has_ended());
    assert!(!Liveness::Unknown("x".to_string()).has_ended());
}

#[test]
fn undecided_probes_report_once_the_grace_runs_out() {
    let mut w = UndecidedWatch::new();
    assert!(!w.exhausted("lock unreadable", 1000));
    assert!(!w.exhausted("still unreadable", 1000 + UNDECIDED_GRACE_MS - 1));
    assert_eq!(w.reason(), "still unreadable");
    assert!(w.exhausted("still unreadable", 1000 + UNDECIDED_GRACE_MS));
    // Rearmed: the next undecided probe starts a new grace.
    assert!(!w.exhausted("again", 1000 + 10 * UNDECIDED_GRACE_MS));
    w.decided();
    assert_eq!(w.since, None);
    assert_eq!(w.reason(), "");
}

#[test]
fn liveness_follows_the_workspace_descriptor() {
    let d = descriptor("r1", RunStatus::Running);
    assert_eq!(d.liveness_step("/w/run.json", &DescriptorRead::Missing), LivenessStep::Decided(Liveness::Gone));
    assert_eq!(
        d.liveness_step("/w/run.json", &DescriptorRead::Unreadable("bad json".to_string())),
        LivenessStep::Decided(Liveness::Unknown("/w/run.json could not be read: bad json".to_string()))
    );
    assert_eq!(
        d.liveness_step("/w/run.json", &DescriptorRead::Loaded(descriptor("r2", RunStatus::Running))),
        LivenessStep::Decided(Liveness::Gone)
    );
    assert_eq!(
        d.liveness_step("/w/run.json", &DescriptorRead::Loaded(descriptor("r1", RunStatus::Finished))),
        LivenessStep::Decided(Liveness::Ended)
    );
    assert_eq!(
        d.liveness_step("/w/run.json", &DescriptorRead::Loaded(descriptor("r1", RunStatus::Running))),
        LivenessStep::ProbeLock
    );
    let ended = descriptor("r1", RunStatus::Failed);
    assert_eq!(
        ended.liveness_step("/w/run.json", &DescriptorRead::Loaded(descriptor("r1", RunStatus::Running))),
        LivenessStep::Decided(Liveness::Ended)
    );
}

#[test]
fn summary_lines_are_padded() {
    let d = descriptor("r1", RunStatus::Running);
    assert_eq!(d.summary_line(), "r1  running   headless   pid 4242    parallel 2  plan.rhei.md");
    let mut f = descriptor("r2", RunStatus::Finished);
    f.headless = false;
    f.pid = 12345678;
    assert_eq!(f.summary_line(), "r2  finished  foreground pid 12345678 parallel 2  plan.rhei.md");
}

#[test]
fn only_the_published_run_is_stamped() {
    let mut d = descriptor("r1", RunStatus::Running);
    assert!(stamp_final_status(&mut d, "r1", 4242, 0));
    assert_eq!(d.status, RunStatus::Finished);
    assert_eq!(d.exit_code, Some(0));
    assert_eq!(d.control_url, None);
    let mut e = descriptor("r1", RunStatus::Running);
    assert!(stamp_final_status(&mut e, "r1", 4242, 3));
    assert_eq!(e.status, RunStatus::Failed);
    assert_eq!(e.exit_code, Some(3));
    let mut other = descriptor("r9", RunStatus::Running);
    assert!(!stamp_final_status(&mut other, "r1", 4242, 0));
    assert_eq!(other, descriptor("r9", RunStatus::Running));
    let mut other_pid = descriptor("r1", RunStatus::Running);
    assert!(!stamp_final_status(&mut other_pid, "r1", 1, 0));
    assert_eq!(other_pid.status, RunStatus::Running);
}

#[test]
fn registry_entries_match_by_pid_and_workspace_components() {
    let d = descriptor("r1", RunStatus::Running);
    assert!(rhei_cli::run::registry_entry_is_ours(&d, 4242, "/work/space"));
    assert!(rhei_cli::run::registry_entry_is_ours(&d, 4242, "/work//space/"));
    assert!(!rhei_cli::run::registry_entry_is_ours(&d, 4242, "/work/other"));
    assert!(!rhei_cli::run::registry_entry_is_ours(&d, 1, "/work/space"));
}

#[test]
fn lock_and_wait_steps() {
    assert_eq!(lock_step(true, true), LockAction::Hold);
    assert_eq!(lock_step(false, true), LockAction::Refuse);
    assert_eq!(lock_step(false, false), LockAction::Wait);
    assert_eq!(wait_step(true, true), WaitAction::Done);
    assert_eq!(wait_step(false, true), WaitAction::Stop);
    assert_eq!(wait_step(false, false), WaitAction::Sleep);
}

#[test]
fn the_wait_line_names_the_holder() {
    assert_eq!(
        lock_wait_line(&Some(("r7".to_string(), 99)), "/w"),
        "Waiting for run r7 (pid 99) to release the run lock on /w..."
    );
    assert_eq!(lock_wait_line(&None, "/w"), "Waiting for another run to release the run lock on /w...");
}

#[test]
fn top_level_tickets_are_counted_per_file() {
    let sources = vec![Some("a.md".to_string()), None, Some("b.md".to_string()), Some("a.md".to_string())];
    let counts = ticket_file_counts(&sources);
    assert_eq!(counts, vec![("a.md".to_string(), 2), ("b.md".to_string(), 1)]);
    assert!(ticket_file_counts(&vec![None]).is_empty());
}

#[test]
fn locks_are_taken_root_by_root_and_a_detached_child_never_waits() {
    let (mut p, c) = start_locks(2);
    assert_eq!(c, LockCommand::Try(0));
    assert_eq!(lock_progress_step(&mut p, true, false, false), LockCommand::Try(1));
    assert_eq!(lock_progress_step(&mut p, false, false, false), LockCommand::AnnounceWait(1));
    assert!(p.waiting);
    assert_eq!(lock_progress_step(&mut p, false, false, false), LockCommand::Retry(1));
    assert_eq!(lock_progress_step(&mut p, true, false, false), LockCommand::Done);
    assert_eq!(p, LockProgress { held: 2, roots: 2, waiting: false });
    let (mut h, _) = start_locks(1);
    assert_eq!(lock_progress_step(&mut h, false, false, true), LockCommand::Conflict(0));
    assert!(!h.waiting);
    let (mut w, _) = start_locks(1);
    lock_progress_step(&mut w, false, false, false);
    assert_eq!(lock_progress_step(&mut w, false, true, false), LockCommand::Stopped(0));
    assert_eq!(start_locks(0).1, LockCommand::Done);
}
