use rhei_cli::exit::{
    missing_outputs_warning, not_advanced_warning, program_exit_missing_outputs,
    auto_advance_advances, completion_met, exit_step, failure_edge, fired_advances, pending_step, snapshot_completion,
    program_exit_step, program_failed_error, AutoAdvance, ExitStep, PendingStep, ProgramStep, SnapshotCompletion,
};
use rhei_cli::machine::TimeoutTransitionOutcome;

#[test]
fn completion_needs_a_clean_exit_outputs_and_a_result() {
    assert!(completion_met(true, true, false));
    assert!(!completion_met(false, true, false));
    assert!(!completion_met(true, false, false));
    assert!(!completion_met(true, true, true));
}

#[test]
fn snapshots_record_timeouts_first() {
    assert_eq!(snapshot_completion(true, true), SnapshotCompletion::Timeout);
    assert_eq!(snapshot_completion(false, true), SnapshotCompletion::Success);
    assert_eq!(snapshot_completion(false, false), SnapshotCompletion::Failure);
}

#[test]
fn the_failure_edge_follows_how_the_worker_ended() {
    let t = Some("timed-out".to_string());
    let e = Some("errored".to_string());
    assert_eq!(failure_edge(true, false, t.clone(), e.clone()), t);
    assert_eq!(failure_edge(false, false, t.clone(), e.clone()), e);
    assert_eq!(failure_edge(false, true, t, e), None);
}

#[test]
fn exit_steps() {
    assert_eq!(exit_step(true, false, true, true, None, 1, false), ExitStep::Advanced);
    assert_eq!(exit_step(false, true, true, false, None, 0, false), ExitStep::StalledMissingOutputs);
    assert_eq!(exit_step(false, true, false, false, None, 0, false), ExitStep::CheckPending);
    assert_eq!(
        exit_step(false, false, false, true, Some("t".to_string()), -1, false),
        ExitStep::FireTimeout("t".to_string())
    );
    assert_eq!(exit_step(false, false, false, true, None, -1, false), ExitStep::TimeoutUndeclared);
    assert_eq!(
        exit_step(false, false, false, false, Some("e".to_string()), 2, false),
        ExitStep::FireExitEdge("e".to_string())
    );
    assert_eq!(exit_step(false, false, false, false, None, 2, false), ExitStep::Abort(2));
    assert_eq!(exit_step(false, false, false, false, None, 2, true), ExitStep::StallFailure);
}

#[test]
fn pending_and_advance_steps() {
    assert_eq!(pending_step(true), PendingStep::Await);
    assert_eq!(pending_step(false), PendingStep::AutoAdvance);
    assert!(fired_advances(TimeoutTransitionOutcome::Fired));
    assert!(!fired_advances(TimeoutTransitionOutcome::NoRule));
    assert!(!fired_advances(TimeoutTransitionOutcome::Failed));
    assert!(auto_advance_advances(&AutoAdvance::To("done".to_string())));
    assert!(!auto_advance_advances(&AutoAdvance::NoEdge));
    assert!(!auto_advance_advances(&AutoAdvance::Failed("x".to_string())));
}

#[test]
fn a_program_exit_owes_outputs_by_its_route() {
    let collected = vec!["report (out/report.md)".to_string()];
    assert_eq!(program_exit_missing_outputs("build", "build", 0, false, collected.clone(), None), Vec::<String>::new());
    assert_eq!(program_exit_missing_outputs("done", "build", 0, false, collected.clone(), None), collected);
    assert_eq!(
        program_exit_missing_outputs("failed", "build", 2, false, collected.clone(), Some("result".to_string())),
        Vec::<String>::new()
    );
    assert_eq!(
        program_exit_missing_outputs("failed", "build", 2, true, collected.clone(), Some("result".to_string())),
        vec!["result".to_string()]
    );
    assert_eq!(program_exit_missing_outputs("failed", "build", 2, true, collected, None), Vec::<String>::new());
}

#[test]
fn stalled_workers_are_warned_about() {
    assert_eq!(
        missing_outputs_warning("program", 3, "auth.1", "build", &vec!["a (x)".to_string(), "b (y)".to_string()]),
        "  warning: program exited 3 but required outputs are missing for task auth.1 in state 'build': a (x), b (y)"
    );
    assert_eq!(
        not_advanced_warning("auth.1", "build"),
        "  warning: agent exited 0 but task auth.1 did not advance from 'build'"
    );
}

#[test]
fn program_steps_follow_the_exit() {
    let e = || Some("done".to_string());
    assert_eq!(program_exit_step(true, true, true, true, 0, e(), "work", false, false), ProgramStep::Interrupted);
    assert_eq!(program_exit_step(false, true, true, true, 0, e(), "work", false, false), ProgramStep::Moved);
    assert_eq!(program_exit_step(false, false, true, true, 0, e(), "work", false, false), ProgramStep::FireTimeout);
    assert_eq!(program_exit_step(false, false, false, false, 0, e(), "work", false, false), ProgramStep::TaskGone);
    assert_eq!(program_exit_step(false, false, false, true, 0, e(), "work", true, false), ProgramStep::MissingOutputs);
    assert_eq!(
        program_exit_step(false, false, false, true, 0, e(), "work", false, false),
        ProgramStep::FireEdge("done".to_string())
    );
    assert_eq!(
        program_exit_step(false, false, false, true, 0, Some("work".to_string()), "work", true, false),
        ProgramStep::FireEdge("work".to_string())
    );
    assert_eq!(
        program_exit_step(false, false, false, true, 3, e(), "work", true, false),
        ProgramStep::FireEdge("done".to_string())
    );
    assert_eq!(program_exit_step(false, false, false, true, 0, None, "work", false, false), ProgramStep::NotAdvanced);
    assert_eq!(program_exit_step(false, false, false, true, 2, None, "work", false, false), ProgramStep::Fail(2));
    assert_eq!(program_exit_step(false, false, false, true, -1, None, "work", false, true), ProgramStep::Skip(-1));
}

#[test]
fn a_failed_program_names_its_code_and_ticket() {
    assert_eq!(
        program_failed_error(-2, "4"),
        "program exited with code -2 for Task 4. Use --continue-on-error to skip failures."
    );
}
