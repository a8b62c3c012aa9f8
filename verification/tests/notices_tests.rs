use rhei_cli::notices::{
    deferred_notice, error_transition_line, failed_transition_warning, timeout_transition_line,
    awaiting_gate_notice, expand_agent_list, format_dry_run_manual_only, format_dry_run_transition,
    format_missing_required_output, format_ready_tasks, install_agent, manual_only_dry_run_error, program_log_name, Agent,
    InstallMethod,
};

#[test]
fn missing_outputs_flag_unresolved_templates() {
    assert_eq!(format_missing_required_output("report", "out/report.md"), "report (out/report.md)");
    assert_eq!(
        format_missing_required_output("report", "out/{task}.md"),
        "report (out/{task}.md, unresolved template)"
    );
}

#[test]
fn gate_notices_point_at_what_can_release_the_gate() {
    assert_eq!(
        awaiting_gate_notice(true, true),
        "Waiting for human gate decisions \u{2014} resolve a gate in the UI, or press Ctrl+C to stop."
    );
    assert_eq!(
        awaiting_gate_notice(false, true),
        "Waiting for human gate decisions \u{2014} release one with `rhei attach` or the browser dashboard, or end the run with `rhei stop`."
    );
    assert_eq!(
        awaiting_gate_notice(false, false),
        "Waiting for human gate decisions \u{2014} release one with `rhei transition`, or press Ctrl+C to stop."
    );
}

#[test]
fn dry_run_lines() {
    assert_eq!(
        format_dry_run_manual_only("api.1", "todo", "done"),
        "manual-only: Task api.1  todo -> done (claim with `rhei next`, finish with `rhei complete`)"
    );
    assert_eq!(format_dry_run_transition("api.1", "work", "review", true), "would transition: Task api.1  work -> review");
    assert_eq!(
        format_dry_run_transition("api.1", "supervise", "supervise", true),
        "would transition: Task api.1  supervise -> supervise (release)"
    );
    assert_eq!(
        format_dry_run_transition("api.1", "supervise", "supervise", false),
        "would transition: Task api.1  supervise -> supervise"
    );
}

#[test]
fn program_logs_are_named_by_task_and_state() {
    assert_eq!(program_log_name("api.1", "build"), "task-api.1-build.log");
}

#[test]
fn all_expands_to_every_agent() {
    assert_eq!(
        expand_agent_list(Agent::All),
        vec![
            Agent::ClaudeCode,
            Agent::Cursor,
            Agent::Windsurf,
            Agent::Copilot,
            Agent::Kilocode,
            Agent::Pi,
            Agent::Codex,
            Agent::Antigravity,
        ]
    );
    assert_eq!(expand_agent_list(Agent::Pi), vec![Agent::Pi]);
}

#[test]
fn each_agent_has_an_install_method() {
    assert_eq!(install_agent(&Agent::Cursor), Some(InstallMethod::Cursor));
    assert_eq!(install_agent(&Agent::Kilocode), Some(InstallMethod::RulesDir(".kilocode".to_string())));
    assert_eq!(install_agent(&Agent::Antigravity), Some(InstallMethod::RulesDir(".antigravity".to_string())));
    assert_eq!(install_agent(&Agent::All), None);
    for agent in expand_agent_list(Agent::All) {
        assert!(install_agent(&agent).is_some());
    }
}

#[test]
fn the_manual_only_error_counts_the_reported_tasks() {
    let (msg, help) = manual_only_dry_run_error(&vec!["1".to_string(), "2".to_string()]);
    assert_eq!(
        msg,
        "2 task(s) reported above are in a manual-only initial state and cannot be advanced by `rhei run`. \
         Claim each with `rhei next`, do the work, then finish with `rhei complete`."
    );
    assert_eq!(help, "claim one with: rhei next <plan>");
}

#[test]
fn ready_tasks_are_listed_with_their_titles() {
    let tasks = vec![
        ("1".to_string(), "Write the parser".to_string()),
        ("1.2".to_string(), "Test it".to_string()),
    ];
    assert_eq!(format_ready_tasks(&tasks), "Task 1: Write the parser, Task 1.2: Test it");
    assert_eq!(format_ready_tasks(&Vec::new()), "");
}

#[test]
fn fired_edges_are_logged() {
    assert_eq!(
        timeout_transition_line("auth.1", "build", "stuck", "5m"),
        "  Timeout transition: Task auth.1 'build' -> 'stuck' (timeout 5m)"
    );
    assert_eq!(
        error_transition_line("auth.1", "build", "failed", -1),
        "  Error transition: Task auth.1 'build' -> 'failed' (exit -1)"
    );
    assert_eq!(
        error_transition_line("a", "b", "c", 137),
        "  Error transition: Task a 'b' -> 'c' (exit 137)"
    );
    assert_eq!(
        failed_transition_warning("timeout", "auth.1", "disk full"),
        "  warning: failed to fire timeout transition for Task auth.1: disk full"
    );
}

#[test]
fn deferred_tickets_are_named() {
    assert_eq!(deferred_notice(&Vec::new()), None);
    assert_eq!(
        deferred_notice(&vec!["a.1".to_string(), "a.2".to_string()]),
        Some("Deferred 2 task(s) in non-concurrent states to a later pass: a.1, a.2".to_string())
    );
}
