use rhei_cli::diagnose::{diagnose_no_claimable, first_mid_workflow_task, select, transition_command_lines, Category};
use rhei_cli::conditions::{ParsedState, StateBudget};
use rhei_cli::machine::TransitionRule;
use rhei_cli::ready::{Supervision, TaskFacts};
use rhei_cli::waiting::remaining_work_is_only_gating_or_poll_blocked;
use rhei_cli::yaml::Yaml;

fn task(id: &str, depth: usize, state: &str) -> TaskFacts {
    TaskFacts {
        id: id.to_string(),
        depth,
        state: state.to_string(),
        terminal: false,
        cancelled: false,
        gating: false,
        polling: false,
        next_attempt_at: None,
        priors: Vec::new(),
        assignee: None,
        initial: true,
        supervision: Supervision::Unsupervised,
        inputs_exist: true,
        in_scope: true,
        held_by: None,
        holder_state: String::new(),
        waiting_on_person: None,
    }
}

fn gate(id: &str, depth: usize) -> TaskFacts {
    let mut t = task(id, depth, "review");
    t.gating = true;
    t
}

fn done(id: &str, depth: usize) -> TaskFacts {
    let mut t = task(id, depth, "done");
    t.terminal = true;
    t
}

fn strings(v: &[&str]) -> Vec<String> {
    v.iter().map(|s| s.to_string()).collect()
}

#[test]
fn a_gate_or_a_poll_is_waiting_on_purpose() {
    assert!(remaining_work_is_only_gating_or_poll_blocked(&vec![gate("a.1", 0)], 100));
    let mut polled = task("a.1", 0, "wait");
    polled.next_attempt_at = Some(500);
    assert!(remaining_work_is_only_gating_or_poll_blocked(&vec![polled], 100));
    assert!(!remaining_work_is_only_gating_or_poll_blocked(&vec![task("a.1", 0, "open")], 100));
    assert!(remaining_work_is_only_gating_or_poll_blocked(&vec![done("a.1", 0)], 100));
}

#[test]
fn a_parent_waits_with_its_subtree_and_dependents_inherit_it() {
    let parent_over_gate = vec![task("a.1", 0, "open"), gate("a.1.1", 1)];
    assert!(remaining_work_is_only_gating_or_poll_blocked(&parent_over_gate, 100));
    let mut dependent = task("a.2", 0, "open");
    dependent.priors = strings(&["a.1"]);
    let chain = vec![task("a.1", 0, "open"), gate("a.1.1", 1), dependent];
    assert!(remaining_work_is_only_gating_or_poll_blocked(&chain, 100));
    let stuck_child = vec![task("a.1", 0, "open"), gate("a.1.1", 1), task("a.1.2", 1, "open")];
    assert!(!remaining_work_is_only_gating_or_poll_blocked(&stuck_child, 100));
}

#[test]
fn out_of_scope_work_does_not_count() {
    let mut other = task("b.1", 0, "open");
    other.in_scope = false;
    assert!(remaining_work_is_only_gating_or_poll_blocked(&vec![gate("a.1", 0), other], 100));
}

#[test]
fn a_cycle_of_priors_is_not_waiting() {
    let mut a = task("a.1", 0, "open");
    a.priors = strings(&["a.2"]);
    let mut b = task("a.2", 0, "open");
    b.priors = strings(&["a.1"]);
    assert!(!remaining_work_is_only_gating_or_poll_blocked(&vec![a, b], 100));
}

#[test]
fn categories_are_selected_in_plan_order() {
    let mut claimed = task("a.2", 0, "work");
    claimed.assignee = Some("bob".to_string());
    let ts = vec![gate("a.1", 0), claimed, done("a.3", 0)];
    assert_eq!(select(&ts, Category::Scoped), vec![0, 1, 2]);
    assert_eq!(select(&ts, Category::Open), vec![0, 1]);
    assert_eq!(select(&ts, Category::Gated), vec![0]);
    assert_eq!(select(&ts, Category::InProgress), vec![1]);
    assert_eq!(first_mid_workflow_task(&ts), None);
}

#[test]
fn empty_and_finished_plans() {
    let none: Vec<TaskFacts> = Vec::new();
    let no = Vec::new();
    assert_eq!(diagnose_no_claimable(&none, None, false, "", &no), "no tickets are ready to claim \u{2014} this rhei has none yet");
    assert_eq!(
        diagnose_no_claimable(&none, None, true, "run `rhei panta add`", &no),
        "no tickets are ready to claim \u{2014} the project has none yet: run `rhei panta add`"
    );
    assert_eq!(
        diagnose_no_claimable(&none, Some("api"), false, "", &no),
        "no tickets are ready to claim in the --rhei scope (api) (no tickets in scope)"
    );
    let finished = vec![done("a.1", 0), done("a.2", 0)];
    assert_eq!(diagnose_no_claimable(&finished, None, false, "", &no), "Plan complete. All 2 task(s) are in terminal states.");
    assert_eq!(
        diagnose_no_claimable(&finished, Some("a"), false, "", &no),
        "Scope complete. All 2 task(s) in the --rhei scope (a) are in terminal states."
    );
}

#[test]
fn gates_come_before_claims() {
    let mut claimed = task("a.2", 0, "work");
    claimed.assignee = Some("bob".to_string());
    let no = Vec::new();
    let ts = vec![gate("a.1", 0), claimed];
    assert_eq!(
        diagnose_no_claimable(&ts, None, false, "", &no),
        "Blocked: 1 task(s) waiting on human action: Task a.1 (review)."
    );
    let mut claimed2 = task("a.2", 0, "work");
    claimed2.assignee = Some("bob".to_string());
    assert_eq!(
        diagnose_no_claimable(&vec![claimed2], Some("a"), false, "", &no),
        "No tasks available to claim in the --rhei scope (a). 1 task(s) are currently in progress: Task a.2 (work, assignee bob)."
    );
}

#[test]
fn held_mid_workflow_and_blocked() {
    let no = Vec::new();
    let mut held = task("a.1.1", 1, "open");
    held.held_by = Some("a.1".to_string());
    held.holder_state = "supervise".to_string();
    let mut sup = task("a.1", 0, "supervise");
    sup.initial = false;
    sup.gating = false;
    let ts = vec![sup, held];
    assert_eq!(
        diagnose_no_claimable(&ts, None, false, "", &no),
        "no tickets are ready to claim: 1 ticket(s) held by a supervisor: Task a.1.1 held by supervisor Task a.1 (supervise)."
    );
    let mut mid = task("a.1", 0, "review");
    mid.initial = false;
    let mid_ts = vec![mid];
    assert_eq!(first_mid_workflow_task(&mid_ts), Some(0));
    assert_eq!(
        diagnose_no_claimable(&mid_ts, None, false, "", &no),
        "No tasks can be auto-claimed: Task a.1 is mid-workflow in state 'review'. Pick one of its outgoing transitions explicitly.\nNo outgoing transitions are currently applicable for this state."
    );
    let cmds = strings(&["  rhei transition plan.md --task a.1 --from=review --to=done"]);
    assert_eq!(
        diagnose_no_claimable(&mid_ts, None, false, "", &cmds),
        "No tasks can be auto-claimed: Task a.1 is mid-workflow in state 'review'. Pick one of its outgoing transitions explicitly.\nAvailable transitions:\n  rhei transition plan.md --task a.1 --from=review --to=done"
    );
    let mut blocked = task("a.2", 0, "open");
    blocked.priors = strings(&["a.1"]);
    let open_prior = task("a.1", 0, "open");
    let mut prior_blocked = open_prior;
    prior_blocked.priors = strings(&["a.2"]);
    assert_eq!(
        diagnose_no_claimable(&vec![prior_blocked, blocked], None, false, "", &no),
        "no tickets are ready to claim: 2 ticket(s) blocked by incomplete prerequisites: Task a.1 waiting on Task a.2 (open), Task a.2 waiting on Task a.1 (open)."
    );
    assert_eq!(diagnose_no_claimable(&vec![task("a.1", 0, "open")], None, false, "", &no), "no tickets are ready to claim");
}

fn rule(from: &str, to: &str, condition: Option<&str>) -> TransitionRule {
    TransitionRule {
        from: from.to_string(),
        to: to.to_string(),
        condition: condition.map(|c| c.to_string()),
        timeout: None,
        mcp_unavailable: None,
        skill_unavailable: None,
        exit_code: None,
    }
}

#[test]
fn mid_workflow_tickets_get_explicit_commands() {
    let rules = vec![rule("review", "done", None), rule("review", "rework", Some("1 > 2")), rule("*", "cancelled", None), rule("work", "review", None)];
    let states = vec![StateBudget { name: "review".to_string(), terminal: false, visits: None, poll_max_attempts: None }];
    let parsed = ParsedState { state: "review".to_string(), visit: None };
    let quoted = strings(&["done", "rework", "cancelled", "review"]);
    let lines = transition_command_lines(
        &rules,
        &vec![true, true, true, true],
        &quoted,
        &states,
        None,
        &Yaml::Str("1".to_string()),
        "review",
        &parsed,
        "a.1",
        "'plan.md'",
        Some("'m.yaml'"),
        "review",
    );
    assert_eq!(
        lines,
        strings(&[
            "  rhei --state-machine='m.yaml' transition 'plan.md' --task a.1 --from=review --to=done",
            "  rhei --state-machine='m.yaml' transition 'plan.md' --task a.1 --from=review --to=cancelled",
        ])
    );
    let no_machine = transition_command_lines(
        &rules,
        &vec![false, true, true, true],
        &quoted,
        &states,
        None,
        &Yaml::Str("1".to_string()),
        "review",
        &parsed,
        "a.1",
        "plan.md",
        None,
        "review",
    );
    assert_eq!(no_machine, strings(&["  rhei transition plan.md --task a.1 --from=review --to=cancelled"]));
}

#[test]
fn a_prior_out_of_scope_is_judged_on_its_own_account() {
    let mut a = task("a.1", 0, "open");
    a.priors = strings(&["b.1"]);
    let mut stuck = task("b.1", 0, "open");
    stuck.in_scope = false;
    assert!(!remaining_work_is_only_gating_or_poll_blocked(&vec![a, stuck], 100));
    let mut a = task("a.1", 0, "open");
    a.priors = strings(&["b.1"]);
    let mut parked = gate("b.1", 0);
    parked.in_scope = false;
    assert!(remaining_work_is_only_gating_or_poll_blocked(&vec![a, parked], 100));
}
