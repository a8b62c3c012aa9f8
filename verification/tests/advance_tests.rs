use rhei_cli::advance::{
    find_next_transition, initial_state_has_non_terminal_forward_transition, is_builtin_simple_manual_machine,
    manual_initial_terminal_transition, poll_exhausted_error, state_declares_autonomous_execution,
};
use rhei_cli::conditions::{ParsedState, StateBudget};
use rhei_cli::exit::{invocation_is_pending, invocations_to_spawn, task_has_pending_invocations};
use rhei_cli::machine::TransitionRule;
use rhei_cli::yaml::Yaml;

fn rule(from: &str, to: &str, condition: Option<&str>) -> TransitionRule {
    TransitionRule {
        from: from.to_string(),
        to: to.to_string(),
        condition: condition.map(|c| c.to_string()),
        timeout: None,
        mcp_unavailable: None,
        skill_unavailable: None,
        exit_code: None,
    }
}

fn st(name: &str, terminal: bool) -> StateBudget {
    StateBudget { name: name.to_string(), terminal, visits: None, poll_max_attempts: None }
}

fn parsed(s: &str) -> ParsedState {
    ParsedState { state: s.to_string(), visit: None }
}

fn key() -> Yaml {
    Yaml::Str("1".to_string())
}

#[test]
fn exact_sources_come_before_wildcards() {
    let states = vec![st("work", false), st("review", false), st("cancelled", true), st("paused", false)];
    let rules = vec![rule("*", "cancelled", None), rule("*", "paused", None), rule("work", "review", Some("1 > 2")), rule("work", "review", None)];
    let all = vec![true; 4];
    assert_eq!(find_next_transition(&rules, &all, &states, None, &key(), "work", &parsed("work")), Ok(Some("review".to_string())));
    // Without the exact edge, a wildcard into a state that is not terminal.
    let allowed = vec![true, true, true, false];
    assert_eq!(find_next_transition(&rules, &allowed, &states, None, &key(), "work", &parsed("work")), Ok(Some("paused".to_string())));
    let none = vec![true, false, true, false];
    assert_eq!(find_next_transition(&rules, &none, &states, None, &key(), "work", &parsed("work")), Ok(None));
    let broken = vec![rule("work", "review", Some("what")), rule("work", "review", None)];
    assert_eq!(
        find_next_transition(&broken, &vec![true, true], &states, None, &key(), "work", &parsed("work")),
        Err("unsupported transition condition 'what'; expected '<lhs> <op> <rhs>'".to_string())
    );
    assert_eq!(
        initial_state_has_non_terminal_forward_transition(&rules, &all, &states, None, &key(), "work", &parsed("work")),
        Ok(true)
    );
}

fn default_machine() -> (Vec<StateBudget>, Vec<TransitionRule>) {
    (vec![st("pending", false), st("completed", true)], vec![rule("pending", "completed", None)])
}

#[test]
fn the_builtin_manual_machine_is_recognised() {
    let (states, rules) = default_machine();
    assert!(is_builtin_simple_manual_machine("rhei", &states, &rules));
    assert!(!is_builtin_simple_manual_machine("custom", &states, &rules));
    let twice = vec![rule("pending", "completed", None), rule("pending", "completed", Some("1 < 2"))];
    assert!(!is_builtin_simple_manual_machine("rhei", &states, &twice));
    let three = vec![st("pending", false), st("completed", true), st("extra", false)];
    assert!(!is_builtin_simple_manual_machine("rhei", &three, &rules));
}

#[test]
fn manual_only_tickets_are_left_to_a_human() {
    let (states, rules) = default_machine();
    let allowed = vec![true];
    let go = |initial: bool, autonomous: bool| {
        manual_initial_terminal_transition("rhei", &rules, &allowed, &states, None, &key(), "pending", &parsed("pending"), initial, autonomous)
    };
    assert_eq!(go(true, false), Ok(Some("completed".to_string())));
    assert_eq!(go(false, false), Ok(None));
    assert_eq!(go(true, true), Ok(None));
    assert!(state_declares_autonomous_execution(false, false, false, false, 0, 2));
    assert!(!state_declares_autonomous_execution(false, false, false, false, 0, 0));
    assert!(state_declares_autonomous_execution(true, false, false, false, 0, 0));
}

#[test]
fn an_exhausted_poll_is_an_error() {
    assert_eq!(
        poll_exhausted_error("api.1", "waiting", Some(3), 3),
        Some("polling exhausted with no matching non-self-loop transition for Task api.1 in state 'waiting'".to_string())
    );
    assert_eq!(poll_exhausted_error("api.1", "waiting", Some(3), 2), None);
    assert_eq!(poll_exhausted_error("api.1", "waiting", None, 9), None);
}

#[test]
fn invocations_owe_outputs_and_results() {
    assert!(invocation_is_pending(false, false, true));
    assert!(!invocation_is_pending(true, false, false));
    assert!(invocation_is_pending(true, true, false));
    assert!(!invocation_is_pending(true, true, true));
    assert!(task_has_pending_invocations(&vec![false, true]));
    assert!(!task_has_pending_invocations(&vec![false, false]));
    assert!(!task_has_pending_invocations(&Vec::new()));
    assert_eq!(invocations_to_spawn(true, &vec![false, true, true]), vec![1, 2]);
    assert_eq!(invocations_to_spawn(false, &vec![false, true, false]), vec![0, 1, 2]);
}
