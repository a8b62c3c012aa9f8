use rhei_cli::machine::{
    find_timeout_transition, find_tooling_transition, supervising_state_can_finish, suggested_final_state,
    timeout_label, tooling_trigger_matches, transitions_list, StateInfo, ToolingKind, TransitionRule,
};
use rhei_cli::yaml::Yaml;

fn rule(from: &str, to: &str) -> TransitionRule {
    TransitionRule {
        from: from.to_string(),
        to: to.to_string(),
        condition: None,
        timeout: None,
        mcp_unavailable: None,
        skill_unavailable: None,
        exit_code: None,
    }
}

fn state(name: &str, terminal: bool, cancelled: bool) -> StateInfo {
    StateInfo { name: name.to_string(), terminal, cancelled }
}

fn strings(v: &[&str]) -> Vec<String> {
    v.iter().map(|s| s.to_string()).collect()
}

#[test]
fn timeouts_take_the_first_declared_timeout_edge() {
    let mut a = rule("work", "review");
    let mut b = rule("*", "failed");
    b.timeout = Some("30m".to_string());
    let mut c = rule("work", "stuck");
    c.timeout = Some("1h".to_string());
    a.condition = Some("x".to_string());
    let rules = vec![a, b, c];
    assert_eq!(find_timeout_transition(&rules, "work"), Some("failed".to_string()));
    assert_eq!(find_timeout_transition(&vec![rule("work", "done")], "work"), None);
}

#[test]
fn tooling_triggers() {
    let down = strings(&["github"]);
    assert!(tooling_trigger_matches(&Yaml::Bool(true), &down));
    assert!(!tooling_trigger_matches(&Yaml::Bool(false), &down));
    assert!(tooling_trigger_matches(&Yaml::List(vec![Yaml::Str("slack".to_string()), Yaml::Str("github".to_string())]), &down));
    assert!(!tooling_trigger_matches(&Yaml::List(vec![Yaml::Str("slack".to_string())]), &down));
    assert!(!tooling_trigger_matches(&Yaml::Str("github".to_string()), &down));
}

#[test]
fn the_first_matching_tooling_rule_fires() {
    let mut a = rule("work", "wait");
    a.skill_unavailable = Some(Yaml::Bool(true));
    let mut b = rule("work", "blocked");
    b.mcp_unavailable = Some(Yaml::List(vec![Yaml::Str("github".to_string())]));
    let mut c = rule("*", "fallback");
    c.mcp_unavailable = Some(Yaml::Bool(true));
    let rules = vec![a, b, c];
    assert_eq!(find_tooling_transition(&rules, "work", &ToolingKind::Mcp, &strings(&["github"])), Some(1));
    assert_eq!(find_tooling_transition(&rules, "work", &ToolingKind::Mcp, &strings(&["jira"])), Some(2));
    assert_eq!(find_tooling_transition(&rules, "work", &ToolingKind::Skill, &strings(&["x"])), Some(0));
    assert_eq!(find_tooling_transition(&rules, "other", &ToolingKind::Skill, &strings(&["x"])), None);
}

#[test]
fn transitions_are_listed_for_the_prompt() {
    let mut a = rule("work", "review");
    a.condition = Some("tests pass".to_string());
    let rules = vec![a, rule("review", "done"), rule("*", "cancelled")];
    assert_eq!(transitions_list(&rules, "work"), "- work -> review (when tests pass)\n- work -> cancelled\n");
    assert_eq!(transitions_list(&Vec::new(), "work"), "");
}

#[test]
fn supervisors_finish_on_an_open_descendants_edge_to_a_terminal() {
    let states = vec![state("supervise", false, false), state("done", true, false)];
    let mut edge = rule("supervise", "done");
    edge.condition = Some("openDescendants < 1".to_string());
    assert!(supervising_state_can_finish(&vec![edge], &states, "supervise"));
    assert!(!supervising_state_can_finish(&vec![rule("supervise", "done")], &states, "supervise"));
    let mut to_self = rule("supervise", "supervise");
    to_self.condition = Some("openDescendants < 1".to_string());
    assert!(!supervising_state_can_finish(&vec![to_self], &states, "supervise"));
}

#[test]
fn the_suggested_final_state() {
    let states = vec![state("work", false, false), state("cancelled", true, true), state("shipped", true, false)];
    assert_eq!(suggested_final_state(&vec![rule("work", "cancelled"), rule("work", "shipped")], &states, "work"), "shipped");
    assert_eq!(suggested_final_state(&Vec::new(), &states, "work"), "shipped");
    assert_eq!(suggested_final_state(&Vec::new(), &vec![state("work", false, false)], "work"), "completed");
}

#[test]
fn a_timeout_is_labelled_by_the_worker_then_the_rule() {
    let mut a = rule("build", "failed");
    a.timeout = Some("10m".to_string());
    let mut b = rule("*", "stuck");
    b.timeout = Some("1h".to_string());
    let rules = vec![rule("build", "stuck"), a, b];
    assert_eq!(timeout_label(&rules, "build", "stuck", Some("5m".to_string())), "5m");
    assert_eq!(timeout_label(&rules, "build", "stuck", None), "1h");
    assert_eq!(timeout_label(&rules, "build", "failed", None), "10m");
    assert_eq!(timeout_label(&rules, "build", "done", None), "");
}
