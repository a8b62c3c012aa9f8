use rhei_cli::conditions::{
    applicable_alternatives, current_state_visit_count, describe_blocked_transition, ensure_current_state_visit_count,
    evaluate_transition_condition, find_program_exit_transition, format_task_state_value, loop_reentry_allowed,
    raw_state_visit_count, resolve_condition_operand, state_visit_limit, transition_matches_exit_code,
    transition_rule_is_applicable, update_metadata_for_transition, ParsedState, StateBudget,
};
use rhei_cli::machine::TransitionRule;
use rhei_cli::metadata::task_visit_count;
use rhei_cli::text::parse_i64;
use rhei_cli::yaml::Yaml;

fn key(s: &str) -> Yaml {
    Yaml::Str(s.to_string())
}

fn map(entries: Vec<(Yaml, Yaml)>) -> Yaml {
    Yaml::Mapping(entries)
}

fn state(name: &str, visits: Option<u32>, poll: Option<u32>) -> StateBudget {
    StateBudget { name: name.to_string(), terminal: false, visits, poll_max_attempts: poll }
}

fn states() -> Vec<StateBudget> {
    vec![
        state("work", None, None),
        state("review", Some(3), None),
        state("waiting", None, Some(3)),
        StateBudget { name: "done".to_string(), terminal: true, visits: None, poll_max_attempts: None },
    ]
}

fn parsed(s: &str, visit: Option<u32>) -> ParsedState {
    ParsedState { state: s.to_string(), visit }
}

/// `metadata.tasks.1` holding `stateVisits` and `attempts`.
fn metadata(visits: Vec<(&str, u64)>, attempts: Option<u64>) -> Vec<(Yaml, Yaml)> {
    let mut task = vec![(key("stateVisits"), map(visits.into_iter().map(|(s, n)| (key(s), Yaml::PosInt(n))).collect()))];
    if let Some(a) = attempts {
        task.push((key("attempts"), Yaml::PosInt(a)));
    }
    vec![(key("metadata"), map(vec![(key("tasks"), map(vec![(key("1"), map(task))]))]))]
}

fn rule(from: &str, to: &str, condition: Option<&str>) -> TransitionRule {
    TransitionRule {
        from: from.to_string(),
        to: to.to_string(),
        condition: condition.map(|c| c.to_string()),
        timeout: None,
        mcp_unavailable: None,
        skill_unavailable: None,
        exit_code: None,
    }
}

#[test]
fn integers_parse_like_i64_from_str() {
    let p = |s: &str| parse_i64(&s.chars().collect::<Vec<char>>());
    assert_eq!(p("42"), Some(42));
    assert_eq!(p("+7"), Some(7));
    assert_eq!(p("-3"), Some(-3));
    assert_eq!(p("-9223372036854775808"), Some(i64::MIN));
    assert_eq!(p("9223372036854775807"), Some(i64::MAX));
    assert_eq!(p("9223372036854775808"), None);
    assert_eq!(p("-"), None);
    assert_eq!(p("-+1"), None);
    assert_eq!(p(""), None);
    assert_eq!(p("1a"), None);
}

#[test]
fn visit_limits_and_raw_visits() {
    let st = states();
    assert_eq!(state_visit_limit(&st, "review"), Some(3));
    assert_eq!(state_visit_limit(&st, "work"), None);
    assert_eq!(raw_state_visit_count(&parsed("review", Some(2)), &st, "review"), 2);
    assert_eq!(raw_state_visit_count(&parsed("review", None), &st, "review"), 1);
    assert_eq!(raw_state_visit_count(&parsed("review", Some(2)), &st, "work"), 0);
    assert_eq!(raw_state_visit_count(&parsed("work", Some(2)), &st, "work"), 0);
}

#[test]
fn later_visits_carry_a_suffix() {
    let st = states();
    assert_eq!(format_task_state_value("review", Some(3), &st), "review-3");
    assert_eq!(format_task_state_value("review", Some(1), &st), "review");
    assert_eq!(format_task_state_value("review", None, &st), "review");
    assert_eq!(format_task_state_value("work", Some(3), &st), "work");
}

#[test]
fn the_current_visit_is_the_larger_record() {
    let st = states();
    let md = metadata(vec![("review", 2)], None);
    assert_eq!(current_state_visit_count(Some(&md), &key("1"), "review", &parsed("review", Some(3)), &st), 3);
    assert_eq!(current_state_visit_count(Some(&md), &key("1"), "review", &parsed("review", None), &st), 2);
    assert_eq!(current_state_visit_count(None, &key("1"), "review", &parsed("other", None), &st), 1);
    assert_eq!(current_state_visit_count(None, &key("1"), "work", &parsed("work", None), &st), 0);
}

#[test]
fn operands_resolve_from_literals_visits_and_metadata() {
    let st = states();
    let md = metadata(vec![("review", 2)], Some(4));
    let p = parsed("review", None);
    let r = |t: &str, cur: &str| resolve_condition_operand(t, Some(&md), &key("1"), cur, &p, &st);
    assert_eq!(r("5", "review"), Ok(5));
    assert_eq!(r("-5", "review"), Ok(-5));
    assert_eq!(r("visitCount", "review"), Ok(2));
    assert_eq!(r("visit_count", "review"), Ok(2));
    assert_eq!(r("visits", "review"), Ok(3));
    assert_eq!(r("attempts", "review"), Ok(4));
    assert_eq!(r("visits", "work"), Err("state 'work' does not declare a visit limit".to_string()));
    assert_eq!(r("missing", "review"), Err("condition operand 'missing' is not available in task metadata".to_string()));
}

#[test]
fn conditions_compare_two_operands() {
    let st = states();
    let md = metadata(vec![("review", 2)], Some(4));
    let p = parsed("review", None);
    let e = |c: &str| evaluate_transition_condition(c, Some(&md), &key("1"), "review", &p, &st);
    assert_eq!(e("visitCount < visits"), Ok(true));
    assert_eq!(e("visitCount >= visits"), Ok(false));
    assert_eq!(e("attempts == 4"), Ok(true));
    assert_eq!(e("attempts != 4"), Ok(false));
    assert_eq!(e("  2   <=  2 "), Ok(true));
    assert_eq!(e("3 > 2"), Ok(true));
    assert_eq!(
        e("visitCount <"),
        Err("unsupported transition condition 'visitCount <'; expected '<lhs> <op> <rhs>'".to_string())
    );
    assert_eq!(e("1 =~ 2"), Err("unsupported operator '=~' in transition condition '1 =~ 2'".to_string()));
    assert_eq!(e("nope < 2"), Err("condition operand 'nope' is not available in task metadata".to_string()));
}

#[test]
fn visit_budgets_bound_reentry() {
    let st = states();
    let p = parsed("review", None);
    let two = metadata(vec![("review", 2), ("waiting", 1)], None);
    assert!(loop_reentry_allowed(&st, Some(&two), &key("1"), "work", &p, "review"));
    let three = metadata(vec![("review", 3), ("waiting", 2)], None);
    assert!(!loop_reentry_allowed(&st, Some(&three), &key("1"), "work", &p, "review"));
    assert!(!loop_reentry_allowed(&st, Some(&two), &key("1"), "review", &parsed("review", Some(3)), "review"));
    // A polling state retries while one more attempt stays under maxAttempts.
    assert!(loop_reentry_allowed(&st, Some(&two), &key("1"), "waiting", &p, "waiting"));
    assert!(!loop_reentry_allowed(&st, Some(&three), &key("1"), "waiting", &p, "waiting"));
    assert!(loop_reentry_allowed(&st, None, &key("1"), "work", &p, "work"));
}

#[test]
fn applicability_and_why_not() {
    let st = states();
    let three = metadata(vec![("review", 3)], None);
    let p = parsed("work", None);
    let to_review = rule("work", "review", None);
    assert_eq!(transition_rule_is_applicable(&to_review, &st, Some(&three), &key("1"), "work", &p), Ok(false));
    assert_eq!(
        describe_blocked_transition(&to_review, &st, Some(&three), &key("1"), "work", &p),
        "visit budget for state 'work' is exhausted"
    );
    let cond = rule("work", "done", Some("1 > 2"));
    assert_eq!(transition_rule_is_applicable(&cond, &st, None, &key("1"), "work", &p), Ok(false));
    assert_eq!(
        describe_blocked_transition(&cond, &st, None, &key("1"), "work", &p),
        "condition `1 > 2` evaluated to false"
    );
    let plain = rule("work", "done", None);
    assert_eq!(transition_rule_is_applicable(&plain, &st, None, &key("1"), "work", &p), Ok(true));
    assert_eq!(
        describe_blocked_transition(&plain, &st, None, &key("1"), "work", &p),
        "transition is not currently applicable"
    );
    let bad = rule("work", "done", Some("x y"));
    assert!(transition_rule_is_applicable(&bad, &st, None, &key("1"), "work", &p).is_err());
}

#[test]
fn alternatives_are_applicable_targets_once_each() {
    let st = states();
    let p = parsed("work", None);
    let rules = vec![
        rule("work", "review", None),
        rule("work", "done", Some("1 > 2")),
        rule("*", "done", None),
        rule("other", "waiting", None),
        rule("work", "review", Some("1 < 2")),
        rule("work", "done", Some("bad")),
    ];
    assert_eq!(
        applicable_alternatives(&rules, &st, None, &key("1"), "work", &p),
        vec!["review".to_string(), "done".to_string()]
    );
}

fn exit_rule(to: &str, exit_code: Option<Yaml>) -> TransitionRule {
    let mut r = rule("build", to, None);
    r.exit_code = exit_code;
    r
}

#[test]
fn exit_codes_match_numbers_lists_and_nonzero() {
    assert!(transition_matches_exit_code(&exit_rule("x", Some(Yaml::PosInt(2))), 2));
    assert!(!transition_matches_exit_code(&exit_rule("x", Some(Yaml::PosInt(2))), 3));
    assert!(transition_matches_exit_code(&exit_rule("x", Some(Yaml::NegInt(-1))), -1));
    assert!(transition_matches_exit_code(
        &exit_rule("x", Some(Yaml::List(vec![Yaml::PosInt(1), Yaml::Tagged("!t".to_string(), Box::new(Yaml::PosInt(7)))]))),
        7
    ));
    assert!(transition_matches_exit_code(&exit_rule("x", Some(key("nonzero"))), 5));
    assert!(!transition_matches_exit_code(&exit_rule("x", Some(key("nonzero"))), 0));
    assert!(!transition_matches_exit_code(&exit_rule("x", None), 0));
}

#[test]
fn an_exact_exit_code_outranks_nonzero() {
    let st = vec![state("build", None, None), state("failed", None, None), state("retry", None, None)];
    let p = parsed("build", None);
    let rules = vec![
        exit_rule("failed", Some(key("nonzero"))),
        exit_rule("retry", Some(Yaml::PosInt(2))),
        exit_rule("done", None),
    ];
    let f = |code: i32| find_program_exit_transition(&rules, &st, None, &key("1"), "build", &p, code);
    assert_eq!(f(2), Some("retry".to_string()));
    assert_eq!(f(3), Some("failed".to_string()));
    assert_eq!(f(0), Some("done".to_string()));
    let wildcard_only = vec![rule("*", "done", None)];
    assert_eq!(find_program_exit_transition(&wildcard_only, &st, None, &key("1"), "build", &p, 0), None);
}

#[test]
fn a_transition_counts_one_more_visit() {
    let st = states();
    let md = metadata(vec![("review", 2)], None);
    let out = update_metadata_for_transition(Some(&md), &key("1"), "review", &st).unwrap();
    assert_eq!(task_visit_count(Some(&out), &key("1"), "review"), 3);
    let fresh = update_metadata_for_transition(None, &key("1"), "review", &st).unwrap();
    assert_eq!(task_visit_count(Some(&fresh), &key("1"), "review"), 1);
    assert_eq!(update_metadata_for_transition(Some(&md), &key("1"), "work", &st), None);
}

#[test]
fn the_current_visit_is_recorded_when_missing() {
    let st = states();
    let md = metadata(vec![("review", 2)], None);
    let out = ensure_current_state_visit_count(Some(&md), &key("1"), "review", &parsed("review", Some(3)), &st).unwrap();
    assert_eq!(task_visit_count(Some(&out), &key("1"), "review"), 3);
    let same = ensure_current_state_visit_count(Some(&md), &key("1"), "review", &parsed("review", None), &st);
    assert_eq!(same, Some(metadata(vec![("review", 2)], None)));
    assert_eq!(ensure_current_state_visit_count(None, &key("1"), "work", &parsed("work", None), &st), None);
    let fresh = ensure_current_state_visit_count(None, &key("1"), "review", &parsed("review", None), &st).unwrap();
    assert_eq!(task_visit_count(Some(&fresh), &key("1"), "review"), 1);
}
