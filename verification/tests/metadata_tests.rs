use rhei_cli::metadata::{
    clear_poll_state_metadata, clear_runtime_state_visits, ensure_mapping, format_state_metadata_value,
    poll_next_attempt_at, set_poll_next_attempt_metadata, task_metadata_number, task_visit_count,
    yaml_value_to_epoch_secs, yaml_value_to_u64,
};
use rhei_cli::yaml::Yaml;

fn key(s: &str) -> Yaml {
    Yaml::Str(s.to_string())
}

fn map(entries: Vec<(Yaml, Yaml)>) -> Yaml {
    Yaml::Mapping(entries)
}

/// `metadata: { tasks: { <task>: <entries> } }`
fn root_with_task(task: Yaml, entries: Vec<(Yaml, Yaml)>) -> Vec<(Yaml, Yaml)> {
    vec![(key("metadata"), map(vec![(key("tasks"), map(vec![(task, map(entries))]))]))]
}

#[test]
fn numbers_are_read_only_from_non_negative_integers() {
    assert_eq!(yaml_value_to_u64(&Yaml::PosInt(5)), Some(5));
    assert_eq!(yaml_value_to_u64(&Yaml::NegInt(-5)), None);
    assert_eq!(yaml_value_to_u64(&key("5")), None);
    assert_eq!(yaml_value_to_epoch_secs(&Yaml::PosInt(1700000000)), Some(1700000000));
}

#[test]
fn visit_counts_are_at_least_one_once_recorded() {
    let root = root_with_task(
        key("1.2"),
        vec![(key("stateVisits"), map(vec![(key("work"), Yaml::PosInt(0)), (key("review"), Yaml::PosInt(3))]))],
    );
    assert_eq!(task_visit_count(Some(&root), &key("1.2"), "review"), 3);
    assert_eq!(task_visit_count(Some(&root), &key("1.2"), "work"), 1);
    assert_eq!(task_visit_count(Some(&root), &key("1.2"), "other"), 0);
    assert_eq!(task_visit_count(None, &key("1.2"), "review"), 0);
    assert_eq!(task_visit_count(Some(&root), &key("9"), "review"), 0);
}

#[test]
fn numeric_task_keys_are_integers() {
    let root = root_with_task(Yaml::PosInt(4), vec![(key("attempts"), Yaml::PosInt(2))]);
    assert_eq!(task_metadata_number(Some(&root), &Yaml::PosInt(4), "attempts"), Some(2));
    assert_eq!(task_metadata_number(Some(&root), &key("4"), "attempts"), None);
}

#[test]
fn a_recorded_poll_reads_back_and_counts_a_visit() {
    let r = set_poll_next_attempt_metadata(None, &key("3"), "waiting", 1234);
    assert_eq!(poll_next_attempt_at(Some(&r), &key("3"), "waiting"), Some(1234));
    assert_eq!(task_visit_count(Some(&r), &key("3"), "waiting"), 1);
    let r2 = set_poll_next_attempt_metadata(Some(&r), &key("3"), "waiting", 2000);
    assert_eq!(poll_next_attempt_at(Some(&r2), &key("3"), "waiting"), Some(2000));
    assert_eq!(task_visit_count(Some(&r2), &key("3"), "waiting"), 2);
}

#[test]
fn clearing_a_poll_forgets_it() {
    let r = set_poll_next_attempt_metadata(None, &key("3"), "waiting", 1234);
    let cleared = clear_poll_state_metadata(Some(&r), &key("3"), "waiting").unwrap();
    assert_eq!(poll_next_attempt_at(Some(&cleared), &key("3"), "waiting"), None);
    assert_eq!(task_visit_count(Some(&cleared), &key("3"), "waiting"), 0);
    assert!(clear_poll_state_metadata(None, &key("3"), "waiting").is_none());
}

#[test]
fn clearing_visits_drops_every_tasks_counts() {
    let root = root_with_task(
        key("1"),
        vec![(key("stateVisits"), map(vec![(key("work"), Yaml::PosInt(2))])), (key("other"), Yaml::Bool(true))],
    );
    let cleared = clear_runtime_state_visits(Some(&root)).unwrap();
    assert_eq!(task_visit_count(Some(&cleared), &key("1"), "work"), 0);
    assert!(clear_runtime_state_visits(None).is_none());
}

#[test]
fn state_values_with_spaces_are_quoted() {
    assert_eq!(format_state_metadata_value("in progress"), "`in progress`");
    assert_eq!(format_state_metadata_value("`in progress`"), "`in progress`");
    assert_eq!(format_state_metadata_value("done"), "done");
}

#[test]
fn ensure_mapping_replaces_other_values_only() {
    let mut m = vec![(key("a"), Yaml::PosInt(1)), (key("b"), map(vec![(key("x"), Yaml::Null)]))];
    ensure_mapping(&mut m, &key("a"));
    assert_eq!(m[0], (key("a"), map(vec![])));
    ensure_mapping(&mut m, &key("b"));
    assert_eq!(m[1], (key("b"), map(vec![(key("x"), Yaml::Null)])));
    ensure_mapping(&mut m, &key("c"));
    assert_eq!(m.len(), 3);
    assert_eq!(m[2], (key("c"), map(vec![])));
}
