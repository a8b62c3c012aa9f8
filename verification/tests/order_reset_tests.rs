use rhei_cli::order::{format_state_counts, lex_less, stable_order};
use rhei_cli::reset::{
    classify_authored, collect_authored_states, shows_run_trace, state_move_report, AuthoredStates, AuthoredTask,
};

fn strings(v: &[&str]) -> Vec<String> {
    v.iter().map(|s| s.to_string()).collect()
}

#[test]
fn strings_compare_by_code_point() {
    assert!(lex_less("a", "b"));
    assert!(lex_less("ab", "b"));
    assert!(lex_less("a", "ab"));
    assert!(!lex_less("b", "ab"));
    assert!(!lex_less("same", "same"));
    assert!(lex_less("Z", "a"));
}

#[test]
fn stable_order_sorts_and_keeps_ties_in_place() {
    let keys = strings(&["b", "a", "c", "a", "b"]);
    assert_eq!(stable_order(&keys), vec![1, 3, 0, 4, 2]);
    assert_eq!(stable_order(&Vec::new()), Vec::<usize>::new());
}

#[test]
fn state_counts_are_listed_by_state() {
    let states = strings(&["todo", "done", "todo", "in-progress", "done", "todo"]);
    assert_eq!(format_state_counts(&states), "done=2, in-progress=1, todo=3");
    assert_eq!(format_state_counts(&Vec::new()), "");
    assert_eq!(format_state_counts(&strings(&["x"])), "x=1");
}

fn task(id: &str, current: &str, recorded: Option<&str>, declared: bool) -> AuthoredTask {
    AuthoredTask {
        id: id.to_string(),
        current: current.to_string(),
        recorded: recorded.map(|s| s.to_string()),
        recorded_declared: declared,
        ledger_empty: recorded.is_none(),
        ran_here: false,
        run_trace: false,
        initial: Some("todo".to_string()),
    }
}

#[test]
fn a_run_trace_is_a_claim_a_counted_visit_or_a_result_link() {
    assert!(shows_run_trace(true, "todo", "todo", ""));
    assert!(shows_run_trace(false, "review#2", "review", ""));
    assert!(shows_run_trace(false, "done", "done", "text\n> **Result:** [out](x.md)\n"));
    assert!(!shows_run_trace(false, "todo", "todo", "plain body"));
}

#[test]
fn a_recorded_declared_state_is_the_authored_state() {
    let t = task("p/1", "done", Some("todo"), true);
    assert_eq!(classify_authored(&t), ("todo".to_string(), true, false, false));
    let same = task("p/2", "todo", Some("todo"), true);
    assert_eq!(classify_authored(&same), ("todo".to_string(), false, false, false));
}

#[test]
fn an_undeclared_record_leaves_the_task_where_it_stands() {
    let t = task("p/1", "done", Some("drafting"), false);
    assert_eq!(classify_authored(&t), ("done".to_string(), false, false, true));
}

#[test]
fn a_task_that_ran_without_a_ledger_is_stranded_unless_it_is_initial() {
    let mut t = task("p/1", "done", None, true);
    assert_eq!(classify_authored(&t), ("done".to_string(), false, false, false));
    t.ran_here = true;
    assert_eq!(classify_authored(&t), ("done".to_string(), false, true, false));
    t.current = "todo".to_string();
    assert_eq!(classify_authored(&t), ("todo".to_string(), false, false, false));
    t.current = "done".to_string();
    t.ledger_empty = false;
    assert_eq!(classify_authored(&t), ("done".to_string(), false, false, false));
    t.ledger_empty = true;
    t.initial = None;
    assert_eq!(classify_authored(&t), ("done".to_string(), false, false, false));
}

#[test]
fn findings_are_listed_by_task_id() {
    let mut stranded = task("p/0", "review", None, true);
    stranded.run_trace = true;
    let ts = vec![
        task("p/2", "done", Some("todo"), true),
        task("p/1", "done", Some("draft"), true),
        task("p/3", "done", Some("old"), false),
        stranded,
        task("p/4", "todo", None, true),
    ];
    let r = collect_authored_states(&ts);
    assert_eq!(r.targets, strings(&["todo", "draft", "done", "review", "todo"]));
    assert_eq!(
        r.moves,
        vec![
            ("p/1".to_string(), "done".to_string(), "draft".to_string()),
            ("p/2".to_string(), "done".to_string(), "todo".to_string()),
        ]
    );
    assert_eq!(r.stranded, vec![("p/0".to_string(), "review".to_string())]);
    assert_eq!(r.undeclared, vec![("p/3".to_string(), "done".to_string(), "old".to_string())]);
}

#[test]
fn the_reset_report_names_every_move() {
    let empty = AuthoredStates { targets: Vec::new(), moves: Vec::new(), stranded: Vec::new(), undeclared: Vec::new() };
    assert_eq!(state_move_report(&empty, "Moved"), strings(&["No task had moved from its authored state."]));
    let a = AuthoredStates {
        targets: Vec::new(),
        moves: vec![("p/1".to_string(), "done".to_string(), "todo".to_string())],
        stranded: vec![("p/0".to_string(), "review".to_string())],
        undeclared: vec![("p/3".to_string(), "done".to_string(), "old".to_string())],
    };
    assert_eq!(
        state_move_report(&a, "Would move"),
        strings(&[
            "Would move 1 task(s) back:",
            "  Task p/1: done \u{2192} todo",
            "Nothing records where these 1 task(s) came from, so they were left as they stand, without the results and logs the rest of this reset removed:",
            "  Task p/0: review",
            "Edit their **State:** lines directly if that is not where they should be.",
            "Task p/3 started in 'old', which this state machine no longer declares; left in 'done'.",
        ])
    );
}
