use rhei_cli::ready::{
    any_open_descendant, blocking_priors, descendants_are_terminal, earliest_pending_poll_deadline,
    find_claimable_tasks, find_held_tasks, find_ready_tasks, find_runnable_tasks, first_blocking_prior,
    format_held_tasks, format_open_descendants, format_supervisor_holds, has_pending_human_gate,
    no_advancement_summary, open_descendant_tasks, scoped_unfinished_task_exists, terminal_task_count, terminal_ticket_ids,
    Supervision,
    TaskFacts,
};

fn task(id: &str, depth: usize, state: &str) -> TaskFacts {
    TaskFacts {
        id: id.to_string(),
        depth,
        state: state.to_string(),
        terminal: false,
        cancelled: false,
        gating: false,
        polling: false,
        next_attempt_at: None,
        priors: Vec::new(),
        assignee: None,
        initial: true,
        supervision: Supervision::Unsupervised,
        inputs_exist: true,
        in_scope: true,
        held_by: None,
        holder_state: String::new(),
        waiting_on_person: None,
    }
}

fn done(id: &str, depth: usize) -> TaskFacts {
    let mut t = task(id, depth, "done");
    t.terminal = true;
    t
}

fn plan() -> Vec<TaskFacts> {
    let mut api2 = task("api.2", 0, "open");
    api2.priors = vec!["api.1.1".to_string()];
    let mut api3 = task("api.3", 0, "open");
    api3.priors = vec!["api.1".to_string()];
    let mut api4 = task("api.4", 0, "review");
    api4.gating = true;
    api4.waiting_on_person = Some("the owner".to_string());
    let mut api5 = task("api.5", 0, "wait");
    api5.polling = true;
    api5.next_attempt_at = Some(200);
    let mut api6 = task("api.6", 0, "work");
    api6.assignee = Some("bob".to_string());
    let mut api7 = task("api.7", 0, "work");
    api7.initial = false;
    vec![task("api.1", 0, "open"), done("api.1.1", 1), task("api.1.2", 1, "open"), api2, api3, api4, api5, api6, api7]
}

#[test]
fn the_ready_set_and_its_views() {
    let ts = plan();
    assert_eq!(find_ready_tasks(&ts, 100), vec![2, 3, 7, 8]);
    assert_eq!(find_runnable_tasks(&ts, 100), vec![2, 3, 8]);
    assert_eq!(find_held_tasks(&ts, 100), vec![7]);
    assert_eq!(find_claimable_tasks(&ts, 100), vec![2, 3]);
    // Once the poll deadline has passed, the polling ticket is ready too.
    assert_eq!(find_ready_tasks(&ts, 300), vec![2, 3, 6, 7, 8]);
}

#[test]
fn a_parent_waits_for_its_subtree() {
    let ts = plan();
    assert!(any_open_descendant(&ts, 0));
    assert!(!descendants_are_terminal(&ts, 0));
    assert!(descendants_are_terminal(&ts, 3));
    assert_eq!(open_descendant_tasks(&ts, 0), vec![2]);
    assert_eq!(format_open_descendants(&ts, &vec![2]), "Task api.1.2 (open)");
    let mut ts2 = plan();
    ts2[0].supervision = Supervision::SupervisorReady;
    assert_eq!(find_ready_tasks(&ts2, 100), vec![0, 2, 3, 7, 8]);
    ts2[2].supervision = Supervision::Held;
    assert_eq!(find_ready_tasks(&ts2, 100), vec![0, 3, 7, 8]);
}

#[test]
fn cancelled_and_missing_priors_do_not_satisfy() {
    let mut ts = plan();
    ts[1].cancelled = true;
    assert_eq!(find_ready_tasks(&ts, 100), vec![2, 7, 8]);
    let mut ts2 = plan();
    ts2[3].priors = vec!["nowhere".to_string()];
    assert_eq!(find_ready_tasks(&ts2, 100), vec![2, 7, 8]);
    assert_eq!(blocking_priors(&ts2, 3), vec!["Task nowhere (missing)".to_string()]);
}

#[test]
fn long_lists_are_capped_at_three() {
    let ts: Vec<TaskFacts> = (1..=5).map(|i| task(&format!("a.{}", i), 0, "open")).collect();
    assert_eq!(
        format_open_descendants(&ts, &vec![0, 1, 2, 3, 4]),
        "Task a.1 (open), Task a.2 (open), Task a.3 (open) (+2 more)"
    );
}

#[test]
fn priors_are_named_with_their_state() {
    let mut ts = plan();
    assert_eq!(blocking_priors(&ts, 4), vec!["Task api.1 (open)".to_string()]);
    assert_eq!(first_blocking_prior(&ts, 4), Some("Task api.1 (open)".to_string()));
    assert_eq!(first_blocking_prior(&ts, 3), None);
    ts[0].in_scope = false;
    assert_eq!(first_blocking_prior(&ts, 4), Some("Task api.1 (open, outside the --rhei scope)".to_string()));
    assert_eq!(blocking_priors(&ts, 4), vec!["Task api.1 (open)".to_string()]);
}

#[test]
fn held_tickets_and_supervisor_holds() {
    let ts = plan();
    assert_eq!(format_held_tasks(&ts, &vec![7]), "Task api.6 (assignee bob)");
    assert_eq!(format_held_tasks(&ts, &vec![7, 2]), "Task api.6 (assignee bob), Task api.1.2 (assignee ?)");
    let mut held = plan();
    held[2].held_by = Some("api.9".to_string());
    held[3].held_by = Some("api.8".to_string());
    held[4].held_by = Some("api.9".to_string());
    held[1].held_by = Some("api.7".to_string());
    assert_eq!(
        format_supervisor_holds(&held),
        vec!["2 ticket(s) held by supervisor Task api.9".to_string(), "1 ticket(s) held by supervisor Task api.8".to_string()]
    );
}

#[test]
fn what_is_left_of_a_pass() {
    let ts = plan();
    assert_eq!(terminal_task_count(&ts), 1);
    assert!(scoped_unfinished_task_exists(&ts));
    assert!(has_pending_human_gate(&ts));
    assert_eq!(earliest_pending_poll_deadline(&ts, 100), Some(200));
    assert_eq!(earliest_pending_poll_deadline(&ts, 200), None);
    let finished = vec![done("a.1", 0), done("a.2", 0)];
    assert!(!scoped_unfinished_task_exists(&finished));
    assert!(!has_pending_human_gate(&finished));
    assert_eq!(terminal_task_count(&finished), 2);
}

#[test]
fn the_no_work_summary() {
    let ts = plan();
    assert_eq!(no_advancement_summary(&ts, None), "No tasks could be advanced.");
    assert_eq!(
        no_advancement_summary(&ts, Some("api")),
        "No tasks could be advanced in the --rhei scope (api): Task api.3 waiting on Task api.1 (open), Task api.4 waiting on the owner."
    );
    assert_eq!(
        no_advancement_summary(&vec![task("a.1", 0, "open")], Some("a")),
        "No tasks could be advanced in the --rhei scope (a)."
    );
}

#[test]
fn terminal_ticket_ids_are_sorted_and_distinct() {
    let ts = vec![done("b.2", 0), task("a", 0, "open"), done("a.1", 1), done("b.2", 1), done("B", 0)];
    assert_eq!(terminal_ticket_ids(&ts), vec!["B".to_string(), "a.1".to_string(), "b.2".to_string()]);
    assert_eq!(terminal_ticket_ids(&vec![task("x", 0, "open")]), Vec::<String>::new());
}
