use rhei_cli::pass::{
    callback_step, CallbackStep, defer_non_concurrent, idle_step, pass_end, route_ready_task, Deferral, IdleStep, PassEnd, TaskRoute, WorkEntry,
};

fn work(task: &str, state: &str, concurrent: bool) -> WorkEntry {
    WorkEntry { task: task.to_string(), state: state.to_string(), concurrent, skip: false }
}

#[test]
fn ready_tickets_are_routed_by_their_state() {
    assert_eq!(route_ready_task(true, true, true, false, true, true, false, true), TaskRoute::Stalled);
    assert_eq!(route_ready_task(false, true, true, false, true, true, false, true), TaskRoute::Gate);
    assert_eq!(route_ready_task(false, false, true, true, true, true, false, true), TaskRoute::CallbackOnly);
    assert_eq!(route_ready_task(false, false, true, false, true, true, false, true), TaskRoute::Program);
    assert_eq!(route_ready_task(false, false, true, false, false, true, false, true), TaskRoute::ProgramUnresolved);
    assert_eq!(route_ready_task(false, false, false, false, false, false, true, false), TaskRoute::CallbackOnly);
    assert_eq!(route_ready_task(false, false, false, false, false, false, false, false), TaskRoute::NoAgent);
    assert_eq!(route_ready_task(false, false, false, false, false, true, false, false), TaskRoute::CallbackOnly);
    assert_eq!(route_ready_task(false, false, false, false, false, true, false, true), TaskRoute::Agents);
}

#[test]
fn one_ticket_holds_a_non_concurrent_state_per_pass() {
    let mut skipped = work("s", "review", false);
    skipped.skip = true;
    let es = vec![
        skipped,
        work("b", "review", false),
        work("b", "review", false),
        work("a", "review", false),
        work("c", "build", true),
        work("d", "build", true),
        work("a", "review", false),
        work("e", "test", false),
    ];
    assert_eq!(
        defer_non_concurrent(&es),
        Deferral {
            kept: vec![false, true, true, false, true, true, false, true],
            deferred: vec!["a".to_string()],
        }
    );
    let es = vec![work("z", "x", false), work("y", "x", false), work("b", "x", false)];
    assert_eq!(defer_non_concurrent(&es).deferred, vec!["b".to_string(), "y".to_string()]);
}

#[test]
fn an_empty_ready_set_waits_sleeps_or_ends() {
    assert_eq!(idle_step(false, true, true, false, Some(50), 10, 3), IdleStep::WaitForGate { announce: true });
    assert_eq!(idle_step(false, true, true, true, None, 10, 3), IdleStep::WaitForGate { announce: false });
    assert_eq!(idle_step(false, false, true, false, Some(50), 10, 3), IdleStep::SleepUntilPoll(40));
    assert_eq!(idle_step(false, false, false, false, Some(5), 10, 3), IdleStep::SleepUntilPoll(1));
    assert_eq!(idle_step(true, true, true, false, Some(50), 10, 0), IdleStep::ExplainHalt);
    assert_eq!(idle_step(false, false, false, false, None, 10, 2), IdleStep::End);
}

#[test]
fn a_pass_that_moved_nothing_ends_the_run_unless_someone_is_left() {
    assert_eq!(pass_end(true, false, false, false, false, false), PassEnd::Progressed);
    assert_eq!(pass_end(false, true, true, true, true, true), PassEnd::Stop);
    assert_eq!(pass_end(false, false, true, true, true, true), PassEnd::RetrySiblings);
    assert_eq!(pass_end(false, false, true, true, true, false), PassEnd::RetryStalled);
    assert_eq!(pass_end(false, false, false, true, false, false), PassEnd::Stop);
    assert_eq!(pass_end(false, false, true, false, false, false), PassEnd::Stop);
}

#[test]
fn a_callback_run_advances_a_ticket_from_a_state_once() {
    let mut visited: Vec<(String, String)> = Vec::new();
    let to = || Some("done".to_string());
    assert_eq!(callback_step(&mut visited, "1", "open", None, to(), true), CallbackStep::ShowTransition("done".to_string()));
    assert!(visited.is_empty());
    assert_eq!(callback_step(&mut visited, "1", "open", None, to(), false), CallbackStep::Advance("done".to_string()));
    assert_eq!(visited, vec![("1".to_string(), "open".to_string())]);
    assert_eq!(callback_step(&mut visited, "1", "open", None, to(), false), CallbackStep::AlreadyVisited);
    assert_eq!(callback_step(&mut visited, "2", "open", Some("closed".to_string()), to(), false), CallbackStep::ManualOnly("closed".to_string()));
    assert_eq!(callback_step(&mut visited, "2", "open", None, None, false), CallbackStep::NoTransition);
    assert_eq!(visited.len(), 1);
}
