use rhei_cli::halt::{classify_halt, halt_line, halted_task_report, HaltCause, HaltFacts};
use rhei_cli::ready::{Supervision, TaskFacts};

fn strings(v: &[&str]) -> Vec<String> {
    v.iter().map(|s| s.to_string()).collect()
}

fn facts() -> HaltFacts {
    HaltFacts {
        held_by: None,
        open: String::new(),
        has_open_descendants: false,
        gating: false,
        supervision_held: false,
        supervising: false,
        can_finish: true,
        suggested_final: "done".to_string(),
        stranded: None,
        assignee: None,
        blocking_prior: None,
        manual_to: None,
        interrupted: false,
        worked: false,
        missing: None,
        plan_arg: String::new(),
        stops_before_inputs: false,
        missing_inputs: Vec::new(),
        next_transition_declared: true,
    }
}

#[test]
fn nothing_known_is_not_scheduled() {
    assert_eq!(classify_halt(&facts()), HaltCause::NotScheduled);
    let mut f = facts();
    f.next_transition_declared = false;
    assert_eq!(classify_halt(&f), HaltCause::NoTransition);
}

#[test]
fn a_holding_supervisor_comes_first() {
    let mut f = facts();
    f.held_by = Some(("api.1".to_string(), "supervise".to_string(), true));
    f.gating = true;
    f.assignee = Some("bob".to_string());
    assert_eq!(
        classify_halt(&f),
        HaltCause::HeldBySupervisor { supervisor: "api.1".to_string(), state: "supervise".to_string(), awaiting_human: true }
    );
}

#[test]
fn descendants_gates_and_supervisors() {
    let mut f = facts();
    f.has_open_descendants = true;
    f.open = "Task api.1.1 (open)".to_string();
    assert_eq!(classify_halt(&f), HaltCause::WaitingOnDescendants { open: "Task api.1.1 (open)".to_string() });
    f.gating = true;
    f.supervision_held = true;
    assert_eq!(classify_halt(&f), HaltCause::GateHoldingSubtree { open: "Task api.1.1 (open)".to_string() });
    let mut s = facts();
    s.supervising = true;
    s.can_finish = false;
    assert_eq!(classify_halt(&s), HaltCause::SupervisorHasNoTerminalEdge { suggested_final: "done".to_string() });
    s.can_finish = true;
    s.stranded = Some("Task api.2.1 (blocked)".to_string());
    assert_eq!(classify_halt(&s), HaltCause::SupervisorStrandedBySelfLoop { open: "Task api.2.1 (blocked)".to_string() });
    let mut g = facts();
    g.gating = true;
    assert_eq!(classify_halt(&g), HaltCause::Gate);
}

#[test]
fn claims_priors_and_manual_states() {
    let mut f = facts();
    f.manual_to = Some("done".to_string());
    assert_eq!(classify_halt(&f), HaltCause::ManualOnly { to: "done".to_string() });
    f.blocking_prior = Some("Task api.1 (open)".to_string());
    assert_eq!(classify_halt(&f), HaltCause::BlockedByPrior { prior: "Task api.1 (open)".to_string() });
    f.assignee = Some("carol".to_string());
    assert_eq!(classify_halt(&f), HaltCause::Claimed { assignee: "carol".to_string() });
}

#[test]
fn work_outcomes() {
    let mut f = facts();
    f.missing_inputs = strings(&["design.md"]);
    assert_eq!(classify_halt(&f), HaltCause::MissingInputs { entries: strings(&["design.md"]) });
    f.stops_before_inputs = true;
    assert_eq!(classify_halt(&f), HaltCause::NotScheduled);
    f.worked = true;
    assert_eq!(classify_halt(&f), HaltCause::Stalled);
    f.missing = Some(Vec::new());
    assert_eq!(classify_halt(&f), HaltCause::Stalled);
    f.missing = Some(strings(&["out.md"]));
    f.plan_arg = "plan.rhei.md".to_string();
    assert_eq!(
        classify_halt(&f),
        HaltCause::MissingOutputs { entries: strings(&["out.md"]), plan: "plan.rhei.md".to_string() }
    );
    f.interrupted = true;
    assert_eq!(classify_halt(&f), HaltCause::Interrupted);
}

#[test]
fn causes_are_described() {
    assert_eq!(
        HaltCause::Gate.describe("api.1", "review"),
        ("gating state awaiting review".to_string(), "transition manually when reviewed".to_string())
    );
    assert_eq!(
        HaltCause::Claimed { assignee: "bob".to_string() }.describe("api.1", "work"),
        (
            "claimed by bob".to_string(),
            "`rhei release api.1` to hand it back, or `rhei complete api.1 --result \u{2026}` to finish it".to_string()
        )
    );
    assert_eq!(HaltCause::Stalled.describe("api.1", "").0, "no forward transition available");
    assert_eq!(HaltCause::Stalled.describe("api.1", "work").0, "stalled in non-terminal state work");
    assert_eq!(
        HaltCause::MissingOutputs { entries: strings(&["a.md", "b.md"]), plan: String::new() }.describe("api.1", "work"),
        (
            "worker exited 0 without a.md, b.md".to_string(),
            "write the file(s) above and rerun, or record the outcome with `rhei transition --task api.1 --from work --to <state> --result \u{2026}`"
                .to_string()
        )
    );
    assert_eq!(
        HaltCause::HeldBySupervisor { supervisor: "api".to_string(), state: "sup".to_string(), awaiting_human: false }
            .describe("api.1", "open")
            .1,
        "the supervisor releases it on its next visit; nothing to do on Task api.1"
    );
}

#[test]
fn the_halt_line_joins_reason_and_action() {
    assert_eq!(
        halt_line(&HaltCause::NoTransition, "api.2", "stuck"),
        "Task api.2 (stuck): no forward transition available from 'stuck' \u{2014} declare a transition out of this state, or cancel the ticket"
    );
}

fn ticket(id: &str, gating: bool) -> TaskFacts {
    TaskFacts {
        id: id.to_string(),
        depth: 0,
        state: "open".to_string(),
        terminal: false,
        cancelled: false,
        gating,
        polling: false,
        next_attempt_at: None,
        priors: Vec::new(),
        assignee: None,
        initial: true,
        supervision: Supervision::Unsupervised,
        inputs_exist: true,
        in_scope: true,
        held_by: None,
        holder_state: String::new(),
        waiting_on_person: None,
    }
}

#[test]
fn the_halt_report_gives_a_line_per_ticket_and_the_verdict() {
    let mut gated = facts();
    gated.gating = true;
    let halted = vec![("1".to_string(), "open".to_string(), facts()), ("2".to_string(), "review".to_string(), gated)];
    let (lines, needs_human) = halted_task_report(&halted, &vec![ticket("1", false), ticket("2", true)], 0);
    assert_eq!(lines.len(), 2);
    assert_eq!(lines[0], halt_line(&HaltCause::NotScheduled, "1", "open"));
    assert_eq!(lines[1], halt_line(&classify_halt(&halted[1].2), "2", "review"));
    assert!(lines[0].starts_with("Task 1 (open): not scheduled before the run halted"));
    assert!(needs_human);
    let (_, only_gates) = halted_task_report(&Vec::new(), &vec![ticket("2", true)], 0);
    assert!(!only_gates);
}
