use rhei_cli::claim::{claim_plan, claim_step, ClaimPlan, ClaimStep};
use rhei_cli::ready::{Supervision, TaskFacts};

fn ticket(id: &str, depth: usize) -> TaskFacts {
    TaskFacts {
        id: id.to_string(),
        depth,
        state: "open".to_string(),
        terminal: false,
        cancelled: false,
        gating: false,
        polling: false,
        next_attempt_at: None,
        priors: Vec::new(),
        assignee: None,
        initial: true,
        supervision: Supervision::Unsupervised,
        inputs_exist: true,
        in_scope: true,
        held_by: None,
        holder_state: String::new(),
        waiting_on_person: None,
    }
}

#[test]
fn with_no_ticket_named_the_first_claimable_in_scope_is_claimed() {
    let mut a = ticket("a", 0);
    a.in_scope = false;
    let mut b = ticket("b", 0);
    b.assignee = Some("codex".to_string());
    let c = ticket("c", 0);
    let ts = vec![a, b, c];
    assert_eq!(claim_step(&ts, None, false, false, 0), ClaimStep::Claim(2));
    let mut only = ticket("x", 0);
    only.terminal = true;
    assert_eq!(claim_step(&vec![only], None, false, false, 0), ClaimStep::NothingClaimable);
}

#[test]
fn a_named_ticket_with_an_open_subtree_is_refused() {
    let ts = vec![ticket("p", 0), ticket("p.1", 1), ticket("q", 0)];
    assert_eq!(
        claim_step(&ts, Some(0), false, false, 0),
        ClaimStep::OpenDescendants { open: vec![1], instead: Some(1) }
    );
    assert_eq!(claim_step(&ts, Some(0), true, false, 0), ClaimStep::Claim(0));
}

#[test]
fn a_named_ticket_is_refused_when_held_claimed_or_blocked() {
    let mut sup = ticket("s", 0);
    sup.assignee = Some("ada".to_string());
    let mut held = ticket("s.1", 1);
    held.held_by = Some("s".to_string());
    held.holder_state = "supervise".to_string();
    let ts = vec![sup, held];
    assert_eq!(
        claim_step(&ts, Some(1), false, true, 0),
        ClaimStep::HeldBySupervisor {
            supervisor: "s".to_string(),
            state: "supervise".to_string(),
            holder: Some("ada".to_string()),
            awaiting_human: true,
        }
    );
    let mut mine = ticket("m", 0);
    mine.assignee = Some("bob".to_string());
    assert_eq!(claim_step(&vec![mine], Some(0), false, false, 0), ClaimStep::AlreadyAssigned("bob".to_string()));
    let mut later = ticket("l", 0);
    later.priors = vec!["f".to_string()];
    let first = ticket("f", 0);
    let ts = vec![first, later];
    assert_eq!(
        claim_step(&ts, Some(1), false, false, 0),
        ClaimStep::BlockedByPriors(Some("Task f (open)".to_string()))
    );
    let mut moved = ticket("l", 0);
    moved.priors = vec!["f".to_string()];
    moved.initial = false;
    assert_eq!(claim_step(&vec![ticket("f", 0), moved], Some(1), false, false, 0), ClaimStep::Claim(1));
}

#[test]
fn a_claim_is_written_as_the_agent_or_manual() {
    assert_eq!(
        claim_plan(true, false, true, false, false, None),
        ClaimPlan { advance_initial: true, claim_as: Some("manual".to_string()) }
    );
    assert_eq!(
        claim_plan(true, true, true, false, false, Some("codex".to_string())),
        ClaimPlan { advance_initial: false, claim_as: Some("codex".to_string()) }
    );
    assert_eq!(
        claim_plan(true, false, true, true, false, Some("codex".to_string())),
        ClaimPlan { advance_initial: false, claim_as: None }
    );
    assert_eq!(claim_plan(false, false, true, false, true, None), ClaimPlan { advance_initial: false, claim_as: None });
}
