use rhei_cli::gitcheck::{
    capture_head, needs_status, porcelain_paths, short_git_head, stale_head_error, verify_after_success,
};
use rhei_cli::ready::{Supervision, TaskFacts};
use rhei_cli::release::{
    check_release_request, claimed_tickets, release_report, release_target_by_id, remove_task_assignee,
    without_task_assignee, ReleaseError, ReleaseRequestError, ReleaseTarget,
};

fn strings(v: &[&str]) -> Vec<String> {
    v.iter().map(|s| s.to_string()).collect()
}

const TASKS: &str = "### Task 1: A\n**State:** open\n**Assignee:** bob\n\n### Task 2: B\n**Assignee:** carol\n";

#[test]
fn releasing_drops_only_the_tasks_claim() {
    assert_eq!(
        remove_task_assignee(TASKS, "1"),
        Ok("### Task 1: A\n**State:** open\n\n### Task 2: B\n**Assignee:** carol\n".to_string())
    );
    assert_eq!(
        remove_task_assignee(TASKS, "2"),
        Ok("### Task 1: A\n**State:** open\n**Assignee:** bob\n\n### Task 2: B\n".to_string())
    );
}

#[test]
fn release_errors() {
    assert_eq!(remove_task_assignee(TASKS, "3"), Err(ReleaseError::TaskNotFound));
    assert_eq!(remove_task_assignee("### Task 1: A\n**State:** open", "1"), Err(ReleaseError::NoAssigneeLine));
}

#[test]
fn claims_inside_code_blocks_stay() {
    let raw = "### Task 1: A\n```\n**Assignee:** example\n```\n**Assignee:** bob";
    assert_eq!(
        without_task_assignee(raw, "1"),
        ("### Task 1: A\n```\n**Assignee:** example\n```".to_string(), true, true)
    );
}

#[test]
fn heads_are_shortened_to_twelve_bytes() {
    assert_eq!(short_git_head("0123456789abcdef0123"), "0123456789ab");
    assert_eq!(short_git_head("abc"), "abc");
    // Twelve bytes would split the last character: the whole head is shown.
    assert_eq!(short_git_head("0123456789a\u{e9}xyz"), "0123456789a\u{e9}xyz");
}

#[test]
fn porcelain_lines_give_paths() {
    let out = " M plan.rhei.md\n?? results/a.md\nR  old -> new\n   \n";
    assert_eq!(porcelain_paths(out), strings(&["plan.rhei.md", "results/a.md", "old -> new"]));
    assert!(porcelain_paths("").is_empty());
}

#[test]
fn a_moved_head_with_dirty_paths_is_reported() {
    assert_eq!(stale_head_error("aaaaaaaaaaaaaaaa", "aaaaaaaaaaaaaaaa", &strings(&["x"])), None);
    assert_eq!(stale_head_error("aaaaaaaaaaaaaaaa", "bbbbbbbbbbbbbbbb", &Vec::new()), None);
    assert_eq!(
        stale_head_error("aaaaaaaaaaaaaaaa", "bbbbbbbbbbbbbbbb", &strings(&["plan.rhei.md", "r.md"])),
        Some(
            "rhei run observed HEAD move from aaaaaaaaaaaa to bbbbbbbbbbbb, but tracked Rhei-owned plan/result paths remain uncommitted:\n  plan.rhei.md\n  r.md\n\nThe worktree reflects the latest orchestrator transitions, but HEAD does not. Commit or revert these paths before treating HEAD as durable plan state."
                .to_string()
        )
    );
}

fn facts(id: &str, assignee: Option<&str>, terminal: bool, in_scope: bool) -> TaskFacts {
    TaskFacts {
        id: id.to_string(),
        depth: 0,
        state: "work".to_string(),
        terminal,
        cancelled: false,
        gating: false,
        polling: false,
        next_attempt_at: None,
        priors: Vec::new(),
        assignee: assignee.map(|a| a.to_string()),
        initial: false,
        supervision: Supervision::Unsupervised,
        inputs_exist: true,
        in_scope,
        held_by: None,
        holder_state: String::new(),
        waiting_on_person: None,
    }
}

#[test]
fn release_takes_one_ticket_or_all() {
    assert_eq!(check_release_request(true, false), Ok(()));
    assert_eq!(check_release_request(false, true), Ok(()));
    assert_eq!(check_release_request(true, true), Err(ReleaseRequestError::TargetChoice));
    assert_eq!(check_release_request(false, false), Err(ReleaseRequestError::TargetChoice));
    assert_eq!(
        ReleaseRequestError::TargetChoice.message().0,
        "`rhei release` takes either one ticket \u{2014} `rhei release <ticket-id>`, or `--task <id>` \u{2014} or \
         `--all`, which sweeps every claimed ticket in scope"
    );
}

#[test]
fn a_named_ticket_must_hold_a_claim() {
    let t = facts("auth.1", Some("bob"), false, true);
    assert_eq!(release_target_by_id("auth.1", Some(&t)), Ok("bob".to_string()));
    let free = facts("auth.2", None, false, true);
    let err = release_target_by_id("auth.2", Some(&free)).unwrap_err();
    assert_eq!(err, ReleaseRequestError::NoClaim("auth.2".to_string()));
    assert_eq!(
        err.message(),
        (
            "Task auth.2 holds no claim \u{2014} it has no **Assignee:** to release".to_string(),
            Some("nothing to release. See who holds what with: rhei list <plan>".to_string())
        )
    );
    let missing = release_target_by_id("auth.9", None).unwrap_err();
    assert_eq!(missing.message(), ("task 'auth.9' not found in the plan".to_string(), None));
}

#[test]
fn a_sweep_takes_claimed_open_tickets_in_scope() {
    let ts = vec![
        facts("1", Some("a"), false, true),
        facts("2", None, false, true),
        facts("3", Some("b"), true, true),
        facts("4", Some("c"), false, false),
        facts("5", Some("d"), false, true),
    ];
    assert_eq!(claimed_tickets(&ts), vec![0, 4]);
}

#[test]
fn the_release_report_names_each_claim_and_how_to_reclaim() {
    assert_eq!(release_report(&Vec::new(), false), strings(&["No claimed tickets to release."]));
    let targets = vec![
        ReleaseTarget {
            id: "auth.1".to_string(),
            assignee: "bob".to_string(),
            state: "review#2".to_string(),
            normalized_state: "review".to_string(),
            initial_state: Some("todo".to_string()),
        },
        ReleaseTarget {
            id: "auth.2".to_string(),
            assignee: "amy".to_string(),
            state: "todo".to_string(),
            normalized_state: "todo".to_string(),
            initial_state: Some("todo".to_string()),
        },
    ];
    assert_eq!(
        release_report(&targets, true),
        strings(&[
            "Would release Task auth.1 (was assigned to bob)",
            "  note: still in 'review#2'. `rhei next` claims from 'todo', so move it back with `rhei transition --task auth.1 --from review#2 --to todo` if it should be picked up again.",
            "Would release Task auth.2 (was assigned to amy)",
            "",
            "Dry run \u{2014} nothing was changed.",
        ])
    );
    let one = vec![ReleaseTarget {
        id: "auth.2".to_string(),
        assignee: "amy".to_string(),
        state: "todo".to_string(),
        normalized_state: "todo".to_string(),
        initial_state: None,
    }];
    assert_eq!(release_report(&one, false), strings(&["Released Task auth.2 (was assigned to amy)"]));
}

#[test]
fn a_disabled_check_notes_no_head() {
    assert_eq!(capture_head(false, Some("abc".to_string())), None);
    assert_eq!(capture_head(true, Some("abc".to_string())), Some("abc".to_string()));
    assert_eq!(capture_head(true, None), None);
}

#[test]
fn status_is_asked_only_when_head_moved() {
    let a = Some("aaaa".to_string());
    let b = Some("bbbb".to_string());
    assert!(!needs_status(&None, &b));
    assert!(!needs_status(&a, &None));
    assert!(!needs_status(&a, &a.clone()));
    assert!(needs_status(&a, &b));
}

#[test]
fn after_success_fails_only_on_a_moved_head() {
    let before = Some("aaaaaaaaaaaaaaaa".to_string());
    let after = Some("bbbbbbbbbbbbbbbb".to_string());
    let dirty: Result<Vec<String>, String> = Ok(strings(&["plan.rhei.md"]));
    assert_eq!(verify_after_success(&None, &after, &dirty), Ok(()));
    assert_eq!(verify_after_success(&before, &before.clone(), &dirty), Ok(()));
    assert_eq!(verify_after_success(&before, &after, &Ok(Vec::new())), Ok(()));
    assert_eq!(
        verify_after_success(&before, &after, &Err("git status failed".to_string())),
        Err("git status failed".to_string())
    );
    assert_eq!(
        verify_after_success(&before, &after, &dirty),
        Err("rhei run observed HEAD move from aaaaaaaaaaaa to bbbbbbbbbbbb, but tracked Rhei-owned plan/result paths remain uncommitted:\n  plan.rhei.md\n\nThe worktree reflects the latest orchestrator transitions, but HEAD does not. Commit or revert these paths before treating HEAD as durable plan state."
            .to_string())
    );
    let disabled = capture_head(false, Some("aaaaaaaaaaaaaaaa".to_string()));
    assert_eq!(verify_after_success(&disabled, &after, &dirty), Ok(()));
}
