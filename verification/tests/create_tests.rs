use rhei_cli::create::{
    created_id_reads_back, dry_run_preview, errors_introduced_over, failure_note, inherited_validation_warning,
    judge_validation, new_write_step, not_read_back_failure, verdict_reason, reject_mode_confusion, reject_unusable_title, report_new_write,
    ticket_create_notes, widened_scope_note, CreateVerdict, ModeConfusion, NewOptions, NewWriteReport, NewWriteStep,
    TitleError, create_failure_reason, new_write_failure, verify_created_id, CreateFailure,
};

fn strings(v: &[&str]) -> Vec<String> {
    v.iter().map(|s| s.to_string()).collect()
}

fn options() -> NewOptions {
    NewOptions {
        title: "T".to_string(),
        project: None,
        id: None,
        description: None,
        description_file: None,
        dir: false,
        states: None,
        max_levels: None,
        node_kinds: Vec::new(),
        under: None,
        kind: None,
        state: None,
        prior: Vec::new(),
        provides: Vec::new(),
        consumes: Vec::new(),
        assignee: None,
        model: None,
        target: None,
        keep_on_error: false,
        dry_run: false,
        json: false,
    }
}

#[test]
fn titles_must_be_one_non_blank_line() {
    assert_eq!(reject_unusable_title("A title"), Ok(()));
    assert_eq!(reject_unusable_title("  \t "), Err(TitleError::Empty));
    assert_eq!(reject_unusable_title(""), Err(TitleError::Empty));
    assert_eq!(reject_unusable_title("two\nlines"), Err(TitleError::MultiLine));
    assert_eq!(reject_unusable_title("cr\rhere"), Err(TitleError::MultiLine));
}

#[test]
fn ticket_flags_are_refused_without_under() {
    let mut o = options();
    assert_eq!(reject_mode_confusion(&o), Ok(()));
    o.states = Some("a, b".to_string());
    assert_eq!(reject_mode_confusion(&o), Ok(()));
    o.model = Some("m".to_string());
    o.prior = strings(&["1"]);
    assert_eq!(reject_mode_confusion(&o), Err(ModeConfusion { flag: "--prior".to_string(), under: false }));
}

#[test]
fn rhei_flags_are_refused_with_under() {
    let mut o = options();
    o.under = Some("api".to_string());
    o.kind = Some("task".to_string());
    assert_eq!(reject_mode_confusion(&o), Ok(()));
    o.node_kinds = strings(&["epic"]);
    assert_eq!(reject_mode_confusion(&o), Err(ModeConfusion { flag: "--node-kinds".to_string(), under: true }));
    o.dir = true;
    assert_eq!(reject_mode_confusion(&o), Err(ModeConfusion { flag: "--dir".to_string(), under: true }));
}

#[test]
fn an_assignee_gets_a_note() {
    let mut o = options();
    assert!(ticket_create_notes(&o).is_empty());
    o.assignee = Some(" alice ".to_string());
    assert_eq!(
        ticket_create_notes(&o),
        vec![
            "`--assignee alice` marks the ticket claimed and in progress: `rhei next` and `rhei run` skip it until `rhei release <id>`."
                .to_string()
        ]
    );
}

#[test]
fn inherited_errors_are_spent_once_each() {
    let inherited = strings(&["e1", "e2", "e2"]);
    let after = strings(&["e2", "e3", "e1", "e2", "e2"]);
    assert_eq!(errors_introduced_over(&inherited, after), strings(&["e3", "e2"]));
}

#[test]
fn the_same_errors_introduce_nothing() {
    let errors = strings(&["a", "b", "a"]);
    assert!(errors_introduced_over(&errors, errors.clone()).is_empty());
}

#[test]
fn the_verdict_follows_what_the_write_added() {
    let inherited = strings(&["old"]);
    assert_eq!(judge_validation(&inherited, Ok(strings(&["old"]))), CreateVerdict::ReadBack);
    assert_eq!(
        judge_validation(&inherited, Ok(strings(&["old", "new"]))),
        CreateVerdict::Introduced(strings(&["new"]))
    );
    assert_eq!(judge_validation(&inherited, Err("old".to_string())), CreateVerdict::InheritedUnloadable);
    assert_eq!(
        judge_validation(&inherited, Err("broken".to_string())),
        CreateVerdict::Unloadable("broken".to_string())
    );
}

#[test]
fn the_created_id_must_read_back() {
    let ids = strings(&["api", "web"]);
    assert!(created_id_reads_back(true, &ids, "web", false, false));
    assert!(!created_id_reads_back(true, &ids, "db", true, true));
    assert!(created_id_reads_back(false, &ids, "api.1", true, true));
    assert!(!created_id_reads_back(false, &ids, "api.1", true, false));
}

#[test]
fn a_create_is_kept_or_undone() {
    assert_eq!(new_write_step(true, false, false), NewWriteStep::PreviewDryRun);
    assert_eq!(new_write_step(true, true, true), NewWriteStep::FailDryRun);
    assert_eq!(new_write_step(false, false, false), NewWriteStep::Keep);
    assert_eq!(new_write_step(false, true, true), NewWriteStep::KeepFailing);
    assert_eq!(new_write_step(false, true, false), NewWriteStep::RollBack);
}

#[test]
fn a_failed_create_says_what_became_of_it() {
    assert_eq!(
        failure_note(NewWriteStep::RollBack, "the project would not validate with it", "p/x.md"),
        Some(
            "note: nothing was written \u{2014} the create was rolled back because the project would not validate \
             with it. Re-run with `--keep-on-error` to inspect it."
                .to_string()
        )
    );
    assert_eq!(
        failure_note(NewWriteStep::FailDryRun, "r", "p"),
        Some(
            "note: nothing was written \u{2014} this was a dry run, and the real create would have been rolled back \
             because r."
                .to_string()
        )
    );
    assert_eq!(
        failure_note(NewWriteStep::KeepFailing, "r", "p/x.md"),
        Some("warning: kept p/x.md \u{2014} the project is left failing validation".to_string())
    );
    assert_eq!(failure_note(NewWriteStep::Keep, "r", "p"), None);
}

#[test]
fn inherited_errors_are_counted() {
    assert_eq!(inherited_validation_warning(&Vec::new()), None);
    assert_eq!(
        inherited_validation_warning(&strings(&["a"])),
        Some(
            "warning: the project was already failing validation before this create (1 error), and it fails the \
             same way after it \u{2014} the write is kept, and those errors are not this create's. Run `rhei \
             validate` to see them."
                .to_string()
        )
    );
    assert!(inherited_validation_warning(&strings(&["a", "b"])).unwrap().contains("(2 errors)"));
}

#[test]
fn a_kept_create_is_reported() {
    let w = NewWriteReport {
        kind: "ticket".to_string(),
        id: "auth.4".to_string(),
        title: "Rotate keys".to_string(),
        path: "auth/index.rhei.md".to_string(),
        state: Some("todo".to_string()),
        notes: strings(&["it waits on auth.3"]),
        next_hint: Some("rhei next auth".to_string()),
    };
    assert_eq!(
        report_new_write(&w),
        strings(&[
            "Created ticket auth.4 \"Rotate keys\" [todo] in auth/index.rhei.md",
            "Note: it waits on auth.3",
            "Next: rhei next auth",
        ])
    );
    let r = NewWriteReport {
        kind: "rhei".to_string(),
        id: "billing".to_string(),
        title: "Billing".to_string(),
        path: "billing/index.rhei.md".to_string(),
        state: None,
        notes: Vec::new(),
        next_hint: None,
    };
    assert_eq!(report_new_write(&r), strings(&["Created rhei \"Billing\" as `billing` at billing/index.rhei.md"]));
    assert_eq!(dry_run_preview("rhei", "billing", "b.md", "# x\n"), "Would create rhei billing at b.md\n\n# x\n");
}

#[test]
fn a_widened_scope_is_said_before_the_create() {
    assert_eq!(widened_scope_note(&Vec::new(), "/p"), None);
    assert_eq!(
        widened_scope_note(&strings(&["auth"]), "/p"),
        Some(
            "Scope: rhei 'auth' belongs to the project at /p, and its state machine, settings, and cross-rhei \
             **Prior:** resolve only there \u{2014} creating into that project."
                .to_string()
        )
    );
}

#[test]
fn an_undone_create_says_why() {
    assert_eq!(
        verdict_reason(&CreateVerdict::Introduced(strings(&["x"]))),
        Some("the project would not validate with it".to_string())
    );
    assert_eq!(verdict_reason(&CreateVerdict::Unloadable("e".to_string())), Some("the project would not load with it".to_string()));
    assert_eq!(verdict_reason(&CreateVerdict::ReadBack), None);
    let (msg, _, reason) = not_read_back_failure("ticket", "auth.4", "auth/index.rhei.md");
    assert_eq!(msg, "ticket 'auth.4' was written to auth/index.rhei.md, but reloading the project does not find it there");
    assert_eq!(reason, "the plan does not read it back");
}

#[test]
fn a_written_create_is_judged_then_read_back() {
    let inherited = strings(&["old"]);
    assert_eq!(
        new_write_failure(&inherited, Ok(strings(&["old", "new"])), true, "ticket", "a.1", "p.md"),
        Some(CreateFailure::Introduced(strings(&["new"])))
    );
    assert_eq!(new_write_failure(&inherited, Ok(strings(&["old"])), true, "ticket", "a.1", "p.md"), None);
    assert_eq!(new_write_failure(&inherited, Err("old".to_string()), false, "ticket", "a.1", "p.md"), None);
    assert_eq!(
        new_write_failure(&inherited, Err("broken".to_string()), true, "ticket", "a.1", "p.md"),
        Some(CreateFailure::Unloadable("broken".to_string()))
    );
    let missing = new_write_failure(&inherited, Ok(Vec::new()), false, "ticket", "a.1", "p.md").unwrap();
    assert_eq!(
        missing,
        CreateFailure::NotReadBack(
            "ticket 'a.1' was written to p.md, but reloading the project does not find it there".to_string(),
            "check the block did not land inside a code fence, or past the end of the section it was aimed at.".to_string()
        )
    );
    assert_eq!(create_failure_reason(&missing), "the plan does not read it back");
    assert_eq!(create_failure_reason(&CreateFailure::Unloadable(String::new())), "the project would not load with it");
    assert_eq!(verify_created_id(true, "rhei", "a", "a.rhei.md"), Ok(()));
}
