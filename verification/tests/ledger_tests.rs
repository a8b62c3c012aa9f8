use rhei_cli::ledger::{
    last_recorded_source_state, ledger_first_departures, ledger_moves_for, resolve_state_handoff_sections,
    read_handoff_artifact, resolve_handoffs_from_candidates, ArtifactCandidate, ArtifactRead, HandoffError, HandoffInherit, HandoffSection, OutputArtifact,
};

fn pair(a: &str, b: &str) -> (String, String) {
    (a.to_string(), b.to_string())
}

fn strings(v: &[&str]) -> Vec<String> {
    v.iter().map(|s| s.to_string()).collect()
}

const LEDGER: &str = "api.1 open@work\napi.2 open@review\napi.1 work@done\nnot-a-move\nweb.1 @x\nweb.2 todo@done extra\n";

#[test]
fn the_first_departure_of_each_task_is_kept() {
    let mut d = ledger_first_departures(LEDGER);
    d.sort();
    assert_eq!(d, vec![pair("api.1", "open"), pair("api.2", "open"), pair("web.2", "todo")]);
    assert!(ledger_first_departures("").is_empty());
}

#[test]
fn the_moves_of_one_task_in_order() {
    assert_eq!(ledger_moves_for(LEDGER, "api.1"), vec![pair("open", "work"), pair("work", "done")]);
    assert_eq!(ledger_moves_for("  api.1  open @ work  \n", "api.1"), vec![pair("open", "work")]);
    assert!(ledger_moves_for(LEDGER, "zzz").is_empty());
}

#[test]
fn the_last_valid_move_into_the_state_names_the_source() {
    let moves = vec![
        ("draft".to_string(), "review".to_string(), true),
        ("fix".to_string(), "review".to_string(), true),
        ("bogus".to_string(), "review".to_string(), false),
        ("review".to_string(), "fix".to_string(), true),
    ];
    assert_eq!(last_recorded_source_state(&moves, "review"), Some("fix".to_string()));
    assert_eq!(last_recorded_source_state(&moves, "fix"), Some("review".to_string()));
    assert_eq!(last_recorded_source_state(&moves, "done"), None);
}

fn inherit(required: bool, name: Option<&str>, merge: Option<&str>) -> HandoffInherit {
    HandoffInherit {
        from_axis: "transition.previous".to_string(),
        required,
        name: name.map(|s| s.to_string()),
        merge: merge.map(|s| s.to_string()),
    }
}

fn handoff(name: &str) -> OutputArtifact {
    OutputArtifact { name: name.to_string(), kind: Some("handoff".to_string()) }
}

#[test]
fn handoff_content_is_injected() {
    let outputs = Some(vec![OutputArtifact { name: "log".to_string(), kind: None }, handoff("notes")]);
    let reads = vec![ArtifactRead::Content("ignored".to_string()), ArtifactRead::Content("the notes".to_string())];
    let src = Ok(Some("draft".to_string()));
    assert_eq!(
        resolve_state_handoff_sections("review", "api.1", &vec![inherit(true, None, None)], &src, &outputs, &reads),
        Ok(vec![HandoffSection { source_state: "draft".to_string(), content: "the notes".to_string() }])
    );
    let other_axis = HandoffInherit { from_axis: "task.parent".to_string(), required: true, name: None, merge: None };
    assert_eq!(resolve_state_handoff_sections("review", "api.1", &vec![other_axis], &Err("x".to_string()), &None, &Vec::new()), Ok(Vec::new()));
}

#[test]
fn several_handoffs_need_merge_all() {
    let outputs = Some(vec![handoff("a"), handoff("b")]);
    let reads = vec![ArtifactRead::Content("A".to_string()), ArtifactRead::Content("B".to_string())];
    let src = Ok(Some("draft".to_string()));
    assert_eq!(
        resolve_state_handoff_sections("review", "api.1", &vec![inherit(true, None, None)], &src, &outputs, &reads),
        Err(HandoffError::Ambiguous { state: "review".to_string(), source: "draft".to_string() })
    );
    assert_eq!(
        resolve_state_handoff_sections("review", "api.1", &vec![inherit(true, None, Some("all"))], &src, &outputs, &reads),
        Ok(vec![
            HandoffSection { source_state: "draft".to_string(), content: "A".to_string() },
            HandoffSection { source_state: "draft".to_string(), content: "B".to_string() },
        ])
    );
    assert_eq!(
        resolve_state_handoff_sections("review", "api.1", &vec![inherit(true, Some("b"), None)], &src, &outputs, &reads),
        Ok(vec![HandoffSection { source_state: "draft".to_string(), content: "B".to_string() }])
    );
}

#[test]
fn handoff_failures() {
    let outputs = Some(vec![handoff("a")]);
    let none = vec![ArtifactRead::NoContent(strings(&["/r/a.md", "/r/a.txt"]))];
    let src = Ok(Some("draft".to_string()));
    let req = vec![inherit(true, None, None)];
    let opt = vec![inherit(false, None, None)];
    assert_eq!(
        resolve_state_handoff_sections("review", "api.1", &req, &Err("ledger gone".to_string()), &outputs, &none),
        Err(HandoffError::LedgerUnreadable("ledger gone".to_string()))
    );
    assert_eq!(
        resolve_state_handoff_sections("review", "api.1", &req, &Ok(None), &outputs, &none),
        Err(HandoffError::NoRecordedSource { state: "review".to_string(), task: "api.1".to_string() })
    );
    assert_eq!(resolve_state_handoff_sections("review", "api.1", &opt, &Ok(None), &outputs, &none), Ok(Vec::new()));
    assert_eq!(
        resolve_state_handoff_sections("review", "api.1", &req, &src, &None, &Vec::new()),
        Err(HandoffError::SourceNotInMachine { state: "review".to_string(), source: "draft".to_string() })
    );
    assert_eq!(
        resolve_state_handoff_sections("review", "api.1", &req, &src, &Some(Vec::new()), &Vec::new()),
        Err(HandoffError::NoHandoffOutput { state: "review".to_string(), source: "draft".to_string() })
    );
    assert_eq!(
        resolve_state_handoff_sections("review", "api.1", &req, &src, &outputs, &none),
        Err(HandoffError::NoContent {
            state: "review".to_string(),
            artifact: "a".to_string(),
            source: "draft".to_string(),
            looked_for: strings(&["/r/a.md", "/r/a.txt"]),
        })
    );
    assert_eq!(resolve_state_handoff_sections("review", "api.1", &opt, &src, &outputs, &none), Ok(Vec::new()));
    let failed = vec![ArtifactRead::Failed("permission denied".to_string())];
    assert_eq!(
        resolve_state_handoff_sections("review", "api.1", &opt, &src, &outputs, &failed),
        Err(HandoffError::ReadFailed("permission denied".to_string()))
    );
}

fn cand(path: &str, found: Option<Result<&str, &str>>) -> ArtifactCandidate {
    ArtifactCandidate {
        path: path.to_string(),
        found: found.map(|f| f.map(|c| c.to_string()).map_err(|e| e.to_string())),
    }
}

#[test]
fn an_artifact_read_skips_blank_files_and_trims() {
    let c = vec![cand("a.md", None), cand("b.md", Some(Ok("  \n\t"))), cand("c.md", Some(Ok("\n notes \n")))];
    assert_eq!(read_handoff_artifact(&c), ArtifactRead::Content("notes".to_string()));
    let blank = vec![cand("a.md", None), cand("b.md", Some(Ok(" ")))];
    assert_eq!(
        read_handoff_artifact(&blank),
        ArtifactRead::NoContent(vec!["a.md".to_string(), "b.md".to_string()])
    );
    let bad = vec![cand("a.md", Some(Err("denied"))), cand("b.md", Some(Ok("x")))];
    assert_eq!(read_handoff_artifact(&bad), ArtifactRead::Failed("denied".to_string()));
    assert_eq!(read_handoff_artifact(&Vec::new()), ArtifactRead::NoContent(Vec::new()));
}

#[test]
fn handoffs_from_candidates_are_trimmed_and_blank_ones_required_fail() {
    let src: Result<Option<String>, String> = Ok(Some("draft".to_string()));
    let outputs = Some(vec![OutputArtifact { name: "log".to_string(), kind: None }, handoff("notes")]);
    let cands = vec![vec![cand("log.txt", Some(Ok("ignored")))], vec![cand("notes.md", Some(Ok("  hi\n")))]];
    assert_eq!(
        resolve_handoffs_from_candidates("review", "api.1", &vec![inherit(true, None, None)], &src, &outputs, &cands),
        Ok(vec![HandoffSection { source_state: "draft".to_string(), content: "hi".to_string() }])
    );
    let blank = vec![vec![], vec![cand("notes.md", Some(Ok("   ")))]];
    assert_eq!(
        resolve_handoffs_from_candidates("review", "api.1", &vec![inherit(false, None, None)], &src, &outputs, &blank),
        Ok(Vec::new())
    );
    assert_eq!(
        resolve_handoffs_from_candidates("review", "api.1", &vec![inherit(true, None, None)], &src, &outputs, &blank),
        Err(HandoffError::NoContent {
            state: "review".to_string(),
            artifact: "notes".to_string(),
            source: "draft".to_string(),
            looked_for: vec!["notes.md".to_string()],
        })
    );
}
