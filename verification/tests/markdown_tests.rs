use rhei_cli::markdown::{
    append_ticket, description_body, dominant_line_ending, ends_with_blank_line, insert_ticket_after_subtree,
    line_offsets, node_heading_outside_code, push_block_separator, push_block_with, render_rhei_file,
    render_ticket, strip_one_line_ending, title_case_kind, RheiHeader, TicketFields,
};

fn strings(v: &[&str]) -> Vec<String> {
    v.iter().map(|s| s.to_string()).collect()
}

fn ticket(local_id: &str) -> TicketFields {
    TicketFields {
        kind: "task".to_string(),
        local_id: local_id.to_string(),
        title: " Build it ".to_string(),
        state: "open".to_string(),
        prior: Vec::new(),
        provides: Vec::new(),
        consumes: Vec::new(),
        assignee: None,
        model: None,
        target: None,
        description: None,
    }
}

#[test]
fn blank_descriptions_are_dropped() {
    assert_eq!(description_body(&Some("  text \n".to_string())), Some("text".to_string()));
    assert_eq!(description_body(&Some(" \n\t".to_string())), None);
    assert_eq!(description_body(&None), None);
}

#[test]
fn a_minimal_rhei_header() {
    let h = RheiHeader {
        title: " Demo ".to_string(),
        states: None,
        max_levels: None,
        node_kinds: Vec::new(),
        description: None,
    };
    assert_eq!(render_rhei_file(&h, false), "# Rhei: Demo\n");
    assert_eq!(render_rhei_file(&h, true), "# Rhei: Demo\n\n## Tasks\n");
}

#[test]
fn a_full_rhei_header_keeps_the_fixed_order() {
    let h = RheiHeader {
        title: "Demo".to_string(),
        states: Some("open, done".to_string()),
        max_levels: Some(3),
        node_kinds: strings(&[" Epic", "TASK "]),
        description: Some("About it.".to_string()),
    };
    assert_eq!(
        render_rhei_file(&h, true),
        "# Rhei: Demo\n**States:** open, done\n\n---\nstructure:\n  maxLevels: 3\n  nodeKinds: [epic, task]\n---\n\nAbout it.\n\n## Tasks\n"
    );
}

#[test]
fn kinds_are_title_cased() {
    assert_eq!(title_case_kind("task"), "Task");
    assert_eq!(title_case_kind("Epic"), "Epic");
    assert_eq!(title_case_kind(""), "");
}

#[test]
fn ticket_heading_depth_follows_the_id() {
    assert_eq!(render_ticket(&ticket("1")), "### Task 1: Build it\n**State:** open\n");
    assert!(render_ticket(&ticket("1.2")).starts_with("#### Task 1.2: Build it\n"));
}

#[test]
fn ticket_fields_are_written_when_present() {
    let mut t = ticket("2");
    t.prior = strings(&[" 1 ", "3"]);
    t.provides = strings(&["api"]);
    t.consumes = strings(&["db"]);
    t.assignee = Some("alice ".to_string());
    t.model = Some("m1".to_string());
    t.target = Some("prod".to_string());
    t.description = Some("Details.".to_string());
    assert_eq!(
        render_ticket(&t),
        "### Task 2: Build it\n**State:** open\n**Prior:** 1, 3\n**Provides:** api\n**Consumes:** db\n**Assignee:** alice\n**Model:** m1\n**Target:** prod\n\nDetails.\n"
    );
}

#[test]
fn the_majority_line_ending_wins() {
    assert_eq!(dominant_line_ending("a\r\nb\r\nc\n"), "\r\n");
    assert_eq!(dominant_line_ending("a\r\nb\nc\n"), "\n");
    assert_eq!(dominant_line_ending(""), "\n");
}

#[test]
fn one_line_ending_is_stripped() {
    assert_eq!(strip_one_line_ending("a\r\n"), Some("a".to_string()));
    assert_eq!(strip_one_line_ending("a\n\n"), Some("a\n".to_string()));
    assert_eq!(strip_one_line_ending("a"), None);
}

#[test]
fn blank_line_endings_are_recognised() {
    assert!(ends_with_blank_line("a\n\n"));
    assert!(ends_with_blank_line("\n"));
    assert!(ends_with_blank_line("a\r\n\r\n"));
    assert!(!ends_with_blank_line("a\n"));
    assert!(!ends_with_blank_line("a"));
    assert!(!ends_with_blank_line(""));
}

#[test]
fn blocks_are_written_in_the_given_terminator() {
    let mut out = String::from("x");
    push_block_with(&mut out, "a\nb\r\n\n", "\r\n");
    assert_eq!(out, "xa\r\nb\r\n");
    let mut sep = String::new();
    push_block_separator(&mut sep, "text", "\n");
    assert_eq!(sep, "\n\n");
    let mut sep2 = String::new();
    push_block_separator(&mut sep2, "text\n\n", "\n");
    assert_eq!(sep2, "");
    let mut sep3 = String::new();
    push_block_separator(&mut sep3, "", "\n");
    assert_eq!(sep3, "");
}

#[test]
fn appending_keeps_the_text_and_adds_one_blank_line() {
    let raw = "# Rhei: Demo\n\n## Tasks\n";
    let out = append_ticket(raw, "### Task 1: X\n**State:** open\n");
    assert_eq!(out, "# Rhei: Demo\n\n## Tasks\n\n### Task 1: X\n**State:** open\n");
    assert!(out.starts_with(raw));
    let crlf = append_ticket("a\r\nb\r\n", "x\ny\n");
    assert_eq!(crlf, "a\r\nb\r\n\r\nx\r\ny\r\n");
}

#[test]
fn lines_are_offered_with_their_offsets() {
    let out = line_offsets("ab\r\ncd\nef");
    assert_eq!(out, vec![(0, "ab".to_string()), (4, "cd".to_string()), (7, "ef".to_string())]);
    assert_eq!(line_offsets(""), Vec::new());
}

#[test]
fn headings_in_code_blocks_are_ignored() {
    let mut in_code = false;
    assert_eq!(node_heading_outside_code("### Task 1.2: Title", &mut in_code), Some((3, "1.2".to_string())));
    assert_eq!(node_heading_outside_code("```rust", &mut in_code), None);
    assert!(in_code);
    assert_eq!(node_heading_outside_code("### Task 3: Hidden", &mut in_code), None);
    assert_eq!(node_heading_outside_code("```", &mut in_code), None);
    assert!(!in_code);
    assert_eq!(node_heading_outside_code("#### Epic api: T", &mut in_code), Some((4, "api".to_string())));
    assert_eq!(node_heading_outside_code("#Task 1: no space", &mut in_code), None);
    assert_eq!(node_heading_outside_code("## Tasks", &mut in_code), None);
}

#[test]
fn a_child_goes_after_its_parents_subtree() {
    let raw = "## Tasks\n\n### Task 1: A\nbody\n\n#### Task 1.1: B\n\n### Task 2: C\n";
    let out = insert_ticket_after_subtree(raw, "1", "#### Task 1.2: New\n").unwrap();
    assert_eq!(
        out,
        "## Tasks\n\n### Task 1: A\nbody\n\n#### Task 1.1: B\n\n#### Task 1.2: New\n\n### Task 2: C\n"
    );
    let at_end = insert_ticket_after_subtree(raw, "2", "#### Task 2.1: D\n").unwrap();
    assert_eq!(at_end, format!("{}\n#### Task 2.1: D\n", raw));
    assert_eq!(insert_ticket_after_subtree(raw, "9", "x\n"), None);
}
