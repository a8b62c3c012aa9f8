use rhei_cli::next_output::{next_output_text, NextChild, NextOutput};

fn output() -> NextOutput {
    NextOutput {
        peek: false,
        claimed_as: None,
        task_id: "auth.1".to_string(),
        title: "Rotate keys".to_string(),
        content: "\n  Rotate the signing keys.\n".to_string(),
        from_state: "todo".to_string(),
        to_state: "doing".to_string(),
        personality: None,
        instructions: String::new(),
        agent: None,
        model: None,
        children: Vec::new(),
    }
}

fn strings(v: &[&str]) -> Vec<String> {
    v.iter().map(|s| s.to_string()).collect()
}

#[test]
fn a_claim_that_moves_the_ticket() {
    assert_eq!(
        next_output_text(&output()),
        strings(&["Task auth.1 claimed: 'todo' -> 'doing'", "", "## Task auth.1: Rotate keys", "", "Rotate the signing keys."])
    );
}

#[test]
fn peeks_and_claims_that_stay_say_so() {
    let mut o = output();
    o.peek = true;
    assert_eq!(next_output_text(&o)[0], "Task auth.1 \u{2014} current state: 'doing' (read-only peek; not advanced)");
    let mut o = output();
    o.from_state = "doing".to_string();
    o.claimed_as = Some("bob".to_string());
    assert_eq!(next_output_text(&o)[0], "Task auth.1 claimed by bob (stays in 'doing')");
    o.claimed_as = None;
    assert_eq!(next_output_text(&o)[0], "Task auth.1 (already in 'doing')");
}

#[test]
fn agent_personality_children_and_instructions() {
    let mut o = output();
    o.content = "   ".to_string();
    o.model = Some("opus".to_string());
    o.personality = Some("terse".to_string());
    o.instructions = "Do it.".to_string();
    o.children = vec![NextChild {
        id: "auth.1.1".to_string(),
        kind: "subtask".to_string(),
        title: "Find keys".to_string(),
        state: "todo".to_string(),
        content: "line one\nline two\n".to_string(),
    }];
    assert_eq!(
        next_output_text(&o),
        strings(&[
            "Task auth.1 claimed: 'todo' -> 'doing'",
            "Agent: none  |  Model: opus",
            "",
            "Personality: terse",
            "",
            "## Task auth.1: Rotate keys",
            "",
            "  - Subtask auth.1.1: Find keys [todo]",
            "    line one",
            "    line two",
            "",
            "--- Instructions (doing) ---",
            "Do it.",
        ])
    );
}
