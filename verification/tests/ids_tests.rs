use rhei_cli::ids::{
    derive_rhei_id, is_legal_rhei_id, is_legal_ticket_segment, next_sibling_number, resolve_new_rhei_id,
    resolve_new_ticket_segment, parse_task_id, IdError, IdSegment,
};

fn strings(v: &[&str]) -> Vec<String> {
    v.iter().map(|s| s.to_string()).collect()
}

#[test]
fn ids_are_derived_from_titles() {
    assert_eq!(derive_rhei_id("My New Feature!"), Some("my-new-feature".to_string()));
    assert_eq!(derive_rhei_id("  --Hello,   World--  "), Some("hello-world".to_string()));
    assert_eq!(derive_rhei_id("123 Go"), Some("go".to_string()));
    assert_eq!(derive_rhei_id("snake_case-Name"), Some("snake_case-name".to_string()));
    assert_eq!(derive_rhei_id("!!!"), None);
    assert_eq!(derive_rhei_id("2024"), None);
}

#[test]
fn a_derived_id_is_always_legal() {
    for title in ["My New Feature!", "  --Hello,   World--  ", "123 Go", "a", "Zürich trip"] {
        if let Some(id) = derive_rhei_id(title) {
            assert!(is_legal_rhei_id(&id), "{} gave {}", title, id);
        }
    }
}

#[test]
fn legal_rhei_ids_start_with_a_letter() {
    assert!(is_legal_rhei_id("api"));
    assert!(is_legal_rhei_id("a_b-9"));
    assert!(!is_legal_rhei_id("9a"));
    assert!(!is_legal_rhei_id(""));
    assert!(!is_legal_rhei_id("a.b"));
    assert!(!is_legal_rhei_id("a b"));
}

#[test]
fn ticket_segments_are_numbers_or_identifiers() {
    assert!(is_legal_ticket_segment("1"));
    assert!(is_legal_ticket_segment("0"));
    assert!(is_legal_ticket_segment("42"));
    assert!(!is_legal_ticket_segment("01"));
    assert!(is_legal_ticket_segment("setup"));
    assert!(!is_legal_ticket_segment("1a"));
    assert!(!is_legal_ticket_segment(""));
    assert!(!is_legal_ticket_segment("a.b"));
}

#[test]
fn the_next_sibling_is_one_past_the_highest_number() {
    assert_eq!(next_sibling_number(&Vec::new()), 1);
    assert_eq!(next_sibling_number(&strings(&["1", "3", "setup", "2"])), 4);
    assert_eq!(next_sibling_number(&strings(&["setup"])), 1);
    assert_eq!(next_sibling_number(&strings(&["4294967295"])), 4294967295);
    assert_eq!(next_sibling_number(&strings(&["4294967296", "7"])), 8);
}

#[test]
fn the_next_sibling_number_is_free() {
    let siblings = strings(&["1", "2", "5"]);
    let n = next_sibling_number(&siblings).to_string();
    assert!(!siblings.contains(&n));
}

#[test]
fn rhei_ids_come_from_the_flag_or_the_title() {
    assert_eq!(resolve_new_rhei_id("My Feature", None), Ok("my-feature".to_string()));
    assert_eq!(resolve_new_rhei_id("My Feature", Some("  api ")), Ok("api".to_string()));
}

#[test]
fn rhei_id_errors() {
    assert_eq!(resolve_new_rhei_id("!!!", None), Err(IdError::NoIdFromTitle { title: "!!!".to_string() }));
    assert_eq!(
        resolve_new_rhei_id("x", Some("My Api")),
        Err(IdError::IllegalRheiId { id: "My Api".to_string(), suggestion: Some("my-api".to_string()) })
    );
    assert_eq!(
        resolve_new_rhei_id("x", Some("123")),
        Err(IdError::IllegalRheiId { id: "123".to_string(), suggestion: None })
    );
    assert_eq!(resolve_new_rhei_id("Basin", None), Err(IdError::ReservedRheiId { id: "basin".to_string() }));
}

#[test]
fn ticket_segments_resolve_from_siblings_or_the_flag() {
    let siblings = strings(&["1", "2"]);
    assert_eq!(resolve_new_ticket_segment(None, &siblings, "api"), Ok("3".to_string()));
    assert_eq!(resolve_new_ticket_segment(Some(" setup "), &siblings, "api"), Ok("setup".to_string()));
    assert_eq!(
        resolve_new_ticket_segment(Some("01"), &siblings, "api"),
        Err(IdError::IllegalTicketId { id: "01".to_string() })
    );
    assert_eq!(
        resolve_new_ticket_segment(Some("2"), &siblings, "api/1"),
        Err(IdError::TicketIdTaken { parent: "api/1".to_string(), id: "2".to_string() })
    );
}

#[test]
fn task_ids_parse_into_numbers_and_names() {
    assert_eq!(parse_task_id("1"), vec![IdSegment::Number(1)]);
    assert_eq!(parse_task_id("api"), vec![IdSegment::Named("api".to_string())]);
    assert_eq!(
        parse_task_id("1.2.cache"),
        vec![IdSegment::Number(1), IdSegment::Number(2), IdSegment::Named("cache".to_string())]
    );
    assert_eq!(parse_task_id("+7"), vec![IdSegment::Number(7)]);
    assert_eq!(parse_task_id("4294967296"), vec![IdSegment::Named("4294967296".to_string())]);
}

#[test]
fn malformed_task_ids_stay_one_named_segment() {
    assert_eq!(parse_task_id(""), vec![IdSegment::Named(String::new())]);
    assert_eq!(parse_task_id("1..2"), vec![IdSegment::Named("1..2".to_string())]);
    assert_eq!(parse_task_id("1."), vec![IdSegment::Named("1.".to_string())]);
    assert_eq!(parse_task_id(".a"), vec![IdSegment::Named(".a".to_string())]);
}

#[test]
fn a_derived_id_is_lower_case_and_derives_to_itself() {
    let id = derive_rhei_id("  Fix the API!! ").unwrap();
    assert_eq!(id, "fix-the-api");
    assert_eq!(derive_rhei_id(&id), Some(id.clone()));
    assert_eq!(derive_rhei_id("9 Lives--"), Some("lives".to_string()));
    assert_eq!(derive_rhei_id("123 -- 456"), None);
    assert_eq!(derive_rhei_id("ÉÉ 42"), None);
}
