use rhei_cli::install::{find_section_opening, rhei_section_update, with_rhei_section};

fn line_vecs(v: &[&str]) -> Vec<Vec<char>> {
    v.iter().map(|s| s.chars().collect()).collect()
}

#[test]
fn the_section_opens_at_the_first_rhei_heading() {
    assert_eq!(find_section_opening(&line_vecs(&["intro", "## rhei", "# rhei"])), Some(1));
    assert_eq!(find_section_opening(&line_vecs(&["# rheiology", "# Rhei"])), None);
}

#[test]
fn an_existing_section_is_replaced_in_place() {
    let existing = "intro\n\n# rhei\nold\n## other\nkeep\n";
    assert_eq!(with_rhei_section(existing, "# rhei\nnew\n", 4), "intro\n\n# rhei\nnew\n## other\nkeep\n");
}

#[test]
fn a_missing_section_is_appended_after_a_blank_line() {
    assert_eq!(with_rhei_section("notes", "# rhei\nx", 0), "notes\n\n# rhei\nx\n");
    assert_eq!(with_rhei_section("notes\n\n", "# rhei\nx\n", 0), "notes\n\n# rhei\nx\n");
    assert_eq!(with_rhei_section("", "# rhei\nx\n", 0), "# rhei\nx\n");
}

#[test]
fn a_section_update_honours_the_block_end() {
    let existing = "intro\n\n# rhei\nold\n## other\nkeep\n";
    assert_eq!(rhei_section_update(existing, "# rhei\nnew\n", 4), Some("intro\n\n# rhei\nnew\n## other\nkeep\n".to_string()));
    assert_eq!(rhei_section_update(existing, "# rhei\nnew\n", 99), Some("intro\n\n# rhei\nnew\n".to_string()));
    assert_eq!(rhei_section_update(existing, "# rhei\nnew\n", 2), None);
    assert_eq!(rhei_section_update("notes", "# rhei\nx", 0), Some("notes\n\n# rhei\nx\n".to_string()));
}
