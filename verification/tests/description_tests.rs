use rhei_cli::description::{reject_structural_description, structural_description_line, Structure, StructuralDescription};

#[test]
fn headings_and_metadata_are_structure() {
    assert_eq!(structural_description_line("## Notes"), Some(Structure::Heading));
    assert_eq!(structural_description_line("  #"), Some(Structure::Heading));
    assert_eq!(structural_description_line("###### six"), Some(Structure::Heading));
    assert_eq!(structural_description_line("####### seven"), None);
    assert_eq!(structural_description_line("#hashtag"), None);
    assert_eq!(structural_description_line("**State:** done"), Some(Structure::MetadataField));
    assert_eq!(structural_description_line(" **Target:** x"), Some(Structure::MetadataField));
    assert_eq!(structural_description_line("**Note:** x"), None);
    assert_eq!(structural_description_line("plain prose"), None);
}

#[test]
fn structure_is_named_in_words() {
    assert_eq!(
        Structure::Heading.describe(),
        "an ATX heading, which the plan language reads as a node, a chapter, or the rhei title"
    );
    assert_eq!(Structure::MetadataField.describe(), "a metadata field of the node it lands in");
}

#[test]
fn the_first_structural_line_is_reported() {
    let d = "Intro line.\n\n**Prior:** 1\n## Later";
    assert_eq!(
        reject_structural_description(d, "--description"),
        Err(StructuralDescription {
            flag: "--description".to_string(),
            line_number: 3,
            text: "**Prior:** 1".to_string(),
            what: Structure::MetadataField,
        })
    );
}

#[test]
fn fenced_lines_are_accepted_as_written() {
    let d = "Example:\n```md\n## Not a heading here\n**State:** x\n```\nDone.";
    assert_eq!(reject_structural_description(d, "--description"), Ok(()));
    let after = "```\n# inside\n```\n# outside";
    assert_eq!(
        reject_structural_description(after, "--body"),
        Err(StructuralDescription {
            flag: "--body".to_string(),
            line_number: 4,
            text: "# outside".to_string(),
            what: Structure::Heading,
        })
    );
}

#[test]
fn prose_is_accepted() {
    assert_eq!(reject_structural_description("Just words.\nMore #words.", "--description"), Ok(()));
    assert_eq!(reject_structural_description("", "--description"), Ok(()));
}
