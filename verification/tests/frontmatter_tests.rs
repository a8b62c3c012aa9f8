use rhei_cli::frontmatter::{frontmatter_text, rewrite_frontmatter, FrontmatterError};

#[test]
fn serialized_yaml_loses_its_document_marker() {
    assert_eq!(frontmatter_text("---\na: 1\n\n"), "a: 1");
    assert_eq!(frontmatter_text("a: 1\n"), "a: 1");
    assert_eq!(frontmatter_text(""), "");
}

#[test]
fn an_existing_block_is_replaced() {
    let raw = "# Rhei: Demo\n**States:** a, b\n\n---\nold: 1\n---\n\nBody\n";
    assert_eq!(
        rewrite_frontmatter(raw, "new: 2"),
        Ok("# Rhei: Demo\n**States:** a, b\n\n---\nnew: 2\n---\n\nBody\n".to_string())
    );
}

#[test]
fn a_block_is_added_after_the_header() {
    assert_eq!(
        rewrite_frontmatter("# Rhei: Demo\n\nBody\n", "x: 1\ny: 2"),
        Ok("# Rhei: Demo\n\n---\nx: 1\ny: 2\n---\n\nBody\n".to_string())
    );
    assert_eq!(rewrite_frontmatter("# Rhei: Demo", ""), Ok("# Rhei: Demo\n---\n---\n\n".to_string()));
}

#[test]
fn frontmatter_errors() {
    assert_eq!(rewrite_frontmatter("no header here\n", "a: 1"), Err(FrontmatterError::NoHeader));
    assert_eq!(rewrite_frontmatter("# Rhei: X\n---\na: 1\n", "a: 2"), Err(FrontmatterError::Unterminated));
}
