use rhei_cli::manifest::{
    add_recipe_entry, assemble_manifest, instance_entrypoint, read_frontmatter, recipe_manifest_with_entry, split_manifest,
};
use rhei_cli::recipe::RecipeError;
use rhei_cli::yaml::Yaml;

fn key(s: &str) -> Yaml {
    Yaml::Str(s.to_string())
}

fn strings(v: &[&str]) -> Vec<String> {
    v.iter().map(|s| s.to_string()).collect()
}

#[test]
fn a_manifest_splits_into_header_frontmatter_and_body() {
    let content = "# Panta: demo\n**States:** open\n\n---\nrheis:\n  - id: api\n---\n## Notes\nbody\n";
    let (head, fm, body) = split_manifest(content);
    assert_eq!(head, strings(&["# Panta: demo", "**States:** open", ""]));
    assert_eq!(fm, Some("rheis:\n  - id: api".to_string()));
    assert_eq!(body, strings(&["## Notes", "body"]));
}

#[test]
fn a_manifest_without_frontmatter_keeps_its_header_run() {
    let content = "# Panta: demo\n\nsome text\n---\n";
    let (head, fm, body) = split_manifest(content);
    assert_eq!(head, strings(&["# Panta: demo", ""]));
    assert_eq!(fm, None);
    assert_eq!(body, strings(&["some text", "---"]));
}

#[test]
fn an_unclosed_fence_is_no_frontmatter() {
    let content = "# Panta: demo\n---\nrheis: []\n";
    let (head, fm, body) = split_manifest(content);
    assert_eq!(fm, None);
    assert_eq!(head, strings(&["# Panta: demo"]));
    assert_eq!(body, strings(&["---", "rheis: []"]));
}

#[test]
fn a_heading_before_the_fence_stops_the_search() {
    let content = "# Panta: demo\n## Section\n---\nx: 1\n---\n";
    let (_, fm, _) = split_manifest(content);
    assert_eq!(fm, None);
}

#[test]
fn assembling_puts_the_frontmatter_between_fences() {
    let out = assemble_manifest(&strings(&["# Panta: demo"]), "rheis: []\n\n", &strings(&["## Notes"]));
    assert_eq!(out, "# Panta: demo\n\n---\nrheis: []\n---\n## Notes\n");
    let out2 = assemble_manifest(&strings(&["# Panta: demo", ""]), "a: 1", &Vec::new());
    assert_eq!(out2, "# Panta: demo\n\n---\na: 1\n---\n");
    let out3 = assemble_manifest(&Vec::new(), "a: 1", &Vec::new());
    assert_eq!(out3, "---\na: 1\n---\n");
}

#[test]
fn split_then_assemble_gives_the_manifest_back() {
    let content = "# Panta: demo\n\n---\nrheis: []\n---\n## Notes\n";
    let (head, fm, body) = split_manifest(content);
    assert_eq!(assemble_manifest(&head, &fm.unwrap(), &body), content);
}

#[test]
fn an_added_entry_is_last_in_the_rheis_list() {
    let first = || Yaml::Mapping(vec![(key("id"), key("db")), (key("template"), key("t"))]);
    let fm = vec![(key("name"), key("demo")), (key("rheis"), Yaml::List(vec![first()]))];
    let inputs = vec![(key("port"), Yaml::PosInt(8080))];
    let out = add_recipe_entry(fm, "api", "service", &inputs, &strings(&["db"])).unwrap();
    let expected_entry = Yaml::Mapping(vec![
        (key("id"), key("api")),
        (key("template"), key("service")),
        (key("inputs"), Yaml::Mapping(vec![(key("port"), Yaml::PosInt(8080))])),
        (key("depends-on"), Yaml::List(vec![key("db")])),
    ]);
    assert_eq!(out, vec![(key("name"), key("demo")), (key("rheis"), Yaml::List(vec![first(), expected_entry]))]);
}

#[test]
fn a_missing_or_null_rheis_list_starts_fresh() {
    let entry = || Yaml::Mapping(vec![(key("id"), key("api")), (key("template"), key("t"))]);
    let out = add_recipe_entry(Vec::new(), "api", "t", &Vec::new(), &Vec::new()).unwrap();
    assert_eq!(out, vec![(key("rheis"), Yaml::List(vec![entry()]))]);
    let out2 = add_recipe_entry(vec![(key("rheis"), Yaml::Null)], "api", "t", &Vec::new(), &Vec::new()).unwrap();
    assert_eq!(out2, vec![(key("rheis"), Yaml::List(vec![entry()]))]);
}

#[test]
fn a_rheis_value_that_is_not_a_list_is_refused() {
    let fm = vec![(key("rheis"), key("oops"))];
    assert_eq!(add_recipe_entry(fm, "api", "t", &Vec::new(), &Vec::new()), Err(RecipeError::RheisNotList));
}

#[test]
fn the_index_file_is_preferred_as_entry_point() {
    assert_eq!(instance_entrypoint(true, true), Some("index.rhei.md".to_string()));
    assert_eq!(instance_entrypoint(false, true), Some("plan.rhei.md".to_string()));
    assert_eq!(instance_entrypoint(false, false), None);
}

#[test]
fn an_entry_is_written_into_the_manifest_text() {
    let content = "# Panta: demo\n---\ntitle: x\nrheis:\n- id: api\n  template: t\n---\n## Notes\n";
    let inputs = vec![(key("port"), key("80"))];
    let out = recipe_manifest_with_entry(content, "web", "site", &inputs, &strings(&["api"])).unwrap();
    assert_eq!(
        out,
        "# Panta: demo\n\n---\ntitle: x\nrheis:\n- id: api\n  template: t\n- id: web\n  template: site\n  inputs:\n    port: '80'\n  depends-on:\n  - api\n---\n## Notes\n"
    );
    let bare = recipe_manifest_with_entry("# Panta: demo\n", "api", "t", &Vec::new(), &Vec::new()).unwrap();
    assert_eq!(bare, "# Panta: demo\n\n---\nrheis:\n- id: api\n  template: t\n---\n");
}

#[test]
fn a_manifest_write_fails_at_the_step_that_fails() {
    let not_list = "---\nrheis: 3\n---\n";
    assert_eq!(recipe_manifest_with_entry(not_list, "a", "t", &Vec::new(), &Vec::new()), Err(RecipeError::RheisNotList));
    let broken = "---\nrheis: [\n---\n";
    assert!(matches!(
        recipe_manifest_with_entry(broken, "a", "t", &Vec::new(), &Vec::new()),
        Err(RecipeError::FrontmatterUnparsable(_))
    ));
    let scalar = "---\njust text\n---\n";
    assert!(matches!(
        recipe_manifest_with_entry(scalar, "a", "t", &Vec::new(), &Vec::new()),
        Err(RecipeError::FrontmatterUnparsable(_))
    ));
}

#[test]
fn frontmatter_reads_as_a_mapping() {
    assert_eq!(read_frontmatter("  \n"), Ok(Vec::new()));
    assert_eq!(
        read_frontmatter("a: 1\nb: [x, -2]\nc: 1.5"),
        Ok(vec![
            (key("a"), Yaml::PosInt(1)),
            (key("b"), Yaml::List(vec![key("x"), Yaml::NegInt(-2)])),
            (key("c"), Yaml::Float("1.5".to_string())),
        ])
    );
    assert!(read_frontmatter("a: 1\na: 2").is_err());
}
