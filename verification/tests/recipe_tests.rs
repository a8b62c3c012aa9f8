use rhei_cli::recipe::{
    panta_add_report, prepare_recipe_add, RecipeAddError,
    check_new_recipe_entry, inputs_to_set_values, next_run_number, parse_set_values, restrict_to_rheis,
    topological_order, validate_recipe, InputError, RecipeEntry, RecipeError,
};
use rhei_cli::yaml::Yaml;

fn entry(id: &str, deps: &[&str]) -> RecipeEntry {
    RecipeEntry {
        id: id.to_string(),
        template: "t".to_string(),
        inputs: Vec::new(),
        depends_on: deps.iter().map(|d| d.to_string()).collect(),
    }
}

#[test]
fn a_valid_recipe_validates() {
    let r = vec![entry("api", &[]), entry("web", &["api"])];
    assert!(validate_recipe(&r).is_ok());
}

#[test]
fn recipe_errors_name_the_offender() {
    assert_eq!(validate_recipe(&vec![entry("1bad", &[])]), Err(RecipeError::InvalidId("1bad".to_string())));
    assert_eq!(validate_recipe(&vec![entry("basin", &[])]), Err(RecipeError::ReservedId("basin".to_string())));
    assert_eq!(
        validate_recipe(&vec![entry("a", &[]), entry("a", &[])]),
        Err(RecipeError::DuplicateId("a".to_string()))
    );
    assert_eq!(
        validate_recipe(&vec![entry("a", &["ghost"])]),
        Err(RecipeError::UnknownDependency { rhei: "a".to_string(), dependency: "ghost".to_string() })
    );
    match validate_recipe(&vec![entry("a", &["b"]), entry("b", &["a"])]) {
        Err(RecipeError::Cycle(walk)) => {
            assert!(walk.len() >= 2);
            assert!(walk.contains(&"a".to_string()));
            assert!(walk.contains(&"b".to_string()));
        }
        other => panic!("expected a cycle, got {:?}", other),
    }
}

#[test]
fn topological_order_puts_dependencies_first() {
    let r = vec![entry("web", &["api"]), entry("api", &["db"]), entry("db", &[])];
    let order = topological_order(&r);
    assert_eq!(order.len(), 3);
    let pos = |i: usize| order.iter().position(|x| *x == i).unwrap();
    assert!(pos(2) < pos(1));
    assert!(pos(1) < pos(0));
}

#[test]
fn restricting_keeps_what_the_named_rheis_need() {
    let r = vec![entry("web", &["api"]), entry("api", &[]), entry("docs", &[])];
    let kept = restrict_to_rheis(&r, &vec!["web".to_string()]).unwrap();
    assert!(kept.contains(&0));
    assert!(kept.contains(&1));
    assert!(!kept.contains(&2));
    assert_eq!(
        restrict_to_rheis(&r, &vec!["nope".to_string()]),
        Err(RecipeError::NotAnEntry("nope".to_string()))
    );
}

#[test]
fn a_new_entry_is_checked_in_order() {
    let r = vec![entry("api", &[])];
    assert!(check_new_recipe_entry(&r, "web", &vec!["api".to_string()]).is_ok());
    assert_eq!(check_new_recipe_entry(&r, "-x", &vec![]), Err(RecipeError::InvalidId("-x".to_string())));
    assert_eq!(check_new_recipe_entry(&r, "panta", &vec![]), Err(RecipeError::ReservedId("panta".to_string())));
    assert_eq!(check_new_recipe_entry(&r, "api", &vec![]), Err(RecipeError::AlreadyExists("api".to_string())));
    assert_eq!(
        check_new_recipe_entry(&r, "web", &vec!["api".to_string(), "db".to_string()]),
        Err(RecipeError::UnknownDependsOn("db".to_string()))
    );
}

#[test]
fn set_values_become_a_mapping_later_keys_winning() {
    let m = parse_set_values(&vec!["a=1".to_string(), "b=x=y".to_string(), "a=2".to_string()]).unwrap();
    assert_eq!(m.len(), 2);
    assert_eq!(m[0], (Yaml::Str("a".to_string()), Yaml::Str("2".to_string())));
    assert_eq!(m[1], (Yaml::Str("b".to_string()), Yaml::Str("x=y".to_string())));
    assert_eq!(parse_set_values(&vec!["novalue".to_string()]), Err("novalue".to_string()));
}

#[test]
fn inputs_render_as_key_value_arguments() {
    let mut e = entry("api", &[]);
    e.inputs = vec![
        (Yaml::Str("name".to_string()), Yaml::Str("svc".to_string())),
        (Yaml::Str("debug".to_string()), Yaml::Bool(true)),
        (Yaml::Str("port".to_string()), Yaml::PosInt(8080)),
        (Yaml::Str("delta".to_string()), Yaml::NegInt(-3)),
    ];
    assert_eq!(
        inputs_to_set_values(&e).unwrap(),
        vec!["name=svc", "debug=true", "port=8080", "delta=-3"]
    );
    let mut bad = entry("api", &[]);
    bad.inputs = vec![(Yaml::Str("list".to_string()), Yaml::List(vec![]))];
    assert_eq!(
        inputs_to_set_values(&bad),
        Err(InputError::NonScalar { rhei: "api".to_string(), key: "list".to_string() })
    );
    let mut badkey = entry("api", &[]);
    badkey.inputs = vec![(Yaml::PosInt(1), Yaml::Str("x".to_string()))];
    assert_eq!(inputs_to_set_values(&badkey), Err(InputError::NonStringKey { rhei: "api".to_string() }));
}

#[test]
fn the_next_run_directory_follows_the_highest() {
    let names = vec!["panta-1".to_string(), "panta-7".to_string(), "other".to_string(), "panta-x".to_string()];
    assert_eq!(next_run_number(&names), 8);
    assert_eq!(next_run_number(&vec![]), 1);
}

#[test]
fn recipe_errors_carry_their_messages() {
    assert_eq!(
        RecipeError::InvalidId("9x".to_string()).message("p/index.panta.md"),
        "invalid rhei id '9x': must start with a letter and contain only letters, digits, '-' or '_'"
    );
    assert_eq!(
        RecipeError::Cycle(vec!["a".to_string(), "b".to_string(), "a".to_string()]).message("m"),
        "rhei dependency cycle: a -> b -> a"
    );
    assert_eq!(
        RecipeError::UnknownDependency { rhei: "api".to_string(), dependency: "db".to_string() }.message("m"),
        "rhei 'api' depends-on 'db', which is not a recipe entry"
    );
    assert_eq!(RecipeError::RheisNotList.message("p/index.panta.md"), "`rheis:` in 'p/index.panta.md' is not a list");
    assert_eq!(RecipeError::AlreadyExists("api".to_string()).message("m"), "rhei id 'api' already exists in the recipe");
}

#[test]
fn a_cycle_is_named_as_the_first_search_walks_it() {
    match validate_recipe(&vec![entry("a", &["b"]), entry("b", &["a"])]) {
        Err(RecipeError::Cycle(walk)) => assert_eq!(walk, vec!["a".to_string(), "b".to_string(), "a".to_string()]),
        other => panic!("expected a cycle, got {:?}", other),
    }
    match validate_recipe(&vec![entry("x", &[]), entry("y", &["z"]), entry("z", &["x", "y"])]) {
        Err(RecipeError::Cycle(walk)) => {
            assert_eq!(walk, vec!["y".to_string(), "z".to_string(), "y".to_string()])
        }
        other => panic!("expected a cycle, got {:?}", other),
    }
}

#[test]
fn the_run_order_is_the_search_finishing_order() {
    let r = vec![entry("web", &["api", "db"]), entry("docs", &[]), entry("api", &["db"]), entry("db", &[])];
    assert_eq!(topological_order(&r), vec![3, 2, 0, 1]);
    assert_eq!(restrict_to_rheis(&r, &vec!["api".to_string(), "docs".to_string()]), Ok(vec![3, 2, 1]));
}

#[test]
fn set_values_come_back_through_an_entry() {
    let raws = vec!["name=Ada".to_string(), "expr=a=b".to_string(), "empty=".to_string()];
    let inputs = parse_set_values(&raws).unwrap();
    let mut e = entry("api", &[]);
    e.inputs = inputs;
    assert_eq!(inputs_to_set_values(&e).unwrap(), raws);
}

#[test]
fn panta_add_checks_in_order_and_appends_the_entry() {
    let base = || vec![entry("api", &[])];
    let ok: Result<(), String> = Ok(());
    assert_eq!(
        prepare_recipe_add(base(), "1x", "t", &Vec::new(), &Vec::new(), &Err("no template".to_string())),
        Err(RecipeAddError::Entry(RecipeError::InvalidId("1x".to_string())))
    );
    assert_eq!(
        prepare_recipe_add(base(), "web", "t", &vec!["novalue".to_string()], &Vec::new(), &Err("no template".to_string())),
        Err(RecipeAddError::Template("no template".to_string()))
    );
    assert_eq!(
        prepare_recipe_add(base(), "web", "t", &vec!["novalue".to_string()], &Vec::new(), &ok),
        Err(RecipeAddError::SetValue("novalue".to_string()))
    );
    let all = prepare_recipe_add(base(), "web", "site", &vec!["port=80".to_string()], &vec!["api".to_string()], &ok).unwrap();
    assert_eq!(all.len(), 2);
    assert_eq!(all[1].id, "web");
    assert_eq!(all[1].template, "site");
    assert_eq!(all[1].inputs, vec![(Yaml::Str("port".to_string()), Yaml::Str("80".to_string()))]);
    assert_eq!(all[1].depends_on, vec!["api".to_string()]);
    assert_eq!(
        RecipeAddError::SetValue("novalue".to_string()).message("m"),
        "--set expects KEY=VALUE, got 'novalue'"
    );
    assert_eq!(
        RecipeError::FrontmatterUnparsable("bad".to_string()).message("p/index.panta.md"),
        "failed to parse frontmatter of 'p/index.panta.md': bad"
    );
}

#[test]
fn panta_add_reports_what_it_wrote() {
    assert_eq!(
        panta_add_report("web", "index.panta.md", "site", &Vec::new()),
        vec![
            "Added rhei 'web' to the recipe at 'index.panta.md'.".to_string(),
            "  template: site  (no dependencies)".to_string(),
            String::new(),
            "Run the project with:".to_string(),
            "  rhei panta".to_string(),
        ]
    );
    assert_eq!(
        panta_add_report("web", "m", "site", &vec!["api".to_string(), "db".to_string()])[1],
        "  template: site  depends-on: api, db"
    );
}
