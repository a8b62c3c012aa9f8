use rhei_cli::placement::{
    existing_rhei_error, find_rhei_entry, new_rhei_layout,
    child_sibling_ids, completions, compose_ticket_ids, is_legal_export_name, is_legal_task_id, place_ticket,
    reject_excess_depth, reject_malformed_export_flags, resolve_ticket_kind, resolve_ticket_parent, task_file_name,
    top_level_sibling_ids, unknown_parent_message, DepthError, ExportFlagError, KindError, ParentError, Placement,
    RheiLayout, TicketParent, new_ticket_plan, new_ticket_write, NewTicketError, NewTicketPlan,
};
use rhei_cli::create::NewOptions;
use rhei_cli::markdown::{render_ticket, TicketFields};
use rhei_cli::ids::IdError;

fn strings(v: &[&str]) -> Vec<String> {
    v.iter().map(|s| s.to_string()).collect()
}

fn chars(s: &str) -> Vec<char> {
    s.chars().collect()
}

#[test]
fn the_kind_defaults_to_task_and_matches_ignoring_case() {
    let kinds = strings(&["Epic", "Task"]);
    assert_eq!(resolve_ticket_kind(None, &kinds, "api"), Ok("task".to_string()));
    assert_eq!(resolve_ticket_kind(Some(" EPIC "), &kinds, "api"), Ok("epic".to_string()));
}

#[test]
fn undeclared_kinds_are_refused() {
    let kinds = strings(&["epic"]);
    assert_eq!(
        resolve_ticket_kind(None, &kinds, "api"),
        Err(KindError::KindRequired { rhei: "api".to_string(), declared: strings(&["epic"]) })
    );
    assert_eq!(
        resolve_ticket_kind(Some(" Story "), &kinds, "api"),
        Err(KindError::UndeclaredKind {
            rhei: "api".to_string(),
            requested: "Story".to_string(),
            declared: strings(&["epic"]),
        })
    );
}

#[test]
fn depth_is_bounded_by_max_levels() {
    assert_eq!(reject_excess_depth(3, 3, false), Ok(()));
    assert_eq!(reject_excess_depth(4, 3, true), Err(DepthError { depth: 4, max_levels: 3, declared: true }));
}

#[test]
fn export_names_and_task_ids() {
    assert!(is_legal_export_name(&chars("api.v1")));
    assert!(is_legal_export_name(&chars("9lives")));
    assert!(!is_legal_export_name(&chars(".hidden")));
    assert!(!is_legal_export_name(&chars("")));
    assert!(!is_legal_export_name(&chars("a b")));
    assert!(is_legal_task_id(&chars("api.1.2")));
    assert!(is_legal_task_id(&chars("api.setup")));
    assert!(!is_legal_task_id(&chars("api")));
    assert!(!is_legal_task_id(&chars("1.2")));
    assert!(!is_legal_task_id(&chars("api.01")));
}

#[test]
fn export_flags_are_checked_in_order() {
    assert_eq!(reject_malformed_export_flags(&strings(&[" api "]), &strings(&["db.1:schema"])), Ok(()));
    assert_eq!(
        reject_malformed_export_flags(&strings(&["ok", "bad name"]), &strings(&["nope"])),
        Err(ExportFlagError::BadProvides("bad name".to_string()))
    );
    assert_eq!(
        reject_malformed_export_flags(&strings(&["ok"]), &strings(&["db.1:schema", " db:schema "])),
        Err(ExportFlagError::BadConsumes("db:schema".to_string()))
    );
    assert_eq!(
        reject_malformed_export_flags(&Vec::new(), &strings(&["db.1"])),
        Err(ExportFlagError::BadConsumes("db.1".to_string()))
    );
}

#[test]
fn siblings_are_read_from_ids() {
    let ids = strings(&["api.1", "api.2", "api.1.1", "web.3", "apix.4"]);
    assert_eq!(top_level_sibling_ids(&ids, "api"), strings(&["1", "2"]));
    assert_eq!(child_sibling_ids(&strings(&["api.1.1", "api.1.setup", "plain"])), strings(&["1", "setup"]));
}

#[test]
fn ticket_ids_compose_from_parent_and_segment() {
    assert_eq!(compose_ticket_ids("api", Some("1.2"), "3"), ("1.2.3".to_string(), 3, "api.1.2.3".to_string()));
    assert_eq!(compose_ticket_ids("api", None, "4"), ("4".to_string(), 1, "api.4".to_string()));
}

#[test]
fn completions_keep_the_order() {
    let items = strings(&["epic", "task", "effort"]);
    assert_eq!(completions(&items, "e"), strings(&["epic", "effort"]));
    assert_eq!(completions(&items, ""), items);
    assert!(completions(&items, "z").is_empty());
}

#[test]
fn task_files_are_named_by_id_and_slug() {
    assert_eq!(task_file_name("4", "Rotate signing keys"), "4-rotate-signing-keys.md");
    assert_eq!(task_file_name("5", "!!!"), "5.md");
}

#[test]
fn tickets_are_placed_by_layout() {
    let block = "### Task 2: New\n";
    assert_eq!(
        place_ticket(&RheiLayout::SingleFile, None, "2", "New", block, "## Tasks\n"),
        Some(Placement::Existing { contents: "## Tasks\n\n### Task 2: New\n".to_string() })
    );
    assert_eq!(
        place_ticket(&RheiLayout::Workspace, None, "2", "New", block, ""),
        Some(Placement::NewFile { name: "2-new.md".to_string(), in_tasks_dir: true, contents: block.to_string() })
    );
    assert_eq!(
        place_ticket(&RheiLayout::Basin, None, "2", "New", block, ""),
        Some(Placement::NewFile { name: "2-new.md".to_string(), in_tasks_dir: false, contents: block.to_string() })
    );
    assert_eq!(place_ticket(&RheiLayout::Workspace, Some("9"), "9.1", "New", block, "### Task 1: A\n"), None);
    assert_eq!(
        place_ticket(&RheiLayout::Workspace, Some("1"), "1.1", "Sub", "#### Task 1.1: Sub\n", "### Task 1: A\n"),
        Some(Placement::Existing { contents: "### Task 1: A\n\n#### Task 1.1: Sub\n".to_string() })
    );
}

#[test]
fn under_a_rhei_the_siblings_are_its_top_level_tickets() {
    let rheis = strings(&["auth", "api"]);
    let tasks = strings(&["auth.1", "auth.1.1", "auth.2", "api.1"]);
    assert_eq!(
        resolve_ticket_parent("auth", &rheis, "basin", &tasks, None),
        Ok(TicketParent {
            rhei_id: "auth".to_string(),
            parent_local: None,
            siblings: strings(&["1", "2"]),
            label: "rhei 'auth'".to_string(),
        })
    );
    let basin = resolve_ticket_parent("basin", &rheis, "basin", &tasks, None).unwrap();
    assert_eq!(basin.siblings, Vec::<String>::new());
    assert_eq!(resolve_ticket_parent("nope", &rheis, "basin", &tasks, None), Err(ParentError::Unknown));
    assert_eq!(resolve_ticket_parent("", &rheis, "basin", &tasks, None), Err(ParentError::Empty));
}

#[test]
fn under_a_ticket_the_siblings_are_its_children() {
    let rheis = strings(&["auth"]);
    let children = strings(&["auth.1.1", "auth.1.3"]);
    assert_eq!(
        resolve_ticket_parent("auth.1", &rheis, "basin", &Vec::new(), Some(&children)),
        Ok(TicketParent {
            rhei_id: "auth".to_string(),
            parent_local: Some("1".to_string()),
            siblings: strings(&["1", "3"]),
            label: "ticket auth.1".to_string(),
        })
    );
    assert_eq!(resolve_ticket_parent("auth.9", &rheis, "basin", &Vec::new(), None), Err(ParentError::Unknown));
}

#[test]
fn an_unknown_parent_lists_what_can_be_named() {
    assert_eq!(
        unknown_parent_message("nope", &strings(&["auth", "api"]), "basin"),
        "'nope' names no rhei or ticket in this project. --under takes a rhei id (auth, api, basin) for a \
         top-level ticket, or a ticket id like `auth.1` for a subtask"
    );
    assert_eq!(
        unknown_parent_message("x", &Vec::new(), "basin"),
        "'x' names no rhei or ticket in this project. --under takes a rhei id (basin) for a top-level ticket, \
         or a ticket id like `basin.1` for a subtask"
    );
}

#[test]
fn a_rhei_entry_is_a_directory_or_a_rhei_file() {
    let entries = vec![
        ("auth.rhei.md".to_string(), false),
        ("billing".to_string(), true),
        ("auth".to_string(), true),
        ("billing.rhei.md".to_string(), true),
    ];
    assert_eq!(find_rhei_entry(&entries, "auth"), Some(0));
    assert_eq!(find_rhei_entry(&entries, "billing"), Some(1));
    assert_eq!(find_rhei_entry(&entries, "ops"), None);
}

#[test]
fn a_new_rhei_is_a_file_or_a_workspace() {
    assert_eq!(
        new_rhei_layout("billing", false),
        ("billing.rhei.md".to_string(), Vec::new(), "`rhei new \"<first ticket>\" --under billing`".to_string())
    );
    assert_eq!(
        new_rhei_layout("billing", true),
        (
            "billing/index.rhei.md".to_string(),
            strings(&["billing", "billing/tasks"]),
            "`rhei new \"<first ticket>\" --under billing`".to_string()
        )
    );
    assert_eq!(existing_rhei_error("auth", "p/auth.rhei.md").0, "rhei 'auth' already exists at p/auth.rhei.md");
}

fn under(parent_local: Option<&str>, siblings: &[&str]) -> TicketParent {
    TicketParent {
        rhei_id: "auth".to_string(),
        parent_local: parent_local.map(|p| p.to_string()),
        siblings: strings(siblings),
        label: "ticket auth.1".to_string(),
    }
}

#[test]
fn a_new_ticket_is_keyed_then_checked_for_depth_and_kind() {
    let kinds = strings(&["task", "epic"]);
    assert_eq!(
        new_ticket_plan(None, None, &under(Some("1"), &["1", "2"]), &kinds, 3, false),
        Ok(NewTicketPlan {
            local_id: "1.3".to_string(),
            qualified: "auth.1.3".to_string(),
            depth: 2,
            kind: "task".to_string(),
        })
    );
    assert_eq!(
        new_ticket_plan(Some("2"), None, &under(None, &["1", "2"]), &kinds, 3, false),
        Err(NewTicketError::Id(IdError::TicketIdTaken { parent: "ticket auth.1".to_string(), id: "2".to_string() }))
    );
    assert_eq!(
        new_ticket_plan(None, None, &under(Some("1.1"), &[]), &kinds, 2, true),
        Err(NewTicketError::Depth(DepthError { depth: 3, max_levels: 2, declared: true }))
    );
    assert!(matches!(
        new_ticket_plan(None, Some("story"), &under(None, &[]), &kinds, 3, false),
        Err(NewTicketError::Kind(KindError::UndeclaredKind { .. }))
    ));
    assert_eq!(new_ticket_plan(None, Some(" Epic "), &under(None, &[]), &kinds, 3, false).unwrap().kind, "epic");
}

#[test]
fn a_keyed_ticket_is_rendered_into_its_file() {
    let plan = NewTicketPlan {
        local_id: "2".to_string(),
        qualified: "auth.2".to_string(),
        depth: 1,
        kind: "task".to_string(),
    };
    let options = NewOptions {
        title: "New".to_string(),
        project: None,
        id: None,
        description: None,
        description_file: None,
        dir: false,
        states: None,
        max_levels: None,
        node_kinds: Vec::new(),
        under: None,
        kind: None,
        state: None,
        prior: strings(&["auth.1"]),
        provides: Vec::new(),
        consumes: Vec::new(),
        assignee: Some("ada".to_string()),
        model: None,
        target: None,
        keep_on_error: false,
        dry_run: false,
        json: false,
    };
    let block = render_ticket(&TicketFields {
        kind: "task".to_string(),
        local_id: "2".to_string(),
        title: "New".to_string(),
        state: "open".to_string(),
        prior: strings(&["auth.1"]),
        provides: Vec::new(),
        consumes: Vec::new(),
        assignee: Some("ada".to_string()),
        model: None,
        target: None,
        description: Some("Why.".to_string()),
    });
    assert_eq!(
        new_ticket_write(&plan, "open", &options, Some("Why.".to_string()), &RheiLayout::Basin, None, ""),
        Some(Placement::NewFile { name: "2-new.md".to_string(), in_tasks_dir: false, contents: block })
    );
}
