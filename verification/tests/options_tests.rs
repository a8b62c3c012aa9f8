use rhei_cli::options::{
    AgentExecutionFlags, FrontendKind, ProgramExecutionFlags, RunOptions, SnapshotExecutionFlags,
    StandaloneExecutionFlags, should_use_color,
};

fn options() -> RunOptions<u32> {
    RunOptions {
        standalone: StandaloneExecutionFlags {
            dry_run: true,
            no_callbacks: false,
            continue_on_error: true,
            parallel: 4,
            prices: Some("prices.yaml".to_string()),
            rhei: vec!["api".to_string()],
            tui: false,
            no_tui: false,
            json: false,
            json_agent_output: false,
            headless: false,
            dashboard: false,
            no_dashboard: false,
        },
        agent: AgentExecutionFlags {
            no_agent: false,
            agent: Some("codex".to_string()),
            agent_mode: None,
            model: Some("m1".to_string()),
        },
        program: ProgramExecutionFlags { no_program: true, program_timeout: Some("5m".to_string()) },
        snapshot: SnapshotExecutionFlags {
            from_snapshot: Some("snap-1".to_string()),
            override_inherit: true,
            snapshot_task: None,
            snapshot_target: Some("api.1".to_string()),
        },
        price_book: 7,
    }
}

#[test]
fn getters_read_the_flags() {
    let o = options();
    assert!(o.dry_run());
    assert!(!o.no_callbacks());
    assert!(o.continue_on_error());
    assert_eq!(o.parallel(), 4);
    assert_eq!(o.prices_path(), Some("prices.yaml"));
    assert!(!o.headless());
    assert!(!o.json());
    assert!(!o.no_agent());
    assert_eq!(o.agent_override(), Some("codex"));
    assert_eq!(o.agent_mode_override(), None);
    assert_eq!(o.model_override(), Some("m1"));
    assert!(o.no_program());
    assert_eq!(o.program_timeout_override(), Some("5m"));
    assert_eq!(o.snapshot_override_ref(), Some("snap-1"));
    assert!(o.override_inherit());
    assert_eq!(o.snapshot_task_selector(), None);
    assert_eq!(o.snapshot_target_selector(), Some("api.1"));
    assert_eq!(*o.price_book(), 7);
    assert_eq!(o.rhei_scope(), &vec!["api".to_string()]);
}

#[test]
fn setters_change_only_what_they_name() {
    let mut o = options();
    o.select_price_book(9);
    assert_eq!(*o.price_book(), 9);
    assert_eq!(o.parallel(), 4);
    o.narrow_to(vec!["web".to_string(), "db".to_string()]);
    assert_eq!(o.rhei_scope(), &vec!["web".to_string(), "db".to_string()]);
    assert!(o.dry_run());
    assert_eq!(*o.price_book(), 9);
}

#[test]
fn the_frontend_follows_the_flags() {
    let mut o = options();
    assert_eq!(o.frontend_kind(), FrontendKind::Auto);
    o.standalone.no_tui = true;
    assert_eq!(o.frontend_kind(), FrontendKind::Stdout);
    o.standalone.tui = true;
    assert_eq!(o.frontend_kind(), FrontendKind::Tui);
    o.standalone.json = true;
    o.standalone.json_agent_output = true;
    assert_eq!(o.frontend_kind(), FrontendKind::Json { agent_output: true });
}

#[test]
fn the_dashboard_serves_the_tui_or_a_detached_run() {
    let mut o = options();
    assert!(o.dashboard_enabled(true, false));
    assert!(o.dashboard_enabled(false, true));
    assert!(!o.dashboard_enabled(false, false));
    assert!(o.announces_dashboard());
    o.standalone.no_dashboard = true;
    assert!(!o.dashboard_enabled(true, false));
    assert!(o.dashboard_enabled(false, true));
    assert!(!o.announces_dashboard());
    o.standalone.dashboard = true;
    assert!(o.dashboard_enabled(false, false));
}

#[test]
fn human_gates_wait_only_where_they_can_be_released() {
    let o = options();
    assert!(o.waits_for_human_gates(true, false));
    assert!(o.waits_for_human_gates(false, true));
    assert!(!o.waits_for_human_gates(false, false));
}

#[test]
fn color_needs_a_terminal_and_no_opt_out() {
    assert!(should_use_color(false, None, true));
    assert!(should_use_color(false, Some(""), true));
    assert!(!should_use_color(true, None, true));
    assert!(!should_use_color(false, Some("1"), true));
    assert!(!should_use_color(false, None, false));
}
