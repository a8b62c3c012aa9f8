use rhei_cli::program::{
    input_env_stem, parse_program_spec, program_argv, program_environment, resolve_program, ProgramCommand, ProgramInput,
    ProgramSpec, ProgramSpecError, ResolveProgramError,
};
use rhei_cli::yaml::Yaml;

fn key(s: &str) -> Yaml {
    Yaml::Str(s.to_string())
}

#[test]
fn a_string_is_a_shell_command() {
    assert_eq!(
        parse_program_spec(&key("make test")),
        Ok(ProgramSpec {
            command: ProgramCommand::Shell("make test".to_string()),
            env: Vec::new(),
            working_directory: None,
            shell: true,
        })
    );
}

#[test]
fn an_object_names_command_env_directory_and_shell() {
    let v = Yaml::Mapping(vec![
        (key("command"), Yaml::List(vec![key("cargo"), key("test")])),
        (
            key("env"),
            Yaml::Mapping(vec![
                (key("A"), key("x")),
                (key("B"), Yaml::PosInt(3)),
                (key("C"), Yaml::Bool(false)),
                (key("D"), Yaml::Null),
                (key("E"), Yaml::NegInt(-2)),
            ]),
        ),
        (key("working_directory"), key("sub")),
    ]);
    assert_eq!(
        parse_program_spec(&v),
        Ok(ProgramSpec {
            command: ProgramCommand::Exec(vec!["cargo".to_string(), "test".to_string()]),
            env: vec![
                ("A".to_string(), "x".to_string()),
                ("B".to_string(), "3".to_string()),
                ("C".to_string(), "false".to_string()),
                ("D".to_string(), String::new()),
                ("E".to_string(), "-2".to_string()),
            ],
            working_directory: Some("sub".to_string()),
            shell: false,
        })
    );
}

#[test]
fn shell_defaults_to_the_command_form() {
    let v = Yaml::Mapping(vec![(key("command"), key("ls")), (key("shell"), Yaml::Bool(false))]);
    assert_eq!(parse_program_spec(&v).unwrap().shell, false);
    let w = Yaml::Mapping(vec![(key("command"), key("ls"))]);
    assert_eq!(parse_program_spec(&w).unwrap().shell, true);
    let x = Yaml::Mapping(vec![(key("command"), key("ls")), (key("shell"), key("yes"))]);
    assert_eq!(parse_program_spec(&x).unwrap().shell, true);
}

#[test]
fn malformed_programs_are_refused() {
    let m = |entries: Vec<(Yaml, Yaml)>| parse_program_spec(&Yaml::Mapping(entries));
    assert_eq!(parse_program_spec(&Yaml::PosInt(1)), Err(ProgramSpecError::NotStringOrObject));
    assert_eq!(m(vec![(key("env"), Yaml::Null)]), Err(ProgramSpecError::MissingCommand));
    assert_eq!(m(vec![(key("command"), Yaml::Bool(true))]), Err(ProgramSpecError::CommandNotStringOrArray));
    assert_eq!(
        m(vec![(key("command"), Yaml::List(vec![key("a"), Yaml::PosInt(1)]))]),
        Err(ProgramSpecError::CommandEntryNotString)
    );
    assert_eq!(m(vec![(key("command"), key("a")), (key("env"), key("x"))]), Err(ProgramSpecError::EnvNotMapping));
    assert_eq!(
        m(vec![(key("command"), key("a")), (key("env"), Yaml::Mapping(vec![(Yaml::PosInt(1), key("x"))]))]),
        Err(ProgramSpecError::EnvKeyNotString)
    );
    assert_eq!(
        m(vec![(key("command"), key("a")), (key("env"), Yaml::Mapping(vec![(key("K"), Yaml::List(vec![]))]))]),
        Err(ProgramSpecError::EnvValueNotScalar)
    );
    assert_eq!(
        m(vec![(key("command"), key("a")), (key("working_directory"), Yaml::PosInt(3))]),
        Err(ProgramSpecError::WorkingDirectoryNotString)
    );
}

#[test]
fn errors_carry_their_messages() {
    assert_eq!(ProgramSpecError::NotStringOrObject.message(), "program must be a string or object");
    assert_eq!(ProgramSpecError::MissingCommand.message(), "program object must include a 'command' field");
    assert_eq!(
        ProgramSpecError::EnvValueNotScalar.message(),
        "program.env values must be strings, numbers, booleans, or null"
    );
    assert_eq!(ProgramSpecError::WorkingDirectoryNotString.message(), "program.working_directory must be a string");
}

#[test]
fn a_shell_program_runs_through_sh() {
    assert_eq!(
        program_argv(true, &ProgramCommand::Shell("make test".to_string())),
        Ok(vec!["sh".to_string(), "-c".to_string(), "make test".to_string()])
    );
    assert_eq!(
        program_argv(true, &ProgramCommand::Exec(vec!["cargo".to_string(), "build".to_string()])),
        Ok(vec!["sh".to_string(), "-c".to_string(), "cargo build".to_string()])
    );
}

#[test]
fn a_program_without_a_shell_runs_its_argument_list() {
    assert_eq!(
        program_argv(false, &ProgramCommand::Exec(vec!["cargo".to_string(), "build".to_string()])),
        Ok(vec!["cargo".to_string(), "build".to_string()])
    );
    assert_eq!(
        program_argv(false, &ProgramCommand::Shell("make".to_string())),
        Err("program command cannot disable shell when command is a string".to_string())
    );
}

#[test]
fn input_variables_are_named_after_the_input() {
    assert_eq!(input_env_stem("code-review notes"), "CODE_REVIEW_NOTES");
    assert_eq!(input_env_stem("spec_v2"), "SPEC_V2");
}

fn input(name: &str, relative: &str, escapes_root: bool, exists: bool) -> ProgramInput {
    ProgramInput { name: name.to_string(), relative: relative.to_string(), escapes_root, exists }
}

fn pair(k: &str, v: &str) -> (String, String) {
    (k.to_string(), v.to_string())
}

#[test]
fn a_program_environment_lists_the_run_then_inputs_then_its_own() {
    let env = program_environment(
        "plan.md",
        "1.2",
        "build",
        3,
        Some("machine.yaml"),
        None,
        &vec![input("design-doc", "docs/design.md", false, true), input("notes", "notes.md", false, false)],
        &vec![pair("CI", "1")],
    );
    assert_eq!(
        env,
        Ok(vec![
            pair("RHEI_PLAN_PATH", "plan.md"),
            pair("RHEI_TASK_ID", "1.2"),
            pair("RHEI_STATE", "build"),
            pair("RHEI_VISIT_COUNT", "3"),
            pair("RHEI_STATE_MACHINE_PATH", "machine.yaml"),
            pair("RHEI_INPUT_DESIGN_DOC_EXISTS", "true"),
            pair("RHEI_INPUT_DESIGN_DOC_PATH", "docs/design.md"),
            pair("RHEI_INPUT_NOTES_EXISTS", "false"),
            pair("RHEI_INPUT_NOTES_PATH", "notes.md"),
            pair("CI", "1"),
        ])
    );
}

#[test]
fn an_input_outside_the_workspace_is_refused() {
    let env = program_environment(
        "plan.md",
        "1",
        "build",
        1,
        None,
        Some("m"),
        &vec![input("a", "a.md", false, true), input("up", "../up.md", true, false), input("x", "../x", true, true)],
        &Vec::new(),
    );
    assert_eq!(env, Err("input artifact 'up' expands to '../up.md' which escapes the workspace root".to_string()));
}

#[test]
fn a_program_takes_the_first_timeout_given() {
    let v = Yaml::Str("make".to_string());
    let r = resolve_program(false, "build", true, Some(&v), &vec![None, Some(30), Some(60), None]).unwrap().unwrap();
    assert_eq!(r.timeout_secs, Some(30));
    assert_eq!(r.program.command, ProgramCommand::Shell("make".to_string()));
    let r = resolve_program(false, "build", true, Some(&v), &vec![None, None, None, None]).unwrap().unwrap();
    assert_eq!(r.timeout_secs, None);
}

#[test]
fn resolving_a_program_can_find_none_or_fail() {
    let v = Yaml::Str("make".to_string());
    assert_eq!(resolve_program(true, "build", true, Some(&v), &vec![Some(5)]), Ok(None));
    assert_eq!(resolve_program(false, "build", true, None, &vec![Some(5)]), Ok(None));
    let missing = resolve_program(false, "gone", false, Some(&v), &Vec::new());
    assert_eq!(missing, Err(ResolveProgramError::MissingState("gone".to_string())));
    assert_eq!(missing.unwrap_err().message(), "state 'gone' missing from loaded machine");
    assert_eq!(
        resolve_program(false, "build", true, Some(&Yaml::Bool(true)), &Vec::new()),
        Err(ResolveProgramError::Spec(ProgramSpecError::NotStringOrObject))
    );
}
