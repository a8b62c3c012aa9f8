//! A state's `program:`: a shell string, or an object naming the command
//! (a shell string or an argument list), its environment, its working
//! directory, and whether it runs through a shell.
use vstd::prelude::*;
use crate::recipe::number_text;
use crate::text::{decimal, join, join_strings, push_str, to_uppercase, to_uppercase_spec, u64_to_string};
use crate::yaml::{as_bool, as_str, deep_entries, get, get_value, str_key, str_of, bool_of, Entries, Yaml, YamlView};

verus! {

/// What the program runs.
#[derive(Debug, PartialEq)]
pub enum ProgramCommand {
    /// A command line for the shell.
    Shell(String),
    /// An argument list, run directly.
    Exec(Vec<String>),
}

/// A parsed `program:`. The environment keeps the mapping's order; a later
/// key overrides an earlier one.
#[derive(Debug, PartialEq)]
pub struct ProgramSpec {
    pub command: ProgramCommand,
    pub env: Vec<(String, String)>,
    pub working_directory: Option<String>,
    pub shell: bool,
}

/// Why a `program:` is refused.
#[derive(Debug, PartialEq)]
pub enum ProgramSpecError {
    /// `program must be a string or object`
    NotStringOrObject,
    /// `program object must include a 'command' field`
    MissingCommand,
    /// `program.command must be a string or string array`
    CommandNotStringOrArray,
    /// `program.command entries must be strings`
    CommandEntryNotString,
    /// `program.env must be a mapping`
    EnvNotMapping,
    /// `program.env keys must be strings`
    EnvKeyNotString,
    /// `program.env values must be strings, numbers, booleans, or null`
    EnvValueNotScalar,
    /// `program.working_directory must be a string`
    WorkingDirectoryNotString,
}

impl ProgramSpecError {
    /// The message the error is reported with.
    pub fn message(&self) -> (r: String)
        ensures
            r@ == error_message(*self),
    {
        match self {
            ProgramSpecError::NotStringOrObject => String::from_str("program must be a string or object"),
            ProgramSpecError::MissingCommand => String::from_str("program object must include a 'command' field"),
            ProgramSpecError::CommandNotStringOrArray => String::from_str(
                "program.command must be a string or string array",
            ),
            ProgramSpecError::CommandEntryNotString => String::from_str("program.command entries must be strings"),
            ProgramSpecError::EnvNotMapping => String::from_str("program.env must be a mapping"),
            ProgramSpecError::EnvKeyNotString => String::from_str("program.env keys must be strings"),
            ProgramSpecError::EnvValueNotScalar => String::from_str(
                "program.env values must be strings, numbers, booleans, or null",
            ),
            ProgramSpecError::WorkingDirectoryNotString => String::from_str(
                "program.working_directory must be a string",
            ),
        }
    }
}

pub open spec fn error_message(e: ProgramSpecError) -> Seq<char> {
    match e {
        ProgramSpecError::NotStringOrObject => "program must be a string or object"@,
        ProgramSpecError::MissingCommand => "program object must include a 'command' field"@,
        ProgramSpecError::CommandNotStringOrArray => "program.command must be a string or string array"@,
        ProgramSpecError::CommandEntryNotString => "program.command entries must be strings"@,
        ProgramSpecError::EnvNotMapping => "program.env must be a mapping"@,
        ProgramSpecError::EnvKeyNotString => "program.env keys must be strings"@,
        ProgramSpecError::EnvValueNotScalar => "program.env values must be strings, numbers, booleans, or null"@,
        ProgramSpecError::WorkingDirectoryNotString => "program.working_directory must be a string"@,
    }
}

/// A command as values: `(is shell, shell line, argument list)`.
pub open spec fn command_view(c: ProgramCommand) -> (bool, Seq<char>, Seq<Seq<char>>) {
    match c {
        ProgramCommand::Shell(s) => (true, s@, Seq::empty()),
        ProgramCommand::Exec(items) => (false, Seq::empty(), Seq::new(items@.len(), |i: int| items@[i]@)),
    }
}

/// The items of a command list as text, each read through tags; `None` if
/// one is not a string.
pub open spec fn item_strings(items: Seq<YamlView>) -> Option<Seq<Seq<char>>>
    decreases items.len(),
{
    if items.len() == 0 {
        Some(Seq::empty())
    } else {
        match item_strings(items.drop_last()) {
            Some(s) => match as_str(items.last()) {
                Some(t) => Some(s.push(t)),
                None => None,
            },
            None => None,
        }
    }
}

/// `command:` as a string or a string list; the variant is matched as it
/// stands, not through a tag.
pub open spec fn command_spec(v: YamlView) -> Result<(bool, Seq<char>, Seq<Seq<char>>), ProgramSpecError> {
    match v {
        YamlView::Str(s) => Ok((true, s, Seq::empty())),
        YamlView::List(items) => match item_strings(items) {
            Some(s) => Ok((false, Seq::empty(), s)),
            None => Err(ProgramSpecError::CommandEntryNotString),
        },
        _ => Err(ProgramSpecError::CommandNotStringOrArray),
    }
}

/// An environment value as text: null is empty, a boolean `true`/`false`,
/// a number its text, a string itself.
pub open spec fn env_value_text(v: YamlView) -> Option<Seq<char>> {
    match v {
        YamlView::Null => Some(Seq::empty()),
        YamlView::Bool(b) => Some(if b {
            "true"@
        } else {
            "false"@
        }),
        YamlView::Str(s) => Some(s),
        _ => number_text(v),
    }
}

/// The environment entries of `env:` in mapping order, or the first
/// refusal: a key that is not a string, or a value that is not a scalar.
pub open spec fn env_spec(m: Entries) -> Result<Seq<(Seq<char>, Seq<char>)>, ProgramSpecError>
    decreases m.len(),
{
    if m.len() == 0 {
        Ok(Seq::empty())
    } else {
        match env_spec(m.drop_last()) {
            Err(e) => Err(e),
            Ok(s) => match as_str(m.last().0) {
                None => Err(ProgramSpecError::EnvKeyNotString),
                Some(k) => match env_value_text(m.last().1) {
                    None => Err(ProgramSpecError::EnvValueNotScalar),
                    Some(t) => Ok(s.push((k, t))),
                },
            },
        }
    }
}

/// A parsed program as values: `(command, env entries, working directory,
/// shell)`.
pub type ProgramView = ((bool, Seq<char>, Seq<Seq<char>>), Seq<(Seq<char>, Seq<char>)>, Option<Seq<char>>, bool);

pub open spec fn program_view(p: ProgramSpec) -> ProgramView {
    (
        command_view(p.command),
        Seq::new(p.env@.len(), |i: int| (p.env@[i].0@, p.env@[i].1@)),
        match p.working_directory {
            Some(w) => Some(w@),
            None => None,
        },
        p.shell,
    )
}

pub open spec fn key(name: Seq<char>) -> YamlView {
    YamlView::Str(name)
}

/// `program:` read: a string is a shell command; an object needs
/// `command`, then its `env` (a mapping), `working_directory` (a string)
/// and `shell` (a boolean, by default whether the command is a string) are
/// read in that order; anything else is refused.
pub open spec fn program_spec_of(v: YamlView) -> Result<ProgramView, ProgramSpecError> {
    match v {
        YamlView::Str(s) => Ok(((true, s, Seq::empty()), Seq::empty(), None, true)),
        YamlView::Mapping(m) => match get(m, key("command"@)) {
            None => Err(ProgramSpecError::MissingCommand),
            Some(c) => match command_spec(c) {
                Err(e) => Err(e),
                Ok(cmd) => {
                    let env = match get(m, key("env"@)) {
                        None => Ok(Seq::empty()),
                        Some(YamlView::Mapping(e)) => env_spec(e),
                        Some(_) => Err(ProgramSpecError::EnvNotMapping),
                    };
                    match env {
                        Err(e) => Err(e),
                        Ok(env) => {
                            let wd = match get(m, key("working_directory"@)) {
                                None => Ok(None),
                                Some(w) => match as_str(w) {
                                    Some(t) => Ok(Some(t)),
                                    None => Err(ProgramSpecError::WorkingDirectoryNotString),
                                },
                            };
                            match wd {
                                Err(e) => Err(e),
                                Ok(wd) => {
                                    let shell = match get(m, key("shell"@)) {
                                        Some(s) => match as_bool(s) {
                                            Some(b) => b,
                                            None => cmd.0,
                                        },
                                        None => cmd.0,
                                    };
                                    Ok((cmd, env, wd, shell))
                                },
                            }
                        },
                    }
                },
            },
        },
        _ => Err(ProgramSpecError::NotStringOrObject),
    }
}

fn command_of(v: &Yaml) -> (r: Result<ProgramCommand, ProgramSpecError>)
    ensures
        match r {
            Ok(c) => command_spec(v.deep()) == Ok::<(bool, Seq<char>, Seq<Seq<char>>), ProgramSpecError>(command_view(c)),
            Err(e) => command_spec(v.deep()) == Err::<(bool, Seq<char>, Seq<Seq<char>>), ProgramSpecError>(e),
        },
{
    match v {
        Yaml::Str(s) => Ok(ProgramCommand::Shell(String::from_str(s.as_str()))),
        Yaml::List(items) => {
            let ghost d = crate::yaml::deep_items(items@);
            proof {
                crate::yaml::lemma_list_deep(*items);
            }
            let mut out: Vec<String> = Vec::new();
            let mut i: usize = 0;
            assert(d.take(0) =~= Seq::<YamlView>::empty());
            assert(Seq::new(out@.len(), |q: int| out@[q]@) =~= Seq::<Seq<char>>::empty());
            while i < items.len()
                invariant
                    d == crate::yaml::deep_items(items@),
                    v.deep() == YamlView::List(d),
                    i <= items@.len(),
                    item_strings(d.take(i as int)) == Some(Seq::new(out@.len(), |q: int| out@[q]@)),
                decreases items@.len() - i,
            {
                assert(d.take(i + 1).drop_last() =~= d.take(i as int));
                assert(d.take(i + 1).last() == items@[i as int].deep());
                match str_of(&items[i]) {
                    Some(s) => {
                        let ghost before = Seq::new(out@.len(), |q: int| out@[q]@);
                        out.push(String::from_str(s.as_str()));
                        assert(Seq::new(out@.len(), |q: int| out@[q]@) =~= before.push(s@));
                    },
                    None => {
                        proof {
                            assert(item_strings(d.take(i + 1)) is None);
                            lemma_item_strings_none(d, i as int + 1, d.len() as int);
                            assert(d.take(d.len() as int) =~= d);
                        }
                        return Err(ProgramSpecError::CommandEntryNotString);
                    },
                }
                i += 1;
            }
            assert(d.take(d.len() as int) =~= d);
            Ok(ProgramCommand::Exec(out))
        },
        _ => Err(ProgramSpecError::CommandNotStringOrArray),
    }
}

proof fn lemma_item_strings_none(d: Seq<YamlView>, k: int, n: int)
    requires
        0 < k <= n <= d.len(),
        item_strings(d.take(k)) is None,
    ensures
        item_strings(d.take(n)) is None,
    decreases n - k,
{
    if n > k {
        lemma_item_strings_none(d, k, n - 1);
        assert(d.take(n).drop_last() =~= d.take(n - 1));
    }
}

proof fn lemma_env_err(m: Entries, k: int, n: int)
    requires
        0 < k <= n <= m.len(),
        env_spec(m.take(k)) is Err,
    ensures
        env_spec(m.take(n)) == env_spec(m.take(k)),
    decreases n - k,
{
    if n > k {
        lemma_env_err(m, k, n - 1);
        assert(m.take(n).drop_last() =~= m.take(n - 1));
    }
}

fn env_of(m: &Vec<(Yaml, Yaml)>) -> (r: Result<Vec<(String, String)>, ProgramSpecError>)
    ensures
        match r {
            Ok(env) => env_spec(deep_entries(m@)) == Ok::<Seq<(Seq<char>, Seq<char>)>, ProgramSpecError>(
                Seq::new(env@.len(), |i: int| (env@[i].0@, env@[i].1@)),
            ),
            Err(e) => env_spec(deep_entries(m@)) == Err::<Seq<(Seq<char>, Seq<char>)>, ProgramSpecError>(e),
        },
{
    let ghost d = deep_entries(m@);
    let mut out: Vec<(String, String)> = Vec::new();
    let mut i: usize = 0;
    assert(d.take(0) =~= Seq::<(YamlView, YamlView)>::empty());
    assert(Seq::new(out@.len(), |q: int| (out@[q].0@, out@[q].1@)) =~= Seq::<(Seq<char>, Seq<char>)>::empty());
    while i < m.len()
        invariant
            d == deep_entries(m@),
            i <= m@.len(),
            env_spec(d.take(i as int)) == Ok::<Seq<(Seq<char>, Seq<char>)>, ProgramSpecError>(
                Seq::new(out@.len(), |q: int| (out@[q].0@, out@[q].1@)),
            ),
        decreases m@.len() - i,
    {
        assert(d.take(i + 1).drop_last() =~= d.take(i as int));
        assert(d.take(i + 1).last() == (m@[i as int].0.deep(), m@[i as int].1.deep()));
        let k = match str_of(&m[i].0) {
            Some(k) => String::from_str(k.as_str()),
            None => {
                proof {
                    lemma_env_err(d, i as int + 1, d.len() as int);
                    assert(d.take(d.len() as int) =~= d);
                }
                return Err(ProgramSpecError::EnvKeyNotString);
            },
        };
        let value = &m[i].1;
        let t = match value {
            Yaml::Null => String::new(),
            Yaml::Bool(b) => if *b {
                String::from_str("true")
            } else {
                String::from_str("false")
            },
            Yaml::Str(s) => String::from_str(s.as_str()),
            _ => match crate::recipe::number_to_text(value) {
                Some(t) => t,
                None => {
                    proof {
                        assert(env_value_text(value.deep()) is None);
                        lemma_env_err(d, i as int + 1, d.len() as int);
                        assert(d.take(d.len() as int) =~= d);
                    }
                    return Err(ProgramSpecError::EnvValueNotScalar);
                },
            },
        };
        assert(env_value_text(value.deep()) == Some(t@));
        let ghost before = Seq::new(out@.len(), |q: int| (out@[q].0@, out@[q].1@));
        out.push((k, t));
        assert(Seq::new(out@.len(), |q: int| (out@[q].0@, out@[q].1@)) =~= before.push((k@, t@)));
        i += 1;
    }
    assert(d.take(d.len() as int) =~= d);
    Ok(out)
}

/// Parse a state's `program:` value.
pub fn parse_program_spec(value: &Yaml) -> (r: Result<ProgramSpec, ProgramSpecError>)
    ensures
        match r {
            Ok(p) => program_spec_of(value.deep()) == Ok::<ProgramView, ProgramSpecError>(program_view(p)),
            Err(e) => program_spec_of(value.deep()) == Err::<ProgramView, ProgramSpecError>(e),
        },
{
    match value {
        Yaml::Str(s) => {
            let p = ProgramSpec {
                command: ProgramCommand::Shell(String::from_str(s.as_str())),
                env: Vec::new(),
                working_directory: None,
                shell: true,
            };
            assert(program_view(p).1 =~= Seq::<(Seq<char>, Seq<char>)>::empty());
            Ok(p)
        },
        Yaml::Mapping(m) => {
            proof {
                crate::yaml::lemma_mapping_deep(*m);
            }
            let command = match get_value(m, &str_key("command")) {
                None => {
                    return Err(ProgramSpecError::MissingCommand);
                },
                Some(c) => match command_of(c) {
                    Ok(c) => c,
                    Err(e) => {
                        return Err(e);
                    },
                },
            };
            let env = match get_value(m, &str_key("env")) {
                None => Vec::new(),
                Some(Yaml::Mapping(e)) => {
                    proof {
                        crate::yaml::lemma_mapping_deep(*e);
                    }
                    match env_of(e) {
                        Ok(env) => env,
                        Err(err) => {
                            return Err(err);
                        },
                    }
                },
                Some(_) => {
                    return Err(ProgramSpecError::EnvNotMapping);
                },
            };
            let working_directory = match get_value(m, &str_key("working_directory")) {
                None => None,
                Some(w) => match str_of(w) {
                    Some(t) => Some(String::from_str(t.as_str())),
                    None => {
                        return Err(ProgramSpecError::WorkingDirectoryNotString);
                    },
                },
            };
            let default_shell = match &command {
                ProgramCommand::Shell(_) => true,
                ProgramCommand::Exec(_) => false,
            };
            let shell = match get_value(m, &str_key("shell")) {
                Some(s) => match bool_of(s) {
                    Some(b) => b,
                    None => default_shell,
                },
                None => default_shell,
            };
            let p = ProgramSpec { command, env, working_directory, shell };
            proof {
                if get(deep_entries(m@), key("env"@)) is None {
                    assert(program_view(p).1 =~= Seq::<(Seq<char>, Seq<char>)>::empty());
                }
            }
            Ok(p)
        },
        _ => Err(ProgramSpecError::NotStringOrObject),
    }
}


// ---------------------------------------------------------------------------
// Running a program
// ---------------------------------------------------------------------------

/// The argument vector a program runs as: through the shell, `sh -c` and
/// the line (an argument list joined by spaces); without it, the argument
/// list itself. `None` for a shell line that is asked to run without a
/// shell.
pub open spec fn argv_spec(shell: bool, c: (bool, Seq<char>, Seq<Seq<char>>)) -> Option<Seq<Seq<char>>> {
    if shell {
        Some(seq!["sh"@, "-c"@, if c.0 {
            c.1
        } else {
            join(c.2, " "@)
        }])
    } else if c.0 {
        None
    } else {
        Some(c.2)
    }
}

/// The error for a shell line asked to run without a shell.
pub open spec fn shell_string_error() -> Seq<char> {
    "program command cannot disable shell when command is a string"@
}

/// The argument vector of a program whose command (each part already
/// rendered) is `command`; its first item is what runs.
pub fn program_argv(shell: bool, command: &ProgramCommand) -> (r: Result<Vec<String>, String>)
    requires
        !shell && command_view(*command).0 == false ==> command_view(*command).2.len() > 0,
    ensures
        match r {
            Ok(v) => argv_spec(shell, command_view(*command)) == Some(Seq::new(v@.len(), |i: int| v@[i]@)),
            Err(e) => argv_spec(shell, command_view(*command)) is None && e@ == shell_string_error(),
        },
{
    if shell {
        let line = match command {
            ProgramCommand::Shell(l) => String::from_str(l.as_str()),
            ProgramCommand::Exec(args) => {
                let r = join_strings(args, " ");
                assert(args@.map_values(|p: String| p@) =~= command_view(*command).2);
                r
            },
        };
        let v = vec![String::from_str("sh"), String::from_str("-c"), line];
        assert(Seq::new(v@.len(), |i: int| v@[i]@) =~= argv_spec(shell, command_view(*command))->0);
        Ok(v)
    } else {
        match command {
            ProgramCommand::Shell(_) => Err(String::from_str(
                "program command cannot disable shell when command is a string",
            )),
            ProgramCommand::Exec(args) => {
                let mut v: Vec<String> = Vec::new();
                let mut i: usize = 0;
                while i < args.len()
                    invariant
                        i <= args@.len(),
                        v@.len() == i,
                        forall|k: int| 0 <= k < i ==> (#[trigger] v@[k])@ == args@[k]@,
                    decreases args@.len() - i,
                {
                    v.push(String::from_str(args[i].as_str()));
                    i += 1;
                }
                assert(Seq::new(v@.len(), |k: int| v@[k]@) =~= command_view(*command).2);
                Ok(v)
            },
        }
    }
}

/// An input artifact as a program sees it: its declared name, its path
/// relative to the workspace, whether that path leaves the workspace, and
/// whether the file is there.
#[derive(Debug, PartialEq)]
pub struct ProgramInput {
    pub name: String,
    pub relative: String,
    pub escapes_root: bool,
    pub exists: bool,
}

/// The stem of an input's environment variables: its name upper-cased,
/// with `-` and ` ` turned into `_`.
pub open spec fn env_stem(name: Seq<char>) -> Seq<char> {
    Seq::new(
        to_uppercase_spec(name).len(),
        |i: int|
            if to_uppercase_spec(name)[i] == '-' || to_uppercase_spec(name)[i] == ' ' {
                '_'
            } else {
                to_uppercase_spec(name)[i]
            },
    )
}

/// `true` or `false`.
pub open spec fn bool_text(b: bool) -> Seq<char> {
    if b {
        "true"@
    } else {
        "false"@
    }
}

/// The two variables each input sets, in declaration order.
pub open spec fn input_entries(inputs: Seq<ProgramInput>, k: int) -> Seq<(Seq<char>, Seq<char>)>
    decreases k,
{
    if k <= 0 {
        Seq::empty()
    } else {
        let a = inputs[k - 1];
        input_entries(inputs, k - 1).push(("RHEI_INPUT_"@ + env_stem(a.name@) + "_EXISTS"@, bool_text(a.exists))).push(
            ("RHEI_INPUT_"@ + env_stem(a.name@) + "_PATH"@, a.relative@),
        )
    }
}

/// The first input among the first `k` whose path leaves the workspace.
pub open spec fn first_escape(inputs: Seq<ProgramInput>, k: int) -> Option<int>
    decreases k,
{
    if k <= 0 {
        None
    } else {
        match first_escape(inputs, k - 1) {
            Some(i) => Some(i),
            None => if inputs[k - 1].escapes_root {
                Some(k - 1)
            } else {
                None
            },
        }
    }
}

/// The error for an input whose path leaves the workspace.
pub open spec fn escape_error(a: ProgramInput) -> Seq<char> {
    "input artifact '"@ + a.name@ + "' expands to '"@ + a.relative@ + "' which escapes the workspace root"@
}

/// The environment a program runs with, in the order it is set (a later
/// entry overrides an earlier one of the same name): the plan, the task,
/// the state and its visit count, the machine file and the model where
/// there are any, each input's existence and path, then the program's own
/// `env:` (values already rendered).
pub open spec fn environment_spec(
    plan_path: Seq<char>,
    task_id: Seq<char>,
    state: Seq<char>,
    visit_count: nat,
    state_machine_path: Option<Seq<char>>,
    model: Option<Seq<char>>,
    inputs: Seq<ProgramInput>,
    env: Seq<(Seq<char>, Seq<char>)>,
) -> Seq<(Seq<char>, Seq<char>)> {
    seq![
        ("RHEI_PLAN_PATH"@, plan_path),
        ("RHEI_TASK_ID"@, task_id),
        ("RHEI_STATE"@, state),
        ("RHEI_VISIT_COUNT"@, decimal(visit_count)),
    ] + match state_machine_path {
        Some(p) => seq![("RHEI_STATE_MACHINE_PATH"@, p)],
        None => Seq::empty(),
    } + match model {
        Some(m) => seq![("RHEI_MODEL"@, m)],
        None => Seq::empty(),
    } + input_entries(inputs, inputs.len() as int) + env
}

pub open spec fn pairs_of(v: Seq<(String, String)>) -> Seq<(Seq<char>, Seq<char>)> {
    Seq::new(v.len(), |i: int| (v[i].0@, v[i].1@))
}

/// The stem of an input's environment variables.
pub fn input_env_stem(name: &str) -> (r: String)
    ensures
        r@ == env_stem(name@),
{
    let up = to_uppercase(name);
    let cs = crate::text::chars_of(up.as_str());
    let mut out: Vec<char> = Vec::new();
    let mut i: usize = 0;
    while i < cs.len()
        invariant
            cs@ == to_uppercase_spec(name@),
            i <= cs@.len(),
            out@ =~= env_stem(name@).take(i as int),
        decreases cs@.len() - i,
    {
        let c = cs[i];
        if c == '-' || c == ' ' {
            out.push('_');
        } else {
            out.push(c);
        }
        i += 1;
    }
    crate::text::string_of(out.as_slice())
}

/// The environment a program runs with, or the error for the first input
/// whose path leaves the workspace.
pub fn program_environment(
    plan_path: &str,
    task_id: &str,
    state: &str,
    visit_count: u64,
    state_machine_path: Option<&str>,
    model: Option<&str>,
    inputs: &Vec<ProgramInput>,
    env: &Vec<(String, String)>,
) -> (r: Result<Vec<(String, String)>, String>)
    ensures
        match r {
            Ok(v) => first_escape(inputs@, inputs@.len() as int) is None && pairs_of(v@) == environment_spec(
                plan_path@,
                task_id@,
                state@,
                visit_count as nat,
                match state_machine_path {
                    Some(p) => Some(p@),
                    None => None,
                },
                match model {
                    Some(m) => Some(m@),
                    None => None,
                },
                inputs@,
                pairs_of(env@),
            ),
            Err(e) => first_escape(inputs@, inputs@.len() as int) matches Some(i) && e@ == escape_error(inputs@[i]),
        },
{
    let mut out: Vec<(String, String)> = Vec::new();
    out.push((String::from_str("RHEI_PLAN_PATH"), String::from_str(plan_path)));
    out.push((String::from_str("RHEI_TASK_ID"), String::from_str(task_id)));
    out.push((String::from_str("RHEI_STATE"), String::from_str(state)));
    out.push((String::from_str("RHEI_VISIT_COUNT"), u64_to_string(visit_count)));
    match state_machine_path {
        Some(p) => out.push((String::from_str("RHEI_STATE_MACHINE_PATH"), String::from_str(p))),
        None => {},
    }
    match model {
        Some(m) => out.push((String::from_str("RHEI_MODEL"), String::from_str(m))),
        None => {},
    }
    let ghost head = pairs_of(out@);
    assert(head =~= seq![
        ("RHEI_PLAN_PATH"@, plan_path@),
        ("RHEI_TASK_ID"@, task_id@),
        ("RHEI_STATE"@, state@),
        ("RHEI_VISIT_COUNT"@, decimal(visit_count as nat)),
    ] + match state_machine_path {
        Some(p) => seq![("RHEI_STATE_MACHINE_PATH"@, p@)],
        None => Seq::empty(),
    } + match model {
        Some(m) => seq![("RHEI_MODEL"@, m@)],
        None => Seq::empty(),
    });
    let mut i: usize = 0;
    while i < inputs.len()
        invariant
            i <= inputs@.len(),
            first_escape(inputs@, i as int) is None,
            pairs_of(out@) == head + input_entries(inputs@, i as int),
        decreases inputs@.len() - i,
    {
        let a = &inputs[i];
        if a.escapes_root {
            let mut msg = String::from_str("input artifact '");
            push_str(&mut msg, a.name.as_str());
            push_str(&mut msg, "' expands to '");
            push_str(&mut msg, a.relative.as_str());
            push_str(&mut msg, "' which escapes the workspace root");
            proof {
                lemma_first_escape_stays(inputs@, i as int + 1, inputs@.len() as int);
            }
            return Err(msg);
        }
        let stem = input_env_stem(a.name.as_str());
        let mut k1 = String::from_str("RHEI_INPUT_");
        push_str(&mut k1, stem.as_str());
        push_str(&mut k1, "_EXISTS");
        let v1 = if a.exists {
            String::from_str("true")
        } else {
            String::from_str("false")
        };
        let mut k2 = String::from_str("RHEI_INPUT_");
        push_str(&mut k2, stem.as_str());
        push_str(&mut k2, "_PATH");
        let ghost before = pairs_of(out@);
        out.push((k1, v1));
        out.push((k2, String::from_str(a.relative.as_str())));
        assert(pairs_of(out@) =~= before.push((k1@, v1@)).push((k2@, a.relative@)));
        i += 1;
    }
    let ghost mid = pairs_of(out@);
    let mut j: usize = 0;
    while j < env.len()
        invariant
            j <= env@.len(),
            pairs_of(out@) == mid + pairs_of(env@).take(j as int),
        decreases env@.len() - j,
    {
        let ghost before = pairs_of(out@);
        out.push((String::from_str(env[j].0.as_str()), String::from_str(env[j].1.as_str())));
        assert(pairs_of(env@).take(j + 1) =~= pairs_of(env@).take(j as int).push((env@[j as int].0@, env@[j as int].1@)));
        assert(pairs_of(out@) =~= before.push((env@[j as int].0@, env@[j as int].1@)));
        j += 1;
    }
    assert(pairs_of(env@).take(env@.len() as int) =~= pairs_of(env@));
    Ok(out)
}

/// Once an escape is found among the first `k` inputs, it stays the first.
proof fn lemma_first_escape_stays(inputs: Seq<ProgramInput>, k: int, n: int)
    requires
        0 < k <= n,
        first_escape(inputs, k - 1) is None,
        inputs[k - 1].escapes_root,
    ensures
        first_escape(inputs, n) == Some(k - 1),
    decreases n - k,
{
    if n > k {
        lemma_first_escape_stays(inputs, k, n - 1);
    }
}

/// A state's program, ready to run, with the timeout it runs under.
#[derive(Debug, PartialEq)]
pub struct ResolvedProgram {
    pub program: ProgramSpec,
    pub timeout_secs: Option<u64>,
}

/// Why a state's program cannot be resolved.
#[derive(Debug, PartialEq)]
pub enum ResolveProgramError {
    /// `state '<name>' missing from loaded machine`
    MissingState(String),
    Spec(ProgramSpecError),
}

/// The first duration that was given and parses, in the order the sources
/// take precedence.
pub open spec fn first_given(ts: Seq<Option<u64>>) -> Option<u64>
    decreases ts.len(),
{
    if ts.len() == 0 {
        None
    } else {
        match ts[0] {
            Some(t) => Some(t),
            None => first_given(ts.drop_first()),
        }
    }
}

/// The program a state runs and its timeout. With `--no-program` there is
/// none; a state the machine does not hold is an internal error; a state
/// without `program:` has none. The timeout is the first of `timeouts`
/// that is there: the command line's override, the state's own, the
/// settings' defaults, then the settings (each already parsed, `None` for
/// one absent or not a duration).
pub fn resolve_program(
    no_program: bool,
    state_name: &str,
    state_known: bool,
    program_value: Option<&Yaml>,
    timeouts: &Vec<Option<u64>>,
) -> (r: Result<Option<ResolvedProgram>, ResolveProgramError>)
    ensures
        no_program ==> r == Ok::<Option<ResolvedProgram>, ResolveProgramError>(None),
        !no_program && !state_known ==> (r matches Err(ResolveProgramError::MissingState(n)) && n@ == state_name@),
        !no_program && state_known && program_value is None ==> r == Ok::<Option<ResolvedProgram>, ResolveProgramError>(None),
        !no_program && state_known && program_value is Some ==> match program_spec_of(program_value->0.deep()) {
            Ok(pv) => (r matches Ok(Some(rp)) && program_view(rp.program) == pv && rp.timeout_secs == first_given(timeouts@)),
            Err(e) => r == Err::<Option<ResolvedProgram>, ResolveProgramError>(ResolveProgramError::Spec(e)),
        },
{
    if no_program {
        return Ok(None);
    }
    if !state_known {
        return Err(ResolveProgramError::MissingState(String::from_str(state_name)));
    }
    let value = match program_value {
        Some(v) => v,
        None => return Ok(None),
    };
    let mut timeout: Option<u64> = None;
    let mut i: usize = timeouts.len();
    while i > 0
        invariant
            i <= timeouts@.len(),
            timeout == first_given(timeouts@.subrange(i as int, timeouts@.len() as int)),
        decreases i,
    {
        i -= 1;
        let ghost rest = timeouts@.subrange(i as int, timeouts@.len() as int);
        assert(rest.drop_first() =~= timeouts@.subrange(i + 1, timeouts@.len() as int));
        match timeouts[i] {
            Some(t) => timeout = Some(t),
            None => {},
        }
    }
    assert(timeouts@.subrange(0, timeouts@.len() as int) =~= timeouts@);
    match parse_program_spec(value) {
        Ok(p) => Ok(Some(ResolvedProgram { program: p, timeout_secs: timeout })),
        Err(e) => Err(ResolveProgramError::Spec(e)),
    }
}

impl ResolveProgramError {
    /// The message the error is reported with.
    pub fn message(&self) -> (r: String)
        ensures
            match self {
                ResolveProgramError::MissingState(n) => r@ == "state '"@ + n@ + "' missing from loaded machine"@,
                ResolveProgramError::Spec(e) => r@ == error_message(*e),
            },
    {
        match self {
            ResolveProgramError::MissingState(n) => {
                let mut m = String::from_str("state '");
                push_str(&mut m, n.as_str());
                push_str(&mut m, "' missing from loaded machine");
                m
            },
            ResolveProgramError::Spec(e) => e.message(),
        }
    }
}

} // verus!
