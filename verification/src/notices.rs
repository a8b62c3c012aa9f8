//! The short lines a run and `rhei install` print: a missing output named
//! with its path, what a run waiting at a human gate tells its operator,
//! what a dry run reports, and the agents skills are installed for.
use vstd::prelude::*;
use crate::text::{
    chars_of, contains_char, decimal, i32_to_string, join, join_strings, push_str, signed_decimal, u64_to_string,
};

verus! {

/// `name (path)`, marked when the path still carries a `{...}` template
/// (a variable outside the namespace, left verbatim by design).
pub open spec fn missing_output_spec(name: Seq<char>, relative: Seq<char>) -> Seq<char> {
    if relative.contains('{') {
        name + " ("@ + relative + ", unresolved template)"@
    } else {
        name + " ("@ + relative + ")"@
    }
}

/// A required output a worker left unwritten, named with its resolved path.
pub fn format_missing_required_output(name: &str, relative: &str) -> (r: String)
    ensures
        r@ == missing_output_spec(name@, relative@),
{
    let v = chars_of(relative);
    let mut out = String::from_str(name);
    push_str(&mut out, " (");
    push_str(&mut out, relative);
    if contains_char(v.as_slice(), '{') {
        push_str(&mut out, ", unresolved template)");
    } else {
        push_str(&mut out, ")");
    }
    out
}

/// What a run waiting at a human gate says: a driving UI points at itself;
/// a detached run at the commands that reach it; a plain foreground run at
/// `rhei transition`.
pub open spec fn gate_notice_spec(frontend_is_tui: bool, headless_child: bool) -> Seq<char> {
    if frontend_is_tui {
        "Waiting for human gate decisions \u{2014} resolve a gate in the UI, or press Ctrl+C to stop."@
    } else if headless_child {
        "Waiting for human gate decisions \u{2014} release one with `rhei attach` or the browser dashboard, or end the run with `rhei stop`."@
    } else {
        "Waiting for human gate decisions \u{2014} release one with `rhei transition`, or press Ctrl+C to stop."@
    }
}

/// The words a run uses while it waits at a human gate.
pub fn awaiting_gate_notice(frontend_is_tui: bool, headless_child: bool) -> (r: String)
    ensures
        r@ == gate_notice_spec(frontend_is_tui, headless_child),
{
    if frontend_is_tui {
        String::from_str("Waiting for human gate decisions \u{2014} resolve a gate in the UI, or press Ctrl+C to stop.")
    } else if headless_child {
        String::from_str(
            "Waiting for human gate decisions \u{2014} release one with `rhei attach` or the browser dashboard, or end the run with `rhei stop`.",
        )
    } else {
        String::from_str(
            "Waiting for human gate decisions \u{2014} release one with `rhei transition`, or press Ctrl+C to stop.",
        )
    }
}

/// A dry run's line for a task in a manual-only initial state.
pub open spec fn manual_only_spec(task_id: Seq<char>, from: Seq<char>, to: Seq<char>) -> Seq<char> {
    "manual-only: Task "@ + task_id + "  "@ + from + " -> "@ + to
        + " (claim with `rhei next`, finish with `rhei complete`)"@
}

/// Report the manual-only condition in a dry run.
pub fn format_dry_run_manual_only(task_id: &str, from: &str, to: &str) -> (r: String)
    ensures
        r@ == manual_only_spec(task_id@, from@, to@),
{
    let mut out = String::from_str("manual-only: Task ");
    push_str(&mut out, task_id);
    push_str(&mut out, "  ");
    push_str(&mut out, from);
    push_str(&mut out, " -> ");
    push_str(&mut out, to);
    push_str(&mut out, " (claim with `rhei next`, finish with `rhei complete`)");
    out
}

/// The error a dry run ends with once it has reported every manual-only
/// task: the count and the fix, with the hint that goes under it.
pub open spec fn manual_only_error_spec(reported: nat) -> Seq<char> {
    decimal(reported)
        + " task(s) reported above are in a manual-only initial state and cannot be advanced by `rhei run`. Claim each with `rhei next`, do the work, then finish with `rhei complete`."@
}

/// The message and the hint of the error a dry run ends with after
/// reporting `reported` manual-only tasks.
pub fn manual_only_dry_run_error(reported: &Vec<String>) -> (r: (String, String))
    ensures
        r.0@ == manual_only_error_spec(reported@.len()),
        r.1@ == "claim one with: rhei next <plan>"@,
{
    let mut msg = u64_to_string(reported.len() as u64);
    push_str(
        &mut msg,
        " task(s) reported above are in a manual-only initial state and cannot be advanced by `rhei run`. Claim each with `rhei next`, do the work, then finish with `rhei complete`.",
    );
    (msg, String::from_str("claim one with: rhei next <plan>"))
}

/// `Task <id>: <title>`.
pub open spec fn task_label_spec(id: Seq<char>, title: Seq<char>) -> Seq<char> {
    "Task "@ + id + ": "@ + title
}

/// The tasks a dry run found ready, each as `Task <id>: <title>`, joined
/// by `, `.
pub fn format_ready_tasks(tasks: &Vec<(String, String)>) -> (r: String)
    ensures
        r@ == join(Seq::new(tasks@.len(), |i: int| task_label_spec(tasks@[i].0@, tasks@[i].1@)), ", "@),
{
    let mut labels: Vec<String> = Vec::new();
    let mut i: usize = 0;
    while i < tasks.len()
        invariant
            i <= tasks@.len(),
            labels@.len() == i,
            forall|k: int| 0 <= k < i ==> (#[trigger] labels@[k])@ == task_label_spec(tasks@[k].0@, tasks@[k].1@),
        decreases tasks@.len() - i,
    {
        let mut l = String::from_str("Task ");
        push_str(&mut l, tasks[i].0.as_str());
        push_str(&mut l, ": ");
        push_str(&mut l, tasks[i].1.as_str());
        labels.push(l);
        i += 1;
    }
    let r = join_strings(&labels, ", ");
    assert(labels@.map_values(|p: String| p@) =~= Seq::new(
        tasks@.len(),
        |k: int| task_label_spec(tasks@[k].0@, tasks@[k].1@),
    ));
    r
}

/// A dry run's line for a transition it would take; a supervisor's
/// self-loop is the release edge and says so.
pub open spec fn dry_run_transition_spec(task_id: Seq<char>, from: Seq<char>, to: Seq<char>, releases: bool) -> Seq<char> {
    "would transition: Task "@ + task_id + "  "@ + from + " -> "@ + to + if from == to && releases {
        " (release)"@
    } else {
        Seq::empty()
    }
}

/// Report a transition a dry run would take. `releases` is whether the
/// state it loops on supervises (executes on) a subtree.
pub fn format_dry_run_transition(task_id: &str, from: &str, to: &str, releases: bool) -> (r: String)
    ensures
        r@ == dry_run_transition_spec(task_id@, from@, to@, releases),
{
    let mut out = String::from_str("would transition: Task ");
    push_str(&mut out, task_id);
    push_str(&mut out, "  ");
    push_str(&mut out, from);
    push_str(&mut out, " -> ");
    push_str(&mut out, to);
    if crate::text::str_eq(from, to) && releases {
        push_str(&mut out, " (release)");
    }
    out
}

/// The log file a program's output goes to: `task-<id>-<state>.log`.
pub open spec fn program_log_name_spec(task_id: Seq<char>, state_name: Seq<char>) -> Seq<char> {
    "task-"@ + task_id + "-"@ + state_name + ".log"@
}

/// The name of the log a program run writes under the runtime `logs/`.
pub fn program_log_name(task_id: &str, state_name: &str) -> (r: String)
    ensures
        r@ == program_log_name_spec(task_id@, state_name@),
{
    let mut out = String::from_str("task-");
    push_str(&mut out, task_id);
    push_str(&mut out, "-");
    push_str(&mut out, state_name);
    push_str(&mut out, ".log");
    out
}

// ---------------------------------------------------------------------------
// Agents
// ---------------------------------------------------------------------------

/// An agent skills can be installed for, or all of them.
#[derive(Debug, Clone, Copy, PartialEq, Eq, Structural)]
pub enum Agent {
    ClaudeCode,
    Cursor,
    Windsurf,
    Copilot,
    Kilocode,
    Pi,
    Codex,
    Antigravity,
    All,
}

/// Every agent `all` stands for, in installation order.
pub open spec fn all_agents() -> Seq<Agent> {
    seq![
        Agent::ClaudeCode,
        Agent::Cursor,
        Agent::Windsurf,
        Agent::Copilot,
        Agent::Kilocode,
        Agent::Pi,
        Agent::Codex,
        Agent::Antigravity,
    ]
}

/// The agents an install covers: every one for `all`, else the one named.
pub fn expand_agent_list(agent: Agent) -> (r: Vec<Agent>)
    ensures
        r@ == if agent == Agent::All {
            all_agents()
        } else {
            seq![agent]
        },
{
    if agent == Agent::All {
        let r = vec![
            Agent::ClaudeCode,
            Agent::Cursor,
            Agent::Windsurf,
            Agent::Copilot,
            Agent::Kilocode,
            Agent::Pi,
            Agent::Codex,
            Agent::Antigravity,
        ];
        assert(r@ =~= all_agents());
        r
    } else {
        let r = vec![agent];
        assert(r@ =~= seq![agent]);
        r
    }
}

/// How skills are installed for one agent.
#[derive(Debug, PartialEq)]
pub enum InstallMethod {
    ClaudeCode,
    Cursor,
    Windsurf,
    Copilot,
    Codex,
    /// A rules directory of the given name (`.kilocode`, `.pi`,
    /// `.antigravity`).
    RulesDir(String),
}

/// An installation method as a value.
pub enum MethodView {
    ClaudeCode,
    Cursor,
    Windsurf,
    Copilot,
    Codex,
    RulesDir(Seq<char>),
}

/// The installation one agent takes; `None` for `all`, which is expanded
/// into the agents it stands for before anything is installed.
pub open spec fn install_spec(agent: Agent) -> Option<MethodView> {
    match agent {
        Agent::ClaudeCode => Some(MethodView::ClaudeCode),
        Agent::Cursor => Some(MethodView::Cursor),
        Agent::Windsurf => Some(MethodView::Windsurf),
        Agent::Copilot => Some(MethodView::Copilot),
        Agent::Codex => Some(MethodView::Codex),
        Agent::Kilocode => Some(MethodView::RulesDir(".kilocode"@)),
        Agent::Pi => Some(MethodView::RulesDir(".pi"@)),
        Agent::Antigravity => Some(MethodView::RulesDir(".antigravity"@)),
        Agent::All => None,
    }
}

pub open spec fn method_view(m: InstallMethod) -> MethodView {
    match m {
        InstallMethod::ClaudeCode => MethodView::ClaudeCode,
        InstallMethod::Cursor => MethodView::Cursor,
        InstallMethod::Windsurf => MethodView::Windsurf,
        InstallMethod::Copilot => MethodView::Copilot,
        InstallMethod::Codex => MethodView::Codex,
        InstallMethod::RulesDir(d) => MethodView::RulesDir(d@),
    }
}

/// Choose how to install skills for a single agent.
pub fn install_agent(agent: &Agent) -> (r: Option<InstallMethod>)
    ensures
        match r {
            Some(m) => install_spec(*agent) == Some(method_view(m)),
            None => install_spec(*agent) is None,
        },
{
    match agent {
        Agent::ClaudeCode => Some(InstallMethod::ClaudeCode),
        Agent::Cursor => Some(InstallMethod::Cursor),
        Agent::Windsurf => Some(InstallMethod::Windsurf),
        Agent::Copilot => Some(InstallMethod::Copilot),
        Agent::Kilocode => Some(InstallMethod::RulesDir(String::from_str(".kilocode"))),
        Agent::Pi => Some(InstallMethod::RulesDir(String::from_str(".pi"))),
        Agent::Codex => Some(InstallMethod::Codex),
        Agent::Antigravity => Some(InstallMethod::RulesDir(String::from_str(".antigravity"))),
        Agent::All => None,
    }
}


/// The line a fired timeout edge is logged with.
pub fn timeout_transition_line(task_id: &str, from: &str, to: &str, label: &str) -> (r: String)
    ensures
        r@ == "  Timeout transition: Task "@ + task_id@ + " '"@ + from@ + "' -> '"@ + to@ + "' (timeout "@ + label@ + ")"@,
{
    let mut l = String::from_str("  Timeout transition: Task ");
    push_str(&mut l, task_id);
    push_str(&mut l, " '");
    push_str(&mut l, from);
    push_str(&mut l, "' -> '");
    push_str(&mut l, to);
    push_str(&mut l, "' (timeout ");
    push_str(&mut l, label);
    push_str(&mut l, ")");
    l
}

/// The line a fired error edge (a worker the engine ended) is logged with.
pub fn error_transition_line(task_id: &str, from: &str, to: &str, exit_code: i32) -> (r: String)
    ensures
        r@ == "  Error transition: Task "@ + task_id@ + " '"@ + from@ + "' -> '"@ + to@ + "' (exit "@ + signed_decimal(
            exit_code as int,
        ) + ")"@,
{
    let mut l = String::from_str("  Error transition: Task ");
    push_str(&mut l, task_id);
    push_str(&mut l, " '");
    push_str(&mut l, from);
    push_str(&mut l, "' -> '");
    push_str(&mut l, to);
    push_str(&mut l, "' (exit ");
    let code = i32_to_string(exit_code);
    push_str(&mut l, code.as_str());
    push_str(&mut l, ")");
    l
}

/// The warning for an edge that was chosen but failed to fire; `what` is
/// `timeout`, `error` or `tooling-unavailable`.
pub fn failed_transition_warning(what: &str, task_id: &str, err: &str) -> (r: String)
    ensures
        r@ == "  warning: failed to fire "@ + what@ + " transition for Task "@ + task_id@ + ": "@ + err@,
{
    let mut l = String::from_str("  warning: failed to fire ");
    push_str(&mut l, what);
    push_str(&mut l, " transition for Task ");
    push_str(&mut l, task_id);
    push_str(&mut l, ": ");
    push_str(&mut l, err);
    l
}

/// The notice for tickets in non-concurrent states left for a later pass;
/// none when nothing was deferred.
pub fn deferred_notice(deferred: &Vec<String>) -> (r: Option<String>)
    ensures
        deferred@.len() == 0 ==> r is None,
        deferred@.len() > 0 ==> (r matches Some(m) && m@ == "Deferred "@ + decimal(deferred@.len())
            + " task(s) in non-concurrent states to a later pass: "@ + join(
            deferred@.map_values(|p: String| p@),
            ", "@,
        )),
{
    if deferred.len() == 0 {
        return None;
    }
    let mut m = String::from_str("Deferred ");
    let n = u64_to_string(deferred.len() as u64);
    push_str(&mut m, n.as_str());
    push_str(&mut m, " task(s) in non-concurrent states to a later pass: ");
    let joined = join_strings(deferred, ", ");
    push_str(&mut m, joined.as_str());
    Some(m)
}

} // verus!
