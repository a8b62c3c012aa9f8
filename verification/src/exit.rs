//! What a finished worker's exit means for its ticket, decided from the
//! completion alone: whether it met the completion condition, how the
//! outcome is recorded, which edge fires next (the ticket's own move, an
//! auto-advance, a timeout edge, an exit-code edge), and whether the run
//! goes on. The run performs each step and hands back what happened.
use vstd::prelude::*;
use crate::machine::TimeoutTransitionOutcome;

verus! {

/// The completion condition: the worker exited 0, its declared outputs
/// exist, and (when the edge it selects is terminal) its terminal result
/// was written.
pub fn completion_met(exit_ok: bool, outputs_exist: bool, terminal_result_missing: bool) -> (r: bool)
    ensures
        r == (exit_ok && outputs_exist && !terminal_result_missing),
{
    exit_ok && outputs_exist && !terminal_result_missing
}

/// How an invocation's outcome is recorded in its snapshots.
#[derive(Debug, Clone, Copy, PartialEq, Eq, Structural)]
pub enum SnapshotCompletion {
    Timeout,
    Success,
    Failure,
}

/// A timeout first, then whether the completion condition was met.
pub fn snapshot_completion(timed_out: bool, completed: bool) -> (r: SnapshotCompletion)
    ensures
        r == if timed_out {
            SnapshotCompletion::Timeout
        } else if completed {
            SnapshotCompletion::Success
        } else {
            SnapshotCompletion::Failure
        },
{
    if timed_out {
        SnapshotCompletion::Timeout
    } else if completed {
        SnapshotCompletion::Success
    } else {
        SnapshotCompletion::Failure
    }
}

/// The edge a failed worker takes: the timeout edge after a watchdog kill,
/// the exit-code edge after a non-zero exit, none after a clean exit.
pub fn failure_edge(timed_out: bool, exit_ok: bool, timeout_edge: Option<String>, exit_edge: Option<String>) -> (r: Option<String>)
    ensures
        r == if timed_out {
            timeout_edge
        } else if !exit_ok {
            exit_edge
        } else {
            None
        },
{
    if timed_out {
        timeout_edge
    } else if !exit_ok {
        exit_edge
    } else {
        None
    }
}

/// The next step after a worker finished.
#[derive(Debug, PartialEq)]
pub enum ExitStep {
    /// The ticket moved on its own: it advanced.
    Advanced,
    /// Exit 0 but required outputs are missing: the ticket stalls with a
    /// warning naming them.
    StalledMissingOutputs,
    /// Exit 0 and complete: ask whether more invocations of the state are
    /// pending before advancing.
    CheckPending,
    /// Timed out: fire this timeout edge.
    FireTimeout(String),
    /// Timed out with no timeout edge declared: the ticket stays, stalled.
    TimeoutUndeclared,
    /// Non-zero exit: fire this exit-code edge.
    FireExitEdge(String),
    /// Non-zero exit, no edge, and the run does not continue on errors: end
    /// the run with this exit code.
    Abort(i32),
    /// Non-zero exit, no edge, continuing on errors: the ticket stalls.
    StallFailure,
}

pub enum StepView {
    Advanced,
    StalledMissingOutputs,
    CheckPending,
    FireTimeout(Seq<char>),
    TimeoutUndeclared,
    FireExitEdge(Seq<char>),
    Abort(i32),
    StallFailure,
}

pub open spec fn step_view(s: ExitStep) -> StepView {
    match s {
        ExitStep::Advanced => StepView::Advanced,
        ExitStep::StalledMissingOutputs => StepView::StalledMissingOutputs,
        ExitStep::CheckPending => StepView::CheckPending,
        ExitStep::FireTimeout(t) => StepView::FireTimeout(t@),
        ExitStep::TimeoutUndeclared => StepView::TimeoutUndeclared,
        ExitStep::FireExitEdge(t) => StepView::FireExitEdge(t@),
        ExitStep::Abort(c) => StepView::Abort(c),
        ExitStep::StallFailure => StepView::StallFailure,
    }
}

/// A move of the ticket wins; then a clean exit (stalled on missing
/// outputs, else on to the pending check); then a timeout (its edge, or a
/// stall); then a failed exit (its edge, else abort or stall by
/// `--continue-on-error`).
pub open spec fn exit_step_spec(
    moved: bool,
    exit_ok: bool,
    missing_outputs: bool,
    timed_out: bool,
    edge: Option<Seq<char>>,
    exit_code: i32,
    continue_on_error: bool,
) -> StepView {
    if moved {
        StepView::Advanced
    } else if exit_ok {
        if missing_outputs {
            StepView::StalledMissingOutputs
        } else {
            StepView::CheckPending
        }
    } else if timed_out {
        match edge {
            Some(t) => StepView::FireTimeout(t),
            None => StepView::TimeoutUndeclared,
        }
    } else {
        match edge {
            Some(t) => StepView::FireExitEdge(t),
            None => if continue_on_error {
                StepView::StallFailure
            } else {
                StepView::Abort(exit_code)
            },
        }
    }
}

/// A failed exit that neither timed out nor moved the ticket fires the
/// failure edge its state declares, whether or not `--continue-on-error` is
/// given; the flag only decides what happens when there is no such edge.
pub proof fn lemma_failure_edge_always_fires(
    missing_outputs: bool,
    edge: Seq<char>,
    exit_code: i32,
    continue_on_error: bool,
)
    ensures
        exit_step_spec(false, false, missing_outputs, false, Some(edge), exit_code, continue_on_error)
            == StepView::FireExitEdge(edge),
{
}

/// Decide what a finished worker's exit leads to. `moved` is whether the
/// ticket's state changed during the invocation; `edge` is the failure
/// edge [`failure_edge`] chose; `exit_code` is the code the worker exited
/// with (-1 when killed by a signal).
pub fn exit_step(
    moved: bool,
    exit_ok: bool,
    missing_outputs: bool,
    timed_out: bool,
    edge: Option<String>,
    exit_code: i32,
    continue_on_error: bool,
) -> (r: ExitStep)
    ensures
        step_view(r) == exit_step_spec(
            moved,
            exit_ok,
            missing_outputs,
            timed_out,
            match edge {
                Some(t) => Some(t@),
                None => None,
            },
            exit_code,
            continue_on_error,
        ),
        moved ==> r == ExitStep::Advanced,
        !moved && exit_ok && missing_outputs ==> r == ExitStep::StalledMissingOutputs,
        !moved && exit_ok && !missing_outputs ==> r == ExitStep::CheckPending,
        !moved && !exit_ok && timed_out ==> match edge {
            Some(t) => r matches ExitStep::FireTimeout(f) && f@ == t@,
            None => r == ExitStep::TimeoutUndeclared,
        },
        !moved && !exit_ok && !timed_out ==> match edge {
            Some(t) => r matches ExitStep::FireExitEdge(f) && f@ == t@,
            None => if continue_on_error {
                r == ExitStep::StallFailure
            } else {
                r == ExitStep::Abort(exit_code)
            },
        },
{
    if moved {
        ExitStep::Advanced
    } else if exit_ok {
        if missing_outputs {
            ExitStep::StalledMissingOutputs
        } else {
            ExitStep::CheckPending
        }
    } else if timed_out {
        match edge {
            Some(t) => ExitStep::FireTimeout(t),
            None => ExitStep::TimeoutUndeclared,
        }
    } else {
        match edge {
            Some(t) => ExitStep::FireExitEdge(t),
            None => if continue_on_error {
                ExitStep::StallFailure
            } else {
                ExitStep::Abort(exit_code)
            },
        }
    }
}

/// After the pending check: wait for the other invocations, or try to
/// auto-advance the ticket.
#[derive(Debug, PartialEq, Eq, Structural)]
pub enum PendingStep {
    Await,
    AutoAdvance,
}

pub fn pending_step(pending_more: bool) -> (r: PendingStep)
    ensures
        r == if pending_more {
            PendingStep::Await
        } else {
            PendingStep::AutoAdvance
        },
{
    if pending_more {
        PendingStep::Await
    } else {
        PendingStep::AutoAdvance
    }
}

/// Whether firing a system edge advanced the ticket (else it stalls).
pub fn fired_advances(outcome: TimeoutTransitionOutcome) -> (r: bool)
    ensures
        r == (outcome == TimeoutTransitionOutcome::Fired),
{
    match outcome {
        TimeoutTransitionOutcome::Fired => true,
        _ => false,
    }
}

/// What an auto-advance attempt gave.
#[derive(Debug, PartialEq)]
pub enum AutoAdvance {
    /// It advanced to this state.
    To(String),
    /// No edge was eligible.
    NoEdge,
    /// It failed, saying why.
    Failed(String),
}

/// Whether an auto-advance advanced the ticket (else it stalls).
pub fn auto_advance_advances(result: &AutoAdvance) -> (r: bool)
    ensures
        r == (*result is To),
{
    match result {
        AutoAdvance::To(_) => true,
        _ => false,
    }
}


// ---------------------------------------------------------------------------
// The completion condition, one invocation at a time
// ---------------------------------------------------------------------------

/// Whether an invocation still owes the ticket something: a declared output
/// of its identity is missing, or the edge its exit would select finishes
/// the ticket and its own result is not written. The exit code is not part
/// of it: this is the half of the condition that is the same question
/// before a spawn and after an exit.
pub fn invocation_is_pending(outputs_exist: bool, finishes_ticket: bool, result_written: bool) -> (r: bool)
    ensures
        r == (!outputs_exist || (finishes_ticket && !result_written)),
{
    if !outputs_exist {
        return true;
    }
    if !finishes_ticket {
        return false;
    }
    !result_written
}

/// Whether any invocation of the state is still pending: one exiting is
/// not the state finishing.
pub fn task_has_pending_invocations(pending: &Vec<bool>) -> (r: bool)
    ensures
        r == exists|i: int| 0 <= i < pending@.len() && #[trigger] pending@[i],
{
    let mut i: usize = 0;
    while i < pending.len()
        invariant
            i <= pending@.len(),
            forall|q: int| 0 <= q < i ==> !(#[trigger] pending@[q]),
        decreases pending@.len() - i,
    {
        if pending[i] {
            return true;
        }
        i += 1;
    }
    false
}

/// The indices among the first `k` invocations a pass spawns.
pub open spec fn spawn_spec(declares_outputs: bool, pending: Seq<bool>, k: int) -> Seq<usize>
    decreases k,
{
    if k <= 0 {
        Seq::empty()
    } else if !declares_outputs || pending[k - 1] {
        spawn_spec(declares_outputs, pending, k - 1).push((k - 1) as usize)
    } else {
        spawn_spec(declares_outputs, pending, k - 1)
    }
}

/// Which of a pass's invocations it must spawn, by index: all of them for a
/// state that declares no outputs (nothing of its own could prove its work
/// done), else those still pending.
pub fn invocations_to_spawn(declares_outputs: bool, pending: &Vec<bool>) -> (r: Vec<usize>)
    ensures
        r@ == spawn_spec(declares_outputs, pending@, pending@.len() as int),
{
    let mut out: Vec<usize> = Vec::new();
    let mut i: usize = 0;
    while i < pending.len()
        invariant
            i <= pending@.len(),
            out@ == spawn_spec(declares_outputs, pending@, i as int),
        decreases pending@.len() - i,
    {
        if !declares_outputs || pending[i] {
            out.push(i);
        }
        i += 1;
    }
    out
}


/// Which outputs a program's exit owes before its edge fires: none for an
/// edge back into its own state; after exit 0, the state's required
/// outputs (`collected`, as the run found them missing); after another
/// code, nothing unless a declared exit-code route was taken, whose
/// terminal result (`result_missing`) is then owed.
pub fn program_exit_missing_outputs(
    to: &str,
    state_name: &str,
    exit_code: i32,
    declared_route: bool,
    collected: Vec<String>,
    result_missing: Option<String>,
) -> (r: Vec<String>)
    ensures
        to@ == state_name@ ==> r@.len() == 0,
        to@ != state_name@ && exit_code == 0 ==> r@ == collected@,
        to@ != state_name@ && exit_code != 0 && !declared_route ==> r@.len() == 0,
        to@ != state_name@ && exit_code != 0 && declared_route ==> match result_missing {
            Some(m) => r@ == seq![m],
            None => r@.len() == 0,
        },
{
    if crate::text::str_eq(to, state_name) {
        return Vec::new();
    }
    if exit_code == 0 {
        return collected;
    }
    if !declared_route {
        return Vec::new();
    }
    match result_missing {
        Some(m) => vec![m],
        None => Vec::new(),
    }
}

/// The warning for a worker whose exit left required outputs missing;
/// `worker` is `agent` or `program`, `exit_code` the code it exited with.
pub fn missing_outputs_warning(worker: &str, exit_code: i32, task_id: &str, state_name: &str, missing: &Vec<String>) -> (r: String)
    ensures
        r@ == "  warning: "@ + worker@ + " exited "@ + crate::text::signed_decimal(exit_code as int)
            + " but required outputs are missing for task "@ + task_id@ + " in state '"@ + state_name@ + "': "@
            + crate::text::join(missing@.map_values(|p: String| p@), ", "@),
{
    let mut l = String::from_str("  warning: ");
    crate::text::push_str(&mut l, worker);
    crate::text::push_str(&mut l, " exited ");
    let code = crate::text::i32_to_string(exit_code);
    crate::text::push_str(&mut l, code.as_str());
    crate::text::push_str(&mut l, " but required outputs are missing for task ");
    crate::text::push_str(&mut l, task_id);
    crate::text::push_str(&mut l, " in state '");
    crate::text::push_str(&mut l, state_name);
    crate::text::push_str(&mut l, "': ");
    let joined = crate::text::join_strings(missing, ", ");
    crate::text::push_str(&mut l, joined.as_str());
    l
}

/// The warning for an agent that exited 0 while its ticket stayed put with
/// nothing missing.
pub fn not_advanced_warning(task_id: &str, state_name: &str) -> (r: String)
    ensures
        r@ == "  warning: agent exited 0 but task "@ + task_id@ + " did not advance from '"@ + state_name@ + "'"@,
{
    let mut l = String::from_str("  warning: agent exited 0 but task ");
    crate::text::push_str(&mut l, task_id);
    crate::text::push_str(&mut l, " did not advance from '");
    crate::text::push_str(&mut l, state_name);
    crate::text::push_str(&mut l, "'");
    l
}


/// What a finished program means for its ticket.
#[derive(Debug, PartialEq, Eq)]
pub enum ProgramStep {
    /// The run ended the program: nothing fires, the ticket keeps its state.
    Interrupted,
    /// The program moved the ticket itself.
    Moved,
    /// It timed out: fire the timeout edge, then see whether the ticket moved.
    FireTimeout,
    /// The ticket is no longer in the plan.
    TaskGone,
    /// It exited 0 into another state but owes required outputs: warn, and
    /// leave it.
    MissingOutputs,
    /// Take the exit-code edge to this state (a poll self-loop records its
    /// next attempt instead).
    FireEdge(String),
    /// It exited 0 with no edge to take: warn that it did not advance.
    NotAdvanced,
    /// It failed with no edge to take: report it and stop the run.
    Fail(i32),
    /// It failed with no edge to take under `--continue-on-error`: report it
    /// and go on.
    Skip(i32),
}

/// The step as a value, an edge by its target.
pub enum ProgramStepView {
    Interrupted,
    Moved,
    FireTimeout,
    TaskGone,
    MissingOutputs,
    FireEdge(Seq<char>),
    NotAdvanced,
    Fail(i32),
    Skip(i32),
}

pub open spec fn program_step_view(s: ProgramStep) -> ProgramStepView {
    match s {
        ProgramStep::Interrupted => ProgramStepView::Interrupted,
        ProgramStep::Moved => ProgramStepView::Moved,
        ProgramStep::FireTimeout => ProgramStepView::FireTimeout,
        ProgramStep::TaskGone => ProgramStepView::TaskGone,
        ProgramStep::MissingOutputs => ProgramStepView::MissingOutputs,
        ProgramStep::FireEdge(t) => ProgramStepView::FireEdge(t@),
        ProgramStep::NotAdvanced => ProgramStepView::NotAdvanced,
        ProgramStep::Fail(c) => ProgramStepView::Fail(c),
        ProgramStep::Skip(c) => ProgramStepView::Skip(c),
    }
}

/// The decision, in the order the run makes it: an interrupted program
/// decides nothing; a ticket the program moved has moved; a timeout takes
/// the timeout edge; a ticket gone from the plan is left; then the edge the
/// exit code selects (`edge`) fires, unless an exit 0 into another state
/// still owes required outputs; with no edge, exit 0 did not advance and
/// any other code fails the run (or is skipped under `--continue-on-error`).
pub open spec fn program_step_spec(
    interrupted: bool,
    moved: bool,
    timed_out: bool,
    task_present: bool,
    exit_code: i32,
    edge: Option<Seq<char>>,
    state_name: Seq<char>,
    outputs_missing: bool,
    continue_on_error: bool,
) -> ProgramStepView {
    if interrupted {
        ProgramStepView::Interrupted
    } else if moved {
        ProgramStepView::Moved
    } else if timed_out {
        ProgramStepView::FireTimeout
    } else if !task_present {
        ProgramStepView::TaskGone
    } else {
        match edge {
            Some(to) => if exit_code == 0 && to != state_name && outputs_missing {
                ProgramStepView::MissingOutputs
            } else {
                ProgramStepView::FireEdge(to)
            },
            None => if exit_code == 0 {
                ProgramStepView::NotAdvanced
            } else if continue_on_error {
                ProgramStepView::Skip(exit_code)
            } else {
                ProgramStepView::Fail(exit_code)
            },
        }
    }
}

/// Decide what a finished program means for its ticket. `outputs_missing`
/// is whether required outputs are missing for the edge taken out of an
/// exit 0 (read only in that case).
pub fn program_exit_step(
    interrupted: bool,
    moved: bool,
    timed_out: bool,
    task_present: bool,
    exit_code: i32,
    edge: Option<String>,
    state_name: &str,
    outputs_missing: bool,
    continue_on_error: bool,
) -> (r: ProgramStep)
    ensures
        program_step_view(r) == program_step_spec(
            interrupted,
            moved,
            timed_out,
            task_present,
            exit_code,
            match edge {
                Some(t) => Some(t@),
                None => None,
            },
            state_name@,
            outputs_missing,
            continue_on_error,
        ),
        interrupted ==> r == ProgramStep::Interrupted,
        !interrupted && moved ==> r == ProgramStep::Moved,
        !interrupted && !moved && timed_out ==> r == ProgramStep::FireTimeout,
        !interrupted && !moved && !timed_out && !task_present ==> r == ProgramStep::TaskGone,
        !interrupted && !moved && !timed_out && task_present ==> match edge {
            Some(t) => if exit_code == 0 && t@ != state_name@ && outputs_missing {
                r == ProgramStep::MissingOutputs
            } else {
                r matches ProgramStep::FireEdge(f) && f@ == t@
            },
            None => if exit_code == 0 {
                r == ProgramStep::NotAdvanced
            } else if continue_on_error {
                r == ProgramStep::Skip(exit_code)
            } else {
                r == ProgramStep::Fail(exit_code)
            },
        },
{
    if interrupted {
        ProgramStep::Interrupted
    } else if moved {
        ProgramStep::Moved
    } else if timed_out {
        ProgramStep::FireTimeout
    } else if !task_present {
        ProgramStep::TaskGone
    } else {
        match edge {
            Some(to) => if exit_code == 0 && !crate::text::str_eq(to.as_str(), state_name) && outputs_missing {
                ProgramStep::MissingOutputs
            } else {
                ProgramStep::FireEdge(to)
            },
            None => if exit_code == 0 {
                ProgramStep::NotAdvanced
            } else if continue_on_error {
                ProgramStep::Skip(exit_code)
            } else {
                ProgramStep::Fail(exit_code)
            },
        }
    }
}

/// The error a failed program stops the run with.
pub fn program_failed_error(exit_code: i32, task_id: &str) -> (r: String)
    ensures
        r@ == "program exited with code "@ + crate::text::signed_decimal(exit_code as int) + " for Task "@ + task_id@
            + ". Use --continue-on-error to skip failures."@,
{
    let mut m = String::from_str("program exited with code ");
    let c = crate::text::i32_to_string(exit_code);
    crate::text::push_str(&mut m, c.as_str());
    crate::text::push_str(&mut m, " for Task ");
    crate::text::push_str(&mut m, task_id);
    crate::text::push_str(&mut m, ". Use --continue-on-error to skip failures.");
    m
}

} // verus!
