//! Why one non-terminal ticket is not moving: the one classification every
//! `rhei run` surface uses (the halt message, the dry run, the report's
//! Attention table), and the reason and next action it renders, naming a
//! concrete command wherever one exists.
use vstd::prelude::*;
use crate::text::{join, join_strings, push_str, str_eq};

verus! {

pub open spec fn string_views(v: Seq<String>) -> Seq<Seq<char>> {
    Seq::new(v.len(), |i: int| v[i]@)
}

/// Why one non-terminal ticket is not moving.
#[derive(Debug, PartialEq)]
pub enum HaltCause {
    /// A non-leaf ticket whose own subtree is still open.
    WaitingOnDescendants { open: String },
    /// A gating state waiting for a human decision.
    Gate,
    /// A gating state still holding a subtree it supervised.
    GateHoldingSubtree { open: String },
    /// A supervising ancestor holds the subtree.
    HeldBySupervisor { supervisor: String, state: String, awaiting_human: bool },
    /// A supervisor whose subtree is closed and whose machine has no edge out
    /// of the supervising state on `openDescendants`.
    SupervisorHasNoTerminalEdge { suggested_final: String },
    /// A released supervisor nothing beneath can wake.
    SupervisorStrandedBySelfLoop { open: String },
    /// A live `**Assignee:**`.
    Claimed { assignee: String },
    /// An unsatisfied `**Prior:**`, formatted as `Task <id> (<state>)`.
    BlockedByPrior { prior: String },
    /// A manual-only initial state.
    ManualOnly { to: String },
    /// No declared outgoing transition.
    NoTransition,
    /// The run was interrupted while this ticket's worker was in flight.
    Interrupted,
    /// A worker exited 0 and left required artifacts unwritten.
    MissingOutputs { entries: Vec<String>, plan: String },
    /// A required input of the current state is not on disk.
    MissingInputs { entries: Vec<String> },
    /// The run never scheduled this ticket.
    NotScheduled,
    /// None of the above.
    Stalled,
}

/// The reason and the next action for a halted ticket `id` in `state`.
pub open spec fn describe_spec(c: HaltCause, id: Seq<char>, state: Seq<char>) -> (Seq<char>, Seq<char>) {
    match c {
        HaltCause::WaitingOnDescendants { open } => (
            "waiting on open descendant "@ + open@,
            "finish the descendants; the parent is claimable once its subtree is terminal"@,
        ),
        HaltCause::Gate => ("gating state awaiting review"@, "transition manually when reviewed"@),
        HaltCause::GateHoldingSubtree { open } => (
            "left supervision for human gate '"@ + state
                + "'; its subtree stays held until a human moves it (open: "@ + open@ + ")"@,
            "move Task "@ + id
                + " back into its supervising state to resume supervision, or anywhere else to release the subtree"@,
        ),
        HaltCause::HeldBySupervisor { supervisor, state: s, awaiting_human } => (
            "held by supervisor Task "@ + supervisor@ + " ("@ + s@ + ")"@,
            if awaiting_human {
                "Task "@ + supervisor@ + " is at a human gate and still holds this subtree; move it on to release Task "@
                    + id
            } else {
                "the supervisor releases it on its next visit; nothing to do on Task "@ + id
            },
        ),
        HaltCause::SupervisorHasNoTerminalEdge { suggested_final } => (
            "no transition out of '"@ + state
                + "' is eligible on `openDescendants`; its subtree is closed and nothing can finish it"@,
            "add `- {from: "@ + state + ", to: "@ + suggested_final@
                + ", condition: openDescendants < 1}` to the machine's transitions"@,
        ),
        HaltCause::SupervisorStrandedBySelfLoop { open } => (
            "released its subtree on a visit that changed nothing, and nothing beneath it can move: "@
                + open@,
            "a released supervisor is woken only by a descendant that moves: unblock one of the tickets above and rerun, or `rhei reset` to start Task "@
                + id + " over"@,
        ),
        HaltCause::Claimed { assignee } => (
            "claimed by "@ + assignee@,
            "`rhei release "@ + id + "` to hand it back, or `rhei complete "@ + id
                + " --result \u{2026}` to finish it"@,
        ),
        HaltCause::BlockedByPrior { prior } => ("waiting on "@ + prior@, "finish the prior first"@),
        HaltCause::ManualOnly { to } => (
            "manual-only initial state '"@ + state + "' with terminal transition to '"@ + to@ + "'"@,
            "`rhei next` to claim, do the work, then `rhei complete "@ + id + " --result \u{2026}`"@,
        ),
        HaltCause::NoTransition => (
            "no forward transition available from '"@ + state + "'"@,
            "declare a transition out of this state, or cancel the ticket"@,
        ),
        HaltCause::Interrupted => (
            "run interrupted while its worker was in state "@ + state,
            "re-run to continue"@,
        ),
        HaltCause::MissingOutputs { entries, plan } => (
            "worker exited 0 without "@ + join(string_views(entries@), ", "@),
            "write the file(s) above and rerun, or record the outcome with `rhei transition"@
                + (if plan@.len() == 0 {
                Seq::empty()
            } else {
                " "@ + plan@
            }) + " --task "@ + id + " --from "@ + state + " --to <state> --result \u{2026}`"@,
        ),
        HaltCause::MissingInputs { entries } => (
            "required input(s) not found: "@ + join(string_views(entries@), ", "@),
            "write the file(s) at the path(s) above \u{2014} that is where this state looks for them \u{2014} then rerun, or mark the input `optional: true` in the state machine"@,
        ),
        HaltCause::NotScheduled => (
            "not scheduled before the run halted, still in '"@ + state + "'"@,
            "rerun to pick it up; if it never starts, claim it with `rhei next` or check the agent or program configured for '"@
                + state + "'"@,
        ),
        HaltCause::Stalled => (
            if state.len() == 0 {
                "no forward transition available"@
            } else {
                "stalled in non-terminal state "@ + state
            },
            "inspect logs or mark the task cancelled"@,
        ),
    }
}

fn cat(parts: &Vec<&str>) -> (r: String)
    ensures
        r@ == cat_spec(parts@, parts@.len() as int),
{
    let mut out = String::new();
    let mut i: usize = 0;
    while i < parts.len()
        invariant
            i <= parts@.len(),
            out@ == cat_spec(parts@, i as int),
        decreases parts@.len() - i,
    {
        push_str(&mut out, parts[i]);
        i += 1;
    }
    out
}

/// The first `k` parts, concatenated.
pub open spec fn cat_spec(parts: Seq<&str>, k: int) -> Seq<char>
    decreases k,
{
    if k <= 0 {
        Seq::empty()
    } else {
        cat_spec(parts, k - 1) + parts[k - 1]@
    }
}

impl HaltCause {
    /// The reason and the next action, for the report table and the halt
    /// diagnostics.
    pub fn describe(&self, id: &str, state: &str) -> (r: (String, String))
        ensures
            (r.0@, r.1@) == describe_spec(*self, id@, state@),
    {
        let (reason, next) = match self {
            HaltCause::WaitingOnDescendants { open } => (
                cat(&vec!["waiting on open descendant ", open.as_str()]),
                String::from_str(
                    "finish the descendants; the parent is claimable once its subtree is terminal",
                ),
            ),
            HaltCause::Gate => (
                String::from_str("gating state awaiting review"),
                String::from_str("transition manually when reviewed"),
            ),
            HaltCause::GateHoldingSubtree { open } => (
                cat(
                    &vec![
                        "left supervision for human gate '",
                        state,
                        "'; its subtree stays held until a human moves it (open: ",
                        open.as_str(),
                        ")",
                    ],
                ),
                cat(
                    &vec![
                        "move Task ",
                        id,
                        " back into its supervising state to resume supervision, or anywhere else to release the subtree",
                    ],
                ),
            ),
            HaltCause::HeldBySupervisor { supervisor, state: s, awaiting_human } => (
                cat(&vec!["held by supervisor Task ", supervisor.as_str(), " (", s.as_str(), ")"]),
                if *awaiting_human {
                    cat(
                        &vec![
                            "Task ",
                            supervisor.as_str(),
                            " is at a human gate and still holds this subtree; move it on to release Task ",
                            id,
                        ],
                    )
                } else {
                    cat(&vec!["the supervisor releases it on its next visit; nothing to do on Task ", id])
                },
            ),
            HaltCause::SupervisorHasNoTerminalEdge { suggested_final } => (
                cat(
                    &vec![
                        "no transition out of '",
                        state,
                        "' is eligible on `openDescendants`; its subtree is closed and nothing can finish it",
                    ],
                ),
                cat(
                    &vec![
                        "add `- {from: ",
                        state,
                        ", to: ",
                        suggested_final.as_str(),
                        ", condition: openDescendants < 1}` to the machine's transitions",
                    ],
                ),
            ),
            HaltCause::SupervisorStrandedBySelfLoop { open } => (
                cat(
                    &vec![
                        "released its subtree on a visit that changed nothing, and nothing beneath it can move: ",
                        open.as_str(),
                    ],
                ),
                cat(
                    &vec![
                        "a released supervisor is woken only by a descendant that moves: unblock one of the tickets above and rerun, or `rhei reset` to start Task ",
                        id,
                        " over",
                    ],
                ),
            ),
            HaltCause::Claimed { assignee } => (
                cat(&vec!["claimed by ", assignee.as_str()]),
                cat(
                    &vec![
                        "`rhei release ",
                        id,
                        "` to hand it back, or `rhei complete ",
                        id,
                        " --result \u{2026}` to finish it",
                    ],
                ),
            ),
            HaltCause::BlockedByPrior { prior } => (
                cat(&vec!["waiting on ", prior.as_str()]),
                String::from_str("finish the prior first"),
            ),
            HaltCause::ManualOnly { to } => (
                cat(
                    &vec![
                        "manual-only initial state '",
                        state,
                        "' with terminal transition to '",
                        to.as_str(),
                        "'",
                    ],
                ),
                cat(&vec!["`rhei next` to claim, do the work, then `rhei complete ", id, " --result \u{2026}`"]),
            ),
            HaltCause::NoTransition => (
                cat(&vec!["no forward transition available from '", state, "'"]),
                String::from_str("declare a transition out of this state, or cancel the ticket"),
            ),
            HaltCause::Interrupted => (
                cat(&vec!["run interrupted while its worker was in state ", state]),
                String::from_str("re-run to continue"),
            ),
            HaltCause::MissingOutputs { entries, plan } => {
                let joined = join_strings(entries, ", ");
                proof {
                    assert(entries@.map_values(|p: String| p@) =~= string_views(entries@));
                }
                let plan_part = if crate::text::char_len(plan.as_str()) == 0 {
                    String::new()
                } else {
                    cat(&vec![" ", plan.as_str()])
                };
                (
                    cat(&vec!["worker exited 0 without ", joined.as_str()]),
                    cat(
                        &vec![
                            "write the file(s) above and rerun, or record the outcome with `rhei transition",
                            plan_part.as_str(),
                            " --task ",
                            id,
                            " --from ",
                            state,
                            " --to <state> --result \u{2026}`",
                        ],
                    ),
                )
            },
            HaltCause::MissingInputs { entries } => {
                let joined = join_strings(entries, ", ");
                proof {
                    assert(entries@.map_values(|p: String| p@) =~= string_views(entries@));
                }
                (
                    cat(&vec!["required input(s) not found: ", joined.as_str()]),
                    String::from_str(
                        "write the file(s) at the path(s) above \u{2014} that is where this state looks for them \u{2014} then rerun, or mark the input `optional: true` in the state machine",
                    ),
                )
            },
            HaltCause::NotScheduled => (
                cat(&vec!["not scheduled before the run halted, still in '", state, "'"]),
                cat(
                    &vec![
                        "rerun to pick it up; if it never starts, claim it with `rhei next` or check the agent or program configured for '",
                        state,
                        "'",
                    ],
                ),
            ),
            HaltCause::Stalled => (
                if crate::text::char_len(state) == 0 {
                    String::from_str("no forward transition available")
                } else {
                    cat(&vec!["stalled in non-terminal state ", state])
                },
                String::from_str("inspect logs or mark the task cancelled"),
            ),
        };
        proof {
            reveal_with_fuel(cat_spec, 8);
            assert((reason@, next@) =~= describe_spec(*self, id@, state@));
        }
        (reason, next)
    }
}

/// `Task <id> (<state>): <reason> — <next action>`, one halted ticket's line.
pub open spec fn halt_line_spec(c: HaltCause, id: Seq<char>, state: Seq<char>) -> Seq<char> {
    "Task "@ + id + " ("@ + state + "): "@ + describe_spec(c, id, state).0 + " \u{2014} "@ + describe_spec(
        c,
        id,
        state,
    ).1
}

/// The line the halt diagnostics print for one halted ticket.
pub fn halt_line(cause: &HaltCause, id: &str, state: &str) -> (r: String)
    ensures
        r@ == halt_line_spec(*cause, id@, state@),
{
    let (reason, next) = cause.describe(id, state);
    let r = cat(&vec!["Task ", id, " (", state, "): ", reason.as_str(), " \u{2014} ", next.as_str()]);
    proof {
        reveal_with_fuel(cat_spec, 9);
    }
    r
}

// ---------------------------------------------------------------------------
// Classification
// ---------------------------------------------------------------------------

/// What the plan, the machine and the run know about one non-terminal
/// ticket: everything the classification reads.
#[derive(Debug, PartialEq)]
pub struct HaltFacts {
    /// The supervising ancestor holding it: its id, its state, and whether it
    /// is parked at a human gate.
    pub held_by: Option<(String, String, bool)>,
    /// Its open descendants, formatted; empty when there are none.
    pub open: String,
    pub has_open_descendants: bool,
    /// Its state is a gating state.
    pub gating: bool,
    /// Its recorded supervision phase is `held`.
    pub supervision_held: bool,
    /// It is in a supervising state.
    pub supervising: bool,
    /// The machine gives its state an `openDescendants` edge to a terminal.
    pub can_finish: bool,
    /// The terminal a missing `openDescendants` edge should aim at.
    pub suggested_final: String,
    /// For a released supervisor nothing beneath can move: the stuck
    /// descendants, formatted.
    pub stranded: Option<String>,
    pub assignee: Option<String>,
    /// The first unsatisfied prior, formatted.
    pub blocking_prior: Option<String>,
    /// For a manual-only initial state: the terminal it transitions to.
    pub manual_to: Option<String>,
    /// The run's shutdown ended its last worker.
    pub interrupted: bool,
    /// The run spawned work for it.
    pub worked: bool,
    /// What its last exit-0 worker left unwritten.
    pub missing: Option<Vec<String>>,
    /// The plan argument for suggested commands.
    pub plan_arg: String,
    /// Readiness stops before reading inputs (a poll deadline ahead, a
    /// supervisor draining).
    pub stops_before_inputs: bool,
    /// The required inputs of its state not found on disk.
    pub missing_inputs: Vec<String>,
    /// It has a next transition to take (`None` when none is declared).
    pub next_transition_declared: bool,
}

/// The classification, in priority order: a holding supervisor, a gate
/// holding its subtree, open descendants, a supervisor with no way out, a
/// stranded supervisor, a gate, a claim, a prior, a manual-only start, an
/// interruption, missing outputs of work done (else a stall), missing
/// inputs where readiness stopped at them, and otherwise no transition or
/// not scheduled.
pub open spec fn classify_spec(f: HaltFacts) -> HaltKind {
    if f.held_by is Some {
        HaltKind::HeldBySupervisor
    } else if f.has_open_descendants && f.gating && f.supervision_held {
        HaltKind::GateHoldingSubtree
    } else if f.has_open_descendants && !f.supervising {
        HaltKind::WaitingOnDescendants
    } else if f.supervising && !f.has_open_descendants && !f.can_finish {
        HaltKind::SupervisorHasNoTerminalEdge
    } else if f.supervising && f.stranded is Some {
        HaltKind::SupervisorStrandedBySelfLoop
    } else if f.gating {
        HaltKind::Gate
    } else if f.assignee is Some {
        HaltKind::Claimed
    } else if f.blocking_prior is Some {
        HaltKind::BlockedByPrior
    } else if f.manual_to is Some {
        HaltKind::ManualOnly
    } else if f.interrupted {
        HaltKind::Interrupted
    } else if f.worked {
        if f.missing matches Some(e) && e@.len() > 0 {
            HaltKind::MissingOutputs
        } else {
            HaltKind::Stalled
        }
    } else if !f.stops_before_inputs && f.missing_inputs@.len() > 0 {
        HaltKind::MissingInputs
    } else if !f.next_transition_declared {
        HaltKind::NoTransition
    } else {
        HaltKind::NotScheduled
    }
}

/// The variant of a [`HaltCause`].
pub enum HaltKind {
    WaitingOnDescendants,
    Gate,
    GateHoldingSubtree,
    HeldBySupervisor,
    SupervisorHasNoTerminalEdge,
    SupervisorStrandedBySelfLoop,
    Claimed,
    BlockedByPrior,
    ManualOnly,
    NoTransition,
    Interrupted,
    MissingOutputs,
    MissingInputs,
    NotScheduled,
    Stalled,
}

pub open spec fn kind_of(c: HaltCause) -> HaltKind {
    match c {
        HaltCause::WaitingOnDescendants { .. } => HaltKind::WaitingOnDescendants,
        HaltCause::Gate => HaltKind::Gate,
        HaltCause::GateHoldingSubtree { .. } => HaltKind::GateHoldingSubtree,
        HaltCause::HeldBySupervisor { .. } => HaltKind::HeldBySupervisor,
        HaltCause::SupervisorHasNoTerminalEdge { .. } => HaltKind::SupervisorHasNoTerminalEdge,
        HaltCause::SupervisorStrandedBySelfLoop { .. } => HaltKind::SupervisorStrandedBySelfLoop,
        HaltCause::Claimed { .. } => HaltKind::Claimed,
        HaltCause::BlockedByPrior { .. } => HaltKind::BlockedByPrior,
        HaltCause::ManualOnly { .. } => HaltKind::ManualOnly,
        HaltCause::NoTransition => HaltKind::NoTransition,
        HaltCause::Interrupted => HaltKind::Interrupted,
        HaltCause::MissingOutputs { .. } => HaltKind::MissingOutputs,
        HaltCause::MissingInputs { .. } => HaltKind::MissingInputs,
        HaltCause::NotScheduled => HaltKind::NotScheduled,
        HaltCause::Stalled => HaltKind::Stalled,
    }
}

/// The cause carries the facts it names.
pub open spec fn carries_facts(c: HaltCause, f: HaltFacts) -> bool {
    match c {
        HaltCause::WaitingOnDescendants { open } => open@ == f.open@,
        HaltCause::GateHoldingSubtree { open } => open@ == f.open@,
        HaltCause::HeldBySupervisor { supervisor, state, awaiting_human } => f.held_by matches Some(
            h,
        ) && supervisor@ == h.0@ && state@ == h.1@ && awaiting_human == h.2,
        HaltCause::SupervisorHasNoTerminalEdge { suggested_final } => suggested_final@ == f.suggested_final@,
        HaltCause::SupervisorStrandedBySelfLoop { open } => f.stranded matches Some(s) && open@ == s@,
        HaltCause::Claimed { assignee } => f.assignee matches Some(a) && assignee@ == a@,
        HaltCause::BlockedByPrior { prior } => f.blocking_prior matches Some(p) && prior@ == p@,
        HaltCause::ManualOnly { to } => f.manual_to matches Some(t) && to@ == t@,
        HaltCause::MissingOutputs { entries, plan } => f.missing matches Some(e) && string_views(entries@)
            == string_views(e@) && plan@ == f.plan_arg@,
        HaltCause::MissingInputs { entries } => string_views(entries@) == string_views(f.missing_inputs@),
        _ => true,
    }
}

fn copy_strings(v: &Vec<String>) -> (r: Vec<String>)
    ensures
        string_views(r@) == string_views(v@),
{
    let mut out: Vec<String> = Vec::new();
    let mut i: usize = 0;
    while i < v.len()
        invariant
            i <= v@.len(),
            string_views(out@) == string_views(v@).take(i as int),
        decreases v@.len() - i,
    {
        let c = String::from_str(v[i].as_str());
        let ghost before = out@;
        out.push(c);
        assert(string_views(out@) =~= string_views(before).push(c@));
        assert(string_views(v@).take(i + 1) =~= string_views(v@).take(i as int).push(c@));
        i += 1;
    }
    assert(string_views(v@).take(v@.len() as int) =~= string_views(v@));
    out
}

fn copy(s: &String) -> (r: String)
    ensures
        r@ == s@,
{
    String::from_str(s.as_str())
}

/// Classify why a non-terminal ticket did not advance.
pub fn classify_halt(f: &HaltFacts) -> (r: HaltCause)
    ensures
        kind_of(r) == classify_spec(*f),
        carries_facts(r, *f),
{
    if let Some((supervisor, state, awaiting)) = &f.held_by {
        return HaltCause::HeldBySupervisor {
            supervisor: copy(supervisor),
            state: copy(state),
            awaiting_human: *awaiting,
        };
    }
    if f.has_open_descendants && f.gating && f.supervision_held {
        return HaltCause::GateHoldingSubtree { open: copy(&f.open) };
    }
    if f.has_open_descendants && !f.supervising {
        return HaltCause::WaitingOnDescendants { open: copy(&f.open) };
    }
    if f.supervising && !f.has_open_descendants && !f.can_finish {
        return HaltCause::SupervisorHasNoTerminalEdge { suggested_final: copy(&f.suggested_final) };
    }
    if f.supervising {
        if let Some(open) = &f.stranded {
            return HaltCause::SupervisorStrandedBySelfLoop { open: copy(open) };
        }
    }
    if f.gating {
        return HaltCause::Gate;
    }
    if let Some(a) = &f.assignee {
        return HaltCause::Claimed { assignee: copy(a) };
    }
    if let Some(p) = &f.blocking_prior {
        return HaltCause::BlockedByPrior { prior: copy(p) };
    }
    if let Some(t) = &f.manual_to {
        return HaltCause::ManualOnly { to: copy(t) };
    }
    if f.interrupted {
        return HaltCause::Interrupted;
    }
    if f.worked {
        return match &f.missing {
            Some(entries) => if entries.len() > 0 {
                HaltCause::MissingOutputs { entries: copy_strings(entries), plan: copy(&f.plan_arg) }
            } else {
                HaltCause::Stalled
            },
            None => HaltCause::Stalled,
        };
    }
    if !f.stops_before_inputs && f.missing_inputs.len() > 0 {
        return HaltCause::MissingInputs { entries: copy_strings(&f.missing_inputs) };
    }
    if !f.next_transition_declared {
        HaltCause::NoTransition
    } else {
        HaltCause::NotScheduled
    }
}


/// One halted ticket's line: the classification of its facts, rendered for
/// its id and state.
pub open spec fn halted_line_ok(line: Seq<char>, h: (String, String, HaltFacts)) -> bool {
    exists|c: HaltCause| kind_of(c) == classify_spec(h.2) && carries_facts(c, h.2) && line == halt_line_spec(c, h.0@, h.1@)
}

/// One `Task <id> (<state>): <reason> - <next action>` line per halted
/// ticket (each non-terminal ticket in scope, in plan order, with its
/// normalized state and what the classification needs of it), and whether
/// the plan needs a human: the same verdict the live run reaches, that the
/// remaining work is not all waiting on purpose.
pub fn halted_task_report(halted: &Vec<(String, String, HaltFacts)>, ts: &Vec<crate::ready::TaskFacts>, now: u64) -> (r: (
    Vec<String>,
    bool,
))
    ensures
        r.0@.len() == halted@.len(),
        forall|i: int| 0 <= i < halted@.len() ==> halted_line_ok((#[trigger] r.0@[i])@, halted@[i]),
        !r.1 ==> forall|i: int|
            0 <= i < ts@.len() && (#[trigger] ts@[i]).in_scope && !ts@[i].terminal ==> crate::ready::any_open(ts@, i)
                || crate::waiting::waits_itself(ts@[i], now) || crate::waiting::has_unsatisfied_prior(ts@, i),
        r.1 ==> exists|i: int, k: int|
            0 <= i < ts@.len() && (#[trigger] ts@[i]).in_scope && !ts@[i].terminal && (k == i || (
            crate::ready::descendant(ts@, i, k) && !ts@[k].terminal)) && !crate::ready::any_open(ts@, k)
                && !crate::waiting::waits_itself(#[trigger] ts@[k], now),
{
    let mut lines: Vec<String> = Vec::new();
    let mut i: usize = 0;
    while i < halted.len()
        invariant
            i <= halted@.len(),
            lines@.len() == i,
            forall|k: int| 0 <= k < i ==> halted_line_ok((#[trigger] lines@[k])@, halted@[k]),
        decreases halted@.len() - i,
    {
        let h = &halted[i];
        let cause = classify_halt(&h.2);
        let line = halt_line(&cause, h.0.as_str(), h.1.as_str());
        lines.push(line);
        proof {
            assert(halted_line_ok(lines@[i as int]@, halted@[i as int]));
        }
        i += 1;
    }
    let needs_human = !crate::waiting::remaining_work_is_only_gating_or_poll_blocked(ts, now);
    (lines, needs_human)
}

} // verus!
