//! The decisions of one pass of `rhei run`, each from what the pass has
//! seen to what it does next: where a ready ticket goes (a gate, a program,
//! agents, or a callback-only advance), which entries in non-concurrent
//! states wait for a later pass, what an empty ready set means, and whether
//! the run goes on after a pass. The run reads the plan, spawns the workers
//! and fires the transitions.
use vstd::prelude::*;
use crate::order::{sorted_distinct, strictly_ascending, texts};
use crate::text::str_eq;

verus! {

// ---------------------------------------------------------------------------
// Routing a ready ticket
// ---------------------------------------------------------------------------

/// Where a ready ticket goes this pass.
#[derive(Debug, Clone, Copy, PartialEq, Eq, Structural)]
pub enum TaskRoute {
    /// It already stalled this pass: left for the next one.
    Stalled,
    /// Its state is a gate: it waits for a person.
    Gate,
    /// Advanced by its next transition, with no worker.
    CallbackOnly,
    /// Its state's program runs.
    Program,
    /// Its state declares a program that does not resolve: nothing is done.
    ProgramUnresolved,
    /// No agent is configured for it: the run stops and says where to set one.
    NoAgent,
    /// Its pending agent invocations run.
    Agents,
}

/// The routing rule: a stalled ticket sits the pass out; a gate waits; a
/// state with a program runs it (or, under `--no-program`, advances without
/// it); otherwise the state's agent invocations run, advancing without a
/// worker when none is configured under `--no-agent`, or when every
/// invocation has already finished.
pub open spec fn route_spec(
    stalled: bool,
    gating: bool,
    has_program: bool,
    no_program: bool,
    program_resolves: bool,
    has_invocations: bool,
    no_agent: bool,
    has_pending: bool,
) -> TaskRoute {
    if stalled {
        TaskRoute::Stalled
    } else if gating {
        TaskRoute::Gate
    } else if has_program {
        if no_program {
            TaskRoute::CallbackOnly
        } else if program_resolves {
            TaskRoute::Program
        } else {
            TaskRoute::ProgramUnresolved
        }
    } else if !has_invocations {
        if no_agent {
            TaskRoute::CallbackOnly
        } else {
            TaskRoute::NoAgent
        }
    } else if !has_pending {
        TaskRoute::CallbackOnly
    } else {
        TaskRoute::Agents
    }
}

/// Route a ready ticket. `program_resolves` is read only for a state with a
/// program, `has_pending` only for one whose agents resolve.
pub fn route_ready_task(
    stalled: bool,
    gating: bool,
    has_program: bool,
    no_program: bool,
    program_resolves: bool,
    has_invocations: bool,
    no_agent: bool,
    has_pending: bool,
) -> (r: TaskRoute)
    ensures
        r == route_spec(
            stalled,
            gating,
            has_program,
            no_program,
            program_resolves,
            has_invocations,
            no_agent,
            has_pending,
        ),
        stalled ==> r == TaskRoute::Stalled,
        !stalled && gating ==> r == TaskRoute::Gate,
        !stalled && !gating && has_program && no_program ==> r == TaskRoute::CallbackOnly,
        !stalled && !gating && has_program && !no_program && program_resolves ==> r == TaskRoute::Program,
        !stalled && !gating && has_program && !no_program && !program_resolves ==> r == TaskRoute::ProgramUnresolved,
        !stalled && !gating && !has_program && !has_invocations && no_agent ==> r == TaskRoute::CallbackOnly,
        !stalled && !gating && !has_program && !has_invocations && !no_agent ==> r == TaskRoute::NoAgent,
        !stalled && !gating && !has_program && has_invocations && !has_pending ==> r == TaskRoute::CallbackOnly,
        !stalled && !gating && !has_program && has_invocations && has_pending ==> r == TaskRoute::Agents,
        r == TaskRoute::Program ==> has_program && !no_program && program_resolves,
        r == TaskRoute::Agents ==> !has_program && has_invocations && has_pending,
{
    if stalled {
        TaskRoute::Stalled
    } else if gating {
        TaskRoute::Gate
    } else if has_program {
        if no_program {
            TaskRoute::CallbackOnly
        } else if program_resolves {
            TaskRoute::Program
        } else {
            TaskRoute::ProgramUnresolved
        }
    } else if !has_invocations {
        if no_agent {
            TaskRoute::CallbackOnly
        } else {
            TaskRoute::NoAgent
        }
    } else if !has_pending {
        TaskRoute::CallbackOnly
    } else {
        TaskRoute::Agents
    }
}

/// A state with a program that resolves runs it unless `--no-program` is
/// given: `--no-agent`, and what the agents would do, do not bear on it.
pub proof fn lemma_program_state_runs_its_program(
    no_agent: bool,
    has_invocations: bool,
    has_pending: bool,
)
    ensures
        route_spec(false, false, true, false, true, has_invocations, no_agent, has_pending) == TaskRoute::Program,
        route_spec(false, false, true, true, true, has_invocations, no_agent, has_pending) == TaskRoute::CallbackOnly,
{
}

// ---------------------------------------------------------------------------
// One ticket at a time in a non-concurrent state
// ---------------------------------------------------------------------------

/// One unit of work a pass would start: its ticket, the state it is worked
/// in, whether that state is concurrent, and whether it is passed over
/// outright (a ticket whose prompt could not be composed).
#[derive(Debug, PartialEq)]
pub struct WorkEntry {
    pub task: String,
    pub state: String,
    pub concurrent: bool,
    pub skip: bool,
}

/// The ticket that claimed the non-concurrent state `s` among the first `k`
/// entries: the first one worked in it.
pub open spec fn claimant(es: Seq<WorkEntry>, s: Seq<char>, k: int) -> Option<Seq<char>>
    decreases k,
{
    if k <= 0 {
        None
    } else {
        match claimant(es, s, k - 1) {
            Some(c) => Some(c),
            None => {
                let e = es[k - 1];
                if !e.skip && !e.concurrent && e.state@ == s {
                    Some(e.task@)
                } else {
                    None
                }
            },
        }
    }
}

/// Entry `k` is worked this pass: it is not passed over, and its state is
/// concurrent, unclaimed so far, or claimed by its own ticket (the fan-out of
/// one ticket stays together).
pub open spec fn kept_spec(es: Seq<WorkEntry>, k: int) -> bool {
    let e = es[k];
    &&& !e.skip
    &&& (e.concurrent || match claimant(es, e.state@, k) {
        Some(c) => c == e.task@,
        None => true,
    })
}

/// Entry `k` waits for a later pass: another ticket claimed its state.
pub open spec fn deferred_spec(es: Seq<WorkEntry>, k: int) -> bool {
    !es[k].skip && !kept_spec(es, k)
}

/// The state claims made so far, as parallel lists; the first claim of a
/// state is its claimant.
pub open spec fn first_claim(states: Seq<String>, tasks: Seq<String>, s: Seq<char>, n: int) -> Option<Seq<char>>
    decreases n,
{
    if n <= 0 {
        None
    } else {
        match first_claim(states, tasks, s, n - 1) {
            Some(c) => Some(c),
            None => if states[n - 1]@ == s {
                Some(tasks[n - 1]@)
            } else {
                None
            },
        }
    }
}

proof fn lemma_first_claim_stays(states: Seq<String>, tasks: Seq<String>, s: Seq<char>, k: int, n: int)
    requires
        0 <= k <= n,
        first_claim(states, tasks, s, k) is Some,
    ensures
        first_claim(states, tasks, s, n) == first_claim(states, tasks, s, k),
    decreases n - k,
{
    if n > k {
        lemma_first_claim_stays(states, tasks, s, k, n - 1);
    }
}

fn find_claim(states: &Vec<String>, tasks: &Vec<String>, s: &str) -> (r: Option<usize>)
    requires
        states@.len() == tasks@.len(),
    ensures
        match r {
            Some(q) => q < tasks@.len() && first_claim(states@, tasks@, s@, states@.len() as int) == Some(
                tasks@[q as int]@,
            ),
            None => first_claim(states@, tasks@, s@, states@.len() as int) is None,
        },
{
    let mut q: usize = 0;
    while q < states.len()
        invariant
            states@.len() == tasks@.len(),
            q <= states@.len(),
            first_claim(states@, tasks@, s@, q as int) is None,
        decreases states@.len() - q,
    {
        if str_eq(states[q].as_str(), s) {
            proof {
                lemma_first_claim_stays(states@, tasks@, s@, q + 1, states@.len() as int);
            }
            return Some(q);
        }
        q += 1;
    }
    None
}

/// Which entries a pass works, and the tickets it defers.
#[derive(Debug, PartialEq)]
pub struct Deferral {
    /// For each entry, whether it is worked this pass.
    pub kept: Vec<bool>,
    /// The deferred tickets, each once, in sorted order.
    pub deferred: Vec<String>,
}

/// Hold each non-concurrent state to one ticket per pass: the first ticket
/// worked in it keeps it, every entry of that ticket stays, and the other
/// tickets in that state are deferred.
pub fn defer_non_concurrent(es: &Vec<WorkEntry>) -> (r: Deferral)
    ensures
        r.kept@.len() == es@.len(),
        forall|k: int| 0 <= k < es@.len() ==> r.kept@[k] == kept_spec(es@, k),
        strictly_ascending(texts(r.deferred@)),
        forall|t: Seq<char>|
            texts(r.deferred@).contains(t) <==> exists|k: int|
                0 <= k < es@.len() && deferred_spec(es@, k) && (#[trigger] es@[k]).task@ == t,
{
    let mut states: Vec<String> = Vec::new();
    let mut tasks: Vec<String> = Vec::new();
    let mut kept: Vec<bool> = Vec::new();
    let mut ids: Vec<String> = Vec::new();
    let mut k: usize = 0;
    while k < es.len()
        invariant
            k <= es@.len(),
            states@.len() == tasks@.len(),
            kept@.len() == k,
            forall|j: int| 0 <= j < k ==> kept@[j] == kept_spec(es@, j),
            forall|s: Seq<char>| #[trigger] claimant(es@, s, k as int) == first_claim(states@, tasks@, s, states@.len() as int),
            forall|t: Seq<char>|
                texts(ids@).contains(t) <==> exists|j: int|
                    0 <= j < k && deferred_spec(es@, j) && (#[trigger] es@[j]).task@ == t,
        decreases es@.len() - k,
    {
        let e = &es[k];
        let ghost ids0 = ids@;
        let ghost st0 = states@;
        let ghost tk0 = tasks@;
        let keep: bool;
        if e.skip {
            keep = false;
        } else if e.concurrent {
            keep = true;
        } else {
            match find_claim(&states, &tasks, e.state.as_str()) {
                Some(q) => {
                    keep = str_eq(tasks[q].as_str(), e.task.as_str());
                },
                None => {
                    states.push(String::from_str(e.state.as_str()));
                    tasks.push(String::from_str(e.task.as_str()));
                    keep = true;
                },
            }
        }
        proof {
            assert(claimant(es@, e.state@, k as int) == first_claim(st0, tk0, e.state@, st0.len() as int));
            assert(keep == kept_spec(es@, k as int));
            assert forall|s: Seq<char>| #[trigger] claimant(es@, s, k + 1) == first_claim(
                states@,
                tasks@,
                s,
                states@.len() as int,
            ) by {
                assert(claimant(es@, s, k as int) == first_claim(st0, tk0, s, st0.len() as int));
                if states@.len() > st0.len() {
                    assert(states@.drop_last() =~= st0);
                    assert(tasks@.drop_last() =~= tk0);
                    assert(first_claim(states@, tasks@, s, st0.len() as int) == first_claim(
                        st0,
                        tk0,
                        s,
                        st0.len() as int,
                    )) by {
                        lemma_first_claim_prefix(states@, st0, tasks@, tk0, s, st0.len() as int);
                    }
                }
            }
        }
        kept.push(keep);
        if !e.skip && !keep {
            ids.push(String::from_str(e.task.as_str()));
        }
        proof {
            assert forall|t: Seq<char>|
                texts(ids@).contains(t) <==> exists|j: int|
                    0 <= j < k + 1 && deferred_spec(es@, j) && (#[trigger] es@[j]).task@ == t by {
                if texts(ids@).contains(t) {
                    let x = choose|x: int| 0 <= x < texts(ids@).len() && texts(ids@)[x] == t;
                    if x < ids0.len() {
                        assert(texts(ids0)[x] == t);
                        assert(texts(ids0).contains(t));
                    } else {
                        assert(deferred_spec(es@, k as int));
                    }
                }
                if exists|j: int| 0 <= j < k + 1 && deferred_spec(es@, j) && (#[trigger] es@[j]).task@ == t {
                    let j = choose|j: int| 0 <= j < k + 1 && deferred_spec(es@, j) && (#[trigger] es@[j]).task@ == t;
                    if j < k {
                        assert(texts(ids0).contains(t));
                        let x = choose|x: int| 0 <= x < texts(ids0).len() && texts(ids0)[x] == t;
                        assert(texts(ids@)[x] == t);
                    } else {
                        assert(texts(ids@)[ids@.len() - 1] == t);
                    }
                }
            }
            assert forall|j: int| 0 <= j < k + 1 implies kept@[j] == kept_spec(es@, j) by {}
        }
        k += 1;
    }
    let deferred = sorted_distinct(&ids);
    proof {
        assert forall|t: Seq<char>| texts(deferred@).contains(t) <==> texts(ids@).contains(t) by {
            if texts(deferred@).contains(t) {
                let x = choose|x: int| 0 <= x < texts(deferred@).len() && texts(deferred@)[x] == t;
                assert(texts(ids@).contains(texts(deferred@)[x]));
            }
            if texts(ids@).contains(t) {
                let x = choose|x: int| 0 <= x < texts(ids@).len() && texts(ids@)[x] == t;
                assert(texts(deferred@).contains(texts(ids@)[x]));
            }
        }
    }
    Deferral { kept, deferred }
}

proof fn lemma_first_claim_prefix(
    states: Seq<String>,
    st0: Seq<String>,
    tasks: Seq<String>,
    tk0: Seq<String>,
    s: Seq<char>,
    n: int,
)
    requires
        0 <= n <= st0.len(),
        st0.len() <= states.len(),
        n <= tk0.len(),
        forall|i: int| 0 <= i < st0.len() ==> states[i] == st0[i],
        forall|i: int| 0 <= i < tk0.len() && i < tasks.len() ==> tasks[i] == tk0[i],
        tk0.len() <= tasks.len(),
    ensures
        first_claim(states, tasks, s, n) == first_claim(st0, tk0, s, n),
    decreases n,
{
    if n > 0 {
        lemma_first_claim_prefix(states, st0, tasks, tk0, s, n - 1);
    }
}

proof fn lemma_claimant_stays(es: Seq<WorkEntry>, s: Seq<char>, k: int, n: int)
    requires
        0 <= k <= n,
        claimant(es, s, k) is Some,
    ensures
        claimant(es, s, n) == claimant(es, s, k),
    decreases n - k,
{
    if n > k {
        lemma_claimant_stays(es, s, k, n - 1);
    }
}

/// A pass works at most one ticket in each non-concurrent state: any two
/// kept entries worked in the same non-concurrent state belong to the same
/// ticket.
pub proof fn lemma_one_ticket_per_state(es: Seq<WorkEntry>, j: int, k: int)
    requires
        0 <= j < k < es.len(),
        kept_spec(es, j),
        kept_spec(es, k),
        !es[j].concurrent,
        !es[k].concurrent,
        es[j].state@ == es[k].state@,
    ensures
        es[j].task@ == es[k].task@,
{
    let s = es[j].state@;
    assert(claimant(es, s, j + 1) == Some(es[j].task@));
    lemma_claimant_stays(es, s, j + 1, k);
}

// ---------------------------------------------------------------------------
// An empty ready set
// ---------------------------------------------------------------------------

/// What a run does when nothing in scope is ready.
#[derive(Debug, PartialEq)]
pub enum IdleStep {
    /// Human gates are all that block: wait a moment and look again,
    /// announcing the wait the first time.
    WaitForGate { announce: bool },
    /// A poll deadline lies ahead: sleep this many seconds, then look again.
    SleepUntilPoll(u64),
    /// Nothing was ever scheduled: say why each remaining ticket is not
    /// moving, and end.
    ExplainHalt,
    /// End the run.
    End,
}

pub enum IdleStepView {
    WaitForGate(bool),
    SleepUntilPoll(int),
    ExplainHalt,
    End,
}

pub open spec fn idle_view(s: IdleStep) -> IdleStepView {
    match s {
        IdleStep::WaitForGate { announce } => IdleStepView::WaitForGate(announce),
        IdleStep::SleepUntilPoll(n) => IdleStepView::SleepUntilPoll(n as int),
        IdleStep::ExplainHalt => IdleStepView::ExplainHalt,
        IdleStep::End => IdleStepView::End,
    }
}

/// A real run waits on human gates when it may (`waits_for_gates`) and they
/// are all that block (`gate_blocks`), then on the earliest poll deadline (at
/// least a second); a run that has not started a pass explains the halt.
pub open spec fn idle_spec(
    dry_run: bool,
    waits_for_gates: bool,
    gate_blocks: bool,
    announced: bool,
    poll_deadline: Option<u64>,
    now: u64,
    passes: u32,
) -> IdleStepView {
    if !dry_run && waits_for_gates && gate_blocks {
        IdleStepView::WaitForGate(!announced)
    } else if !dry_run && poll_deadline is Some {
        let d = poll_deadline->0;
        IdleStepView::SleepUntilPoll(if d > now && d - now > 1 {
            d - now
        } else {
            1
        })
    } else if passes == 0 {
        IdleStepView::ExplainHalt
    } else {
        IdleStepView::End
    }
}

/// Decide what an empty ready set means.
pub fn idle_step(
    dry_run: bool,
    waits_for_gates: bool,
    gate_blocks: bool,
    announced: bool,
    poll_deadline: Option<u64>,
    now: u64,
    passes: u32,
) -> (r: IdleStep)
    ensures
        idle_view(r) == idle_spec(dry_run, waits_for_gates, gate_blocks, announced, poll_deadline, now, passes),
        !dry_run && waits_for_gates && gate_blocks ==> r == (IdleStep::WaitForGate { announce: !announced }),
        !(!dry_run && waits_for_gates && gate_blocks) && !dry_run && poll_deadline is Some ==> (r matches IdleStep::SleepUntilPoll(n)
            && n >= 1 && (poll_deadline->0 > now + 1 ==> n == poll_deadline->0 - now) && (poll_deadline->0 <= now + 1
            ==> n == 1)),
        !(!dry_run && waits_for_gates && gate_blocks) && !(!dry_run && poll_deadline is Some) ==> r == if passes == 0 {
            IdleStep::ExplainHalt
        } else {
            IdleStep::End
        },
{
    if !dry_run && waits_for_gates && gate_blocks {
        IdleStep::WaitForGate { announce: !announced }
    } else if !dry_run && poll_deadline.is_some() {
        let d = match poll_deadline {
            Some(d) => d,
            None => 0,
        };
        let left = if d > now {
            d - now
        } else {
            0
        };
        IdleStep::SleepUntilPoll(if left > 1 {
            left
        } else {
            1
        })
    } else if passes == 0 {
        IdleStep::ExplainHalt
    } else {
        IdleStep::End
    }
}

// ---------------------------------------------------------------------------
// After a pass
// ---------------------------------------------------------------------------

/// What a run does once a pass is over.
#[derive(Debug, Clone, Copy, PartialEq, Eq, Structural)]
pub enum PassEnd {
    /// Something advanced: note the progress and run another pass.
    Progressed,
    /// Nothing advanced, but a ticket newly stalled and its siblings are
    /// still claimable: run another pass without them.
    RetrySiblings,
    /// Every claimable ticket advanced or stalled, and progress was made
    /// since the stalled set was last emptied: empty it and try them again.
    RetryStalled,
    /// End the run.
    Stop,
}

/// The rule after a pass. `newly_stalled` and `more_claimable` count only
/// when workers were started this pass (the caller passes `false`
/// otherwise); a dry run ends after its first pass that advanced nothing.
pub open spec fn pass_end_spec(
    advanced: bool,
    dry_run: bool,
    progress_since_reset: bool,
    any_stalled: bool,
    newly_stalled: bool,
    more_claimable: bool,
) -> PassEnd {
    if advanced {
        PassEnd::Progressed
    } else if dry_run {
        PassEnd::Stop
    } else if newly_stalled && more_claimable {
        PassEnd::RetrySiblings
    } else if progress_since_reset && any_stalled {
        PassEnd::RetryStalled
    } else {
        PassEnd::Stop
    }
}

/// After a real pass that advanced nothing, a new stall with tickets still
/// claimable always earns those tickets another pass, whether or not
/// anything advanced since the stalled set was last emptied.
pub proof fn lemma_new_stall_retries_siblings(progress_since_reset: bool, any_stalled: bool)
    ensures
        pass_end_spec(false, false, progress_since_reset, any_stalled, true, true) == PassEnd::RetrySiblings,
{
}

/// Decide whether the run goes on after a pass.
pub fn pass_end(
    advanced: bool,
    dry_run: bool,
    progress_since_reset: bool,
    any_stalled: bool,
    newly_stalled: bool,
    more_claimable: bool,
) -> (r: PassEnd)
    ensures
        r == pass_end_spec(advanced, dry_run, progress_since_reset, any_stalled, newly_stalled, more_claimable),
        advanced ==> r == PassEnd::Progressed,
        !advanced && dry_run ==> r == PassEnd::Stop,
        !advanced && !dry_run && newly_stalled && more_claimable ==> r == PassEnd::RetrySiblings,
        !advanced && !dry_run && !(newly_stalled && more_claimable) && progress_since_reset && any_stalled ==> r
            == PassEnd::RetryStalled,
        !advanced && !dry_run && !(newly_stalled && more_claimable) && !(progress_since_reset && any_stalled) ==> r
            == PassEnd::Stop,
        r == PassEnd::Progressed ==> advanced,
{
    if advanced {
        PassEnd::Progressed
    } else if dry_run {
        PassEnd::Stop
    } else if newly_stalled && more_claimable {
        PassEnd::RetrySiblings
    } else if progress_since_reset && any_stalled {
        PassEnd::RetryStalled
    } else {
        PassEnd::Stop
    }
}

// ---------------------------------------------------------------------------
// Callback-only runs
// ---------------------------------------------------------------------------

/// What a callback-only run does with a ready ticket.
#[derive(Debug, PartialEq)]
pub enum CallbackStep {
    /// The ticket was advanced from this same state earlier in the run:
    /// reported as stalled.
    AlreadyVisited,
    /// Its initial state is manual-only, with a terminal transition to this
    /// state: a dry run notes it, a real run stops.
    ManualOnly(String),
    /// No forward transition leaves its state: reported as stalled.
    NoTransition,
    /// A dry run shows the transition to this state.
    ShowTransition(String),
    /// Advance it to this state; the state is now visited, and once the
    /// advance succeeds the pass ends.
    Advance(String),
}

pub enum CallbackStepView {
    AlreadyVisited,
    ManualOnly(Seq<char>),
    NoTransition,
    ShowTransition(Seq<char>),
    Advance(Seq<char>),
}

pub open spec fn callback_view(s: CallbackStep) -> CallbackStepView {
    match s {
        CallbackStep::AlreadyVisited => CallbackStepView::AlreadyVisited,
        CallbackStep::ManualOnly(t) => CallbackStepView::ManualOnly(t@),
        CallbackStep::NoTransition => CallbackStepView::NoTransition,
        CallbackStep::ShowTransition(t) => CallbackStepView::ShowTransition(t@),
        CallbackStep::Advance(t) => CallbackStepView::Advance(t@),
    }
}

/// The `(ticket, state)` pairs a run has advanced from, as values.
pub open spec fn visited_keys(v: Seq<(String, String)>) -> Seq<(Seq<char>, Seq<char>)> {
    Seq::new(v.len(), |i: int| (v[i].0@, v[i].1@))
}

/// The rule for a ready ticket in a callback-only run, given whether its
/// `(ticket, state)` pair was visited, the terminal a manual-only initial
/// state leads to, and its next transition.
pub open spec fn callback_spec(
    visited: bool,
    manual_to: Option<Seq<char>>,
    next_to: Option<Seq<char>>,
    dry_run: bool,
) -> CallbackStepView {
    if visited {
        CallbackStepView::AlreadyVisited
    } else if manual_to is Some {
        CallbackStepView::ManualOnly(manual_to->0)
    } else if next_to is None {
        CallbackStepView::NoTransition
    } else if dry_run {
        CallbackStepView::ShowTransition(next_to->0)
    } else {
        CallbackStepView::Advance(next_to->0)
    }
}

/// Decide what a callback-only run does with ticket `task` in state
/// `state` (as written), recording the pair as visited when it advances.
pub fn callback_step(
    visited: &mut Vec<(String, String)>,
    task: &str,
    state: &str,
    manual_to: Option<String>,
    next_to: Option<String>,
    dry_run: bool,
) -> (r: CallbackStep)
    ensures
        callback_view(r) == callback_spec(
            visited_keys(old(visited)@).contains((task@, state@)),
            match manual_to {
                Some(t) => Some(t@),
                None => None,
            },
            match next_to {
                Some(t) => Some(t@),
                None => None,
            },
            dry_run,
        ),
        visited_keys(old(visited)@).contains((task@, state@)) ==> r == CallbackStep::AlreadyVisited,
        !visited_keys(old(visited)@).contains((task@, state@)) && manual_to is Some ==> (r matches CallbackStep::ManualOnly(t)
            && t@ == manual_to->0@),
        !visited_keys(old(visited)@).contains((task@, state@)) && manual_to is None && next_to is None ==> r
            == CallbackStep::NoTransition,
        !visited_keys(old(visited)@).contains((task@, state@)) && manual_to is None && next_to is Some ==> (if dry_run {
            r matches CallbackStep::ShowTransition(t) && t@ == next_to->0@
        } else {
            r matches CallbackStep::Advance(t) && t@ == next_to->0@
        }),
        visited_keys(final(visited)@) == if r is Advance {
            visited_keys(old(visited)@).push((task@, state@))
        } else {
            visited_keys(old(visited)@)
        },
{
    let ghost keys0 = visited_keys(visited@);
    let mut i: usize = 0;
    while i < visited.len()
        invariant
            i <= visited@.len(),
            keys0 == visited_keys(visited@),
            forall|j: int| 0 <= j < i ==> keys0[j] != (task@, state@),
        decreases visited@.len() - i,
    {
        if str_eq(visited[i].0.as_str(), task) && str_eq(visited[i].1.as_str(), state) {
            assert(keys0[i as int] == (task@, state@));
            return CallbackStep::AlreadyVisited;
        }
        i += 1;
    }
    assert(!keys0.contains((task@, state@)));
    match manual_to {
        Some(t) => {
            return CallbackStep::ManualOnly(t);
        },
        None => {},
    }
    let to = match next_to {
        Some(t) => t,
        None => {
            return CallbackStep::NoTransition;
        },
    };
    if dry_run {
        return CallbackStep::ShowTransition(to);
    }
    visited.push((String::from_str(task), String::from_str(state)));
    assert(visited_keys(visited@) =~= keys0.push((task@, state@)));
    CallbackStep::Advance(to)
}

/// A callback-only run advances a ticket from a given state at most once:
/// once an advance records the pair, every later look at the same ticket in
/// the same state, whatever was recorded since, finds it visited.
pub proof fn lemma_advanced_once(
    v: Seq<(String, String)>,
    w: Seq<(String, String)>,
    task: Seq<char>,
    state: Seq<char>,
    manual_to: Option<Seq<char>>,
    next_to: Option<Seq<char>>,
    dry_run: bool,
)
    requires
        visited_keys(v).push((task, state)).is_prefix_of(visited_keys(w)),
    ensures
        callback_spec(visited_keys(w).contains((task, state)), manual_to, next_to, dry_run)
            == CallbackStepView::AlreadyVisited,
{
    let n = visited_keys(v).len() as int;
    assert(visited_keys(v).push((task, state))[n] == (task, state));
    assert(visited_keys(w)[n] == (task, state));
}

} // verus!
