//! What `rhei next` decides before it writes anything: which ticket it
//! claims (the one `--task` names, or the first claimable ticket in scope),
//! or why it refuses; then whether a setup-only initial state is advanced
//! first and under which name the claim is recorded. Reading the plan,
//! checking the state's inputs on disk, firing the transition and writing
//! the claim are the caller's.
use vstd::prelude::*;
use crate::ready::{
    find, find_claimable_tasks, find_task, first_blocking, first_blocking_prior, open_desc, open_descendant_tasks,
    picks, priors_done, all_priors_done, Pick, TaskFacts,
};

verus! {

/// What `rhei next` does with the ticket it looked at.
#[derive(Debug, PartialEq)]
pub enum ClaimStep {
    /// The named ticket's own subtree is still open: its open descendants,
    /// and the first claimable ticket in scope to take instead, if any.
    OpenDescendants { open: Vec<usize>, instead: Option<usize> },
    /// A supervising ancestor holds the named ticket: the supervisor, its
    /// state, who holds the supervisor (if anyone), and whether it is parked
    /// at a human gate.
    HeldBySupervisor { supervisor: String, state: String, holder: Option<String>, awaiting_human: bool },
    /// The named ticket is already claimed, by this name.
    AlreadyAssigned(String),
    /// The named ticket is in its initial state and a prior is not done: the
    /// first unsatisfied prior, described, if one is.
    BlockedByPriors(Option<String>),
    /// Nothing in scope is claimable.
    NothingClaimable,
    /// Claim this ticket (once its state's inputs are found on disk).
    Claim(usize),
}

/// The step as values.
pub enum ClaimStepView {
    OpenDescendants(Seq<int>, Option<int>),
    HeldBySupervisor(Seq<char>, Seq<char>, Option<Seq<char>>, bool),
    AlreadyAssigned(Seq<char>),
    BlockedByPriors(Option<Seq<char>>),
    NothingClaimable,
    Claim(int),
}

pub open spec fn claim_step_view(s: ClaimStep) -> ClaimStepView {
    match s {
        ClaimStep::OpenDescendants { open, instead } => ClaimStepView::OpenDescendants(
            Seq::new(open@.len(), |q: int| open@[q] as int),
            match instead {
                Some(k) => Some(k as int),
                None => None,
            },
        ),
        ClaimStep::HeldBySupervisor { supervisor, state, holder, awaiting_human } => ClaimStepView::HeldBySupervisor(
            supervisor@,
            state@,
            match holder {
                Some(h) => Some(h@),
                None => None,
            },
            awaiting_human,
        ),
        ClaimStep::AlreadyAssigned(a) => ClaimStepView::AlreadyAssigned(a@),
        ClaimStep::BlockedByPriors(b) => ClaimStepView::BlockedByPriors(
            match b {
                Some(x) => Some(x@),
                None => None,
            },
        ),
        ClaimStep::NothingClaimable => ClaimStepView::NothingClaimable,
        ClaimStep::Claim(i) => ClaimStepView::Claim(i as int),
    }
}

/// The first of the tickets `s[..k]` that is in the `--rhei` scope.
pub open spec fn first_in_scope(ts: Seq<TaskFacts>, s: Seq<int>, k: int) -> Option<int>
    decreases k,
{
    if k <= 0 {
        None
    } else {
        match first_in_scope(ts, s, k - 1) {
            Some(x) => Some(x),
            None => if ts[s[k - 1]].in_scope {
                Some(s[k - 1])
            } else {
                None
            },
        }
    }
}

/// The first claimable ticket in scope: `--rhei` narrows the candidates.
pub open spec fn first_claimable(ts: Seq<TaskFacts>, now: u64) -> Option<int> {
    let c = picks(ts, now, Pick::Claimable, ts.len() as int);
    first_in_scope(ts, c, c.len() as int)
}

/// What `rhei next` decides. For a named ticket `i`, in this order: its open
/// subtree (a supervising ticket is worked between its descendants, so its
/// subtree does not count), a supervisor holding it, a claim already made,
/// and, in its initial state, its priors; else it is claimed. With no ticket
/// named, the first claimable ticket in scope is claimed.
pub open spec fn claim_step_spec(
    ts: Seq<TaskFacts>,
    target: Option<int>,
    supervising: bool,
    awaiting_human: bool,
    now: u64,
) -> ClaimStepView {
    match target {
        Some(i) => {
            let open = if supervising {
                Seq::empty()
            } else {
                open_desc(ts, i, ts.len() as int)
            };
            let t = ts[i];
            if open.len() > 0 {
                ClaimStepView::OpenDescendants(open, first_claimable(ts, now))
            } else if t.held_by is Some {
                let s = t.held_by->0;
                ClaimStepView::HeldBySupervisor(
                    s@,
                    t.holder_state@,
                    match find(ts, s@) {
                        Some(k) => match ts[k].assignee {
                            Some(a) => Some(a@),
                            None => None,
                        },
                        None => None,
                    },
                    awaiting_human,
                )
            } else if t.assignee is Some {
                ClaimStepView::AlreadyAssigned(t.assignee->0@)
            } else if t.initial && !priors_done(ts, t) {
                ClaimStepView::BlockedByPriors(first_blocking(ts, t.priors@, t.priors@.len() as int))
            } else {
                ClaimStepView::Claim(i)
            }
        },
        None => match first_claimable(ts, now) {
            Some(k) => ClaimStepView::Claim(k),
            None => ClaimStepView::NothingClaimable,
        },
    }
}

fn first_claimable_exec(ts: &Vec<TaskFacts>, now: u64) -> (r: Option<usize>)
    ensures
        match r {
            Some(k) => first_claimable(ts@, now) == Some(k as int),
            None => first_claimable(ts@, now) is None,
        },
{
    let c = find_claimable_tasks(ts, now);
    let ghost cs = picks(ts@, now, Pick::Claimable, ts@.len() as int);
    proof {
        lemma_picks_bounds(ts@, now, Pick::Claimable, ts@.len() as int);
    }
    let mut q: usize = 0;
    while q < c.len()
        invariant
            q <= c@.len(),
            c@.len() == cs.len(),
            cs == picks(ts@, now, Pick::Claimable, ts@.len() as int),
            forall|w: int| 0 <= w < c@.len() ==> (#[trigger] c@[w]) as int == cs[w],
            forall|w: int| 0 <= w < cs.len() ==> 0 <= #[trigger] cs[w] < ts@.len(),
            first_in_scope(ts@, cs, q as int) is None,
        decreases c@.len() - q,
    {
        let k = c[q];
        assert(cs[q as int] == k as int);
        if ts[k].in_scope {
            proof {
                lemma_first_in_scope_stays(ts@, cs, q + 1, cs.len() as int);
            }
            return Some(k);
        }
        q += 1;
    }
    None
}

proof fn lemma_picks_bounds(ts: Seq<TaskFacts>, now: u64, pick: Pick, k: int)
    ensures
        forall|w: int| 0 <= w < picks(ts, now, pick, k).len() ==> 0 <= #[trigger] picks(ts, now, pick, k)[w] < k,
    decreases k,
{
    if k > 0 {
        lemma_picks_bounds(ts, now, pick, k - 1);
        let p = picks(ts, now, pick, k - 1);
        assert forall|w: int| 0 <= w < p.push(k - 1).len() implies 0 <= #[trigger] p.push(k - 1)[w] < k by {
            if w < p.len() {
                assert(p.push(k - 1)[w] == p[w]);
            }
        }
    }
}

proof fn lemma_first_in_scope_stays(ts: Seq<TaskFacts>, s: Seq<int>, k: int, n: int)
    requires
        0 <= k <= n,
        first_in_scope(ts, s, k) is Some,
    ensures
        first_in_scope(ts, s, n) == first_in_scope(ts, s, k),
    decreases n - k,
{
    if n > k {
        lemma_first_in_scope_stays(ts, s, k, n - 1);
    }
}

/// Decide which ticket `rhei next` claims, or why it refuses. `target` is
/// the ticket `--task` names, found in the plan; `supervising` whether its
/// state supervises; `awaiting_human` whether the supervisor holding it is
/// parked at a human gate.
pub fn claim_step(ts: &Vec<TaskFacts>, target: Option<usize>, supervising: bool, awaiting_human: bool, now: u64) -> (r: ClaimStep)
    requires
        target matches Some(i) ==> i < ts@.len(),
    ensures
        claim_step_view(r) == claim_step_spec(
            ts@,
            match target {
                Some(i) => Some(i as int),
                None => None,
            },
            supervising,
            awaiting_human,
            now,
        ),
{
    match target {
        None => match first_claimable_exec(ts, now) {
            Some(k) => ClaimStep::Claim(k),
            None => ClaimStep::NothingClaimable,
        },
        Some(i) => {
            let open: Vec<usize> = if supervising {
                Vec::new()
            } else {
                open_descendant_tasks(ts, i)
            };
            let ghost ov = if supervising {
                Seq::<int>::empty()
            } else {
                open_desc(ts@, i as int, ts@.len() as int)
            };
            assert(Seq::new(open@.len(), |q: int| open@[q] as int) =~= ov);
            if open.len() > 0 {
                let instead = first_claimable_exec(ts, now);
                return ClaimStep::OpenDescendants { open, instead };
            }
            let t = &ts[i];
            match &t.held_by {
                Some(s) => {
                    let holder = match find_task(ts, s.as_str()) {
                        Some(k) => match &ts[k].assignee {
                            Some(a) => Some(String::from_str(a.as_str())),
                            None => None,
                        },
                        None => None,
                    };
                    return ClaimStep::HeldBySupervisor {
                        supervisor: String::from_str(s.as_str()),
                        state: String::from_str(t.holder_state.as_str()),
                        holder,
                        awaiting_human,
                    };
                },
                None => {},
            }
            match &t.assignee {
                Some(a) => {
                    return ClaimStep::AlreadyAssigned(String::from_str(a.as_str()));
                },
                None => {},
            }
            if t.initial && !all_priors_done(ts, i) {
                return ClaimStep::BlockedByPriors(first_blocking_prior(ts, i));
            }
            ClaimStep::Claim(i)
        },
    }
}

/// What `rhei next` does once it has a ticket: whether it first advances a
/// setup-only initial state (never when only peeking), and the name the
/// claim is written under (none when peeking or already claimed): the agent
/// its state resolves to, or `manual`.
#[derive(Debug, PartialEq)]
pub struct ClaimPlan {
    pub advance_initial: bool,
    pub claim_as: Option<String>,
}

/// Plan the claim. `initial` is whether the ticket is in its initial state,
/// `autonomous` whether that state declares autonomous execution,
/// `forward` whether its next edge leads on to a state that is not
/// terminal; `assigned` whether the ticket (read again after any advance)
/// is claimed; `agent` the agent its state resolves to.
pub fn claim_plan(initial: bool, autonomous: bool, forward: bool, peek: bool, assigned: bool, agent: Option<String>) -> (r: ClaimPlan)
    ensures
        r.advance_initial == (initial && !autonomous && forward && !peek),
        peek || assigned ==> r.claim_as is None,
        !peek && !assigned ==> (r.claim_as matches Some(n) && n@ == match agent {
            Some(a) => a@,
            None => "manual"@,
        }),
{
    let advance_initial = initial && !autonomous && forward && !peek;
    let claim_as = if !peek && !assigned {
        match agent {
            Some(a) => Some(a),
            None => Some(String::from_str("manual")),
        }
    } else {
        None
    };
    ClaimPlan { advance_initial, claim_as }
}

} // verus!
