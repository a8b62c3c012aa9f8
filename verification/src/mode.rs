//! Which way `rhei run` drives a plan: standalone, spawning agents and
//! programs itself, or through the machine's callbacks.
use vstd::prelude::*;

verus! {

/// What the choice reads of one runnable ticket in scope.
#[derive(Debug, PartialEq)]
pub struct RunnableState {
    /// Its machine declares its (normalized) state.
    pub declared: bool,
    pub terminal: bool,
    pub gating: bool,
    /// The state declares a `program:`.
    pub has_program: bool,
    /// The state declares autonomous agent work.
    pub autonomous: bool,
    /// Whether agent invocations resolve for it (`Ok(true)` when at least
    /// one does), or why resolving them failed.
    pub invocations: Result<bool, String>,
}

/// What one ticket decides: `Some(Ok(true))` when it calls for standalone
/// mode, `Some(Err(..))` when resolving its invocations failed, `None` when
/// it decides nothing.
pub open spec fn ticket_decides(t: RunnableState, no_agent: bool, no_program: bool) -> Option<Result<bool, Seq<char>>> {
    if !t.declared || t.terminal || t.gating {
        None
    } else if t.has_program && !no_program {
        Some(Ok(true))
    } else if no_agent {
        None
    } else {
        match t.invocations {
            Err(e) => Some(Err(e@)),
            Ok(any) => if any || t.autonomous {
                Some(Ok(true))
            } else {
                None
            },
        }
    }
}

/// The first decision among the first `k` tickets; `Ok(false)` when none
/// decides.
pub open spec fn decide_from(ts: Seq<RunnableState>, no_agent: bool, no_program: bool, k: int) -> Result<bool, Seq<char>>
    decreases k,
{
    if k <= 0 {
        Ok(false)
    } else {
        match decide_from(ts, no_agent, no_program, k - 1) {
            Ok(false) => match ticket_decides(ts[k - 1], no_agent, no_program) {
                Some(d) => d,
                None => Ok(false),
            },
            other => other,
        }
    }
}

/// Whether a run drives the plan standalone: when agents are allowed and
/// some machine has a non-terminal, non-gating state that declares
/// autonomous agent work; else when the first runnable ticket in scope that
/// decides calls for it (a program it may run, agent invocations that
/// resolve, or autonomous work), or fails resolving its invocations.
pub fn should_use_agent_mode(
    no_agent: bool,
    no_program: bool,
    autonomous_state_exists: bool,
    runnable: &Vec<RunnableState>,
) -> (r: Result<bool, String>)
    ensures
        !no_agent && autonomous_state_exists ==> r == Ok::<bool, String>(true),
        !(!no_agent && autonomous_state_exists) ==> match r {
            Ok(b) => decide_from(runnable@, no_agent, no_program, runnable@.len() as int) == Ok::<bool, Seq<char>>(b),
            Err(e) => decide_from(runnable@, no_agent, no_program, runnable@.len() as int) == Err::<bool, Seq<char>>(e@),
        },
{
    if !no_agent && autonomous_state_exists {
        return Ok(true);
    }
    let mut i: usize = 0;
    while i < runnable.len()
        invariant
            i <= runnable@.len(),
            !(!no_agent && autonomous_state_exists),
            decide_from(runnable@, no_agent, no_program, i as int) == Ok::<bool, Seq<char>>(false),
        decreases runnable@.len() - i,
    {
        let t = &runnable[i];
        if t.declared && !t.terminal && !t.gating {
            if t.has_program && !no_program {
                proof {
                    lemma_decided_stays(runnable@, no_agent, no_program, i as int + 1, runnable@.len() as int);
                }
                return Ok(true);
            }
            if !no_agent {
                match &t.invocations {
                    Err(e) => {
                        proof {
                            lemma_decided_stays(runnable@, no_agent, no_program, i as int + 1, runnable@.len() as int);
                        }
                        return Err(String::from_str(e.as_str()));
                    },
                    Ok(any) => if *any || t.autonomous {
                        proof {
                            lemma_decided_stays(runnable@, no_agent, no_program, i as int + 1, runnable@.len() as int);
                        }
                        return Ok(true);
                    },
                }
            }
        }
        i += 1;
    }
    Ok(false)
}

/// A decision once made is the decision of every longer prefix.
proof fn lemma_decided_stays(ts: Seq<RunnableState>, no_agent: bool, no_program: bool, k: int, n: int)
    requires
        0 <= k <= n,
        decide_from(ts, no_agent, no_program, k) != Ok::<bool, Seq<char>>(false),
    ensures
        decide_from(ts, no_agent, no_program, n) == decide_from(ts, no_agent, no_program, k),
    decreases n - k,
{
    if n > k {
        lemma_decided_stays(ts, no_agent, no_program, k, n - 1);
    }
}

} // verus!
