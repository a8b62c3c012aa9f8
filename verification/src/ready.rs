//! Which tickets a pass may work: the ready set (subtree closed, not
//! terminal or gating, outside any poll backoff, priors satisfied, inputs on
//! disk), and the views of it that `rhei run` and `rhei next` take. The plan
//! arrives flattened in preorder, each ticket with its depth and what its
//! machine says of its state.
use vstd::prelude::*;
use crate::text::{push_str, str_eq, u64_to_string, decimal, join, join_strings};

verus! {

/// How supervision bears on a ticket this pass.
#[derive(Debug, Clone, Copy, PartialEq, Eq, Structural)]
pub enum Supervision {
    /// Under a supervising ancestor that holds its subtree.
    Held,
    /// A supervisor whose subtree is still busy.
    SupervisorWaiting,
    /// A supervisor whose subtree is quiescent: scheduled between its
    /// descendants.
    SupervisorReady,
    /// Outside supervision: workable once its subtree is terminal.
    Unsupervised,
}

/// One ticket of the plan, as the scheduling rules read it.
#[derive(Debug, PartialEq)]
pub struct TaskFacts {
    pub id: String,
    /// 0 for a top-level ticket, one more for each level below.
    pub depth: usize,
    /// Its state, normalized under its own machine.
    pub state: String,
    pub terminal: bool,
    /// Its state is the reserved cancellation state.
    pub cancelled: bool,
    pub gating: bool,
    /// Its state declares a poll.
    pub polling: bool,
    /// The next attempt its metadata records for its state.
    pub next_attempt_at: Option<u64>,
    pub priors: Vec<String>,
    pub assignee: Option<String>,
    /// Its state is the initial state of its profile.
    pub initial: bool,
    pub supervision: Supervision,
    /// The required inputs of its state are on disk.
    pub inputs_exist: bool,
    /// It belongs to the `--rhei` scope (every ticket without one).
    pub in_scope: bool,
    /// The supervising ancestor that holds it, if any.
    pub held_by: Option<String>,
    /// The state of the supervisor that holds it.
    pub holder_state: String,
    /// Whom its state says it waits on, if a person.
    pub waiting_on_person: Option<String>,
}

/// The first ticket with id `id`.
pub open spec fn lookup(ts: Seq<TaskFacts>, id: Seq<char>, k: int) -> Option<int>
    decreases k,
{
    if k <= 0 {
        None
    } else {
        match lookup(ts, id, k - 1) {
            Some(x) => Some(x),
            None => if ts[k - 1].id@ == id {
                Some(k - 1)
            } else {
                None
            },
        }
    }
}

pub open spec fn find(ts: Seq<TaskFacts>, id: Seq<char>) -> Option<int> {
    lookup(ts, id, ts.len() as int)
}

/// A prior is satisfied by a terminal state other than cancellation.
pub open spec fn satisfied(t: TaskFacts) -> bool {
    t.terminal && !t.cancelled
}

/// `j` lies in the subtree of `i`: after it, with every ticket between them
/// (and `j` itself) deeper than `i`.
pub open spec fn descendant(ts: Seq<TaskFacts>, i: int, j: int) -> bool {
    &&& 0 <= i < j < ts.len()
    &&& forall|k: int| i < k <= j ==> (#[trigger] ts[k]).depth > ts[i].depth
}

/// Some ticket in the subtree of `i` is not terminal.
pub open spec fn any_open(ts: Seq<TaskFacts>, i: int) -> bool {
    exists|j: int| descendant(ts, i, j) && !(#[trigger] ts[j]).terminal
}

/// Every prior names a ticket of the plan that is satisfied.
pub open spec fn priors_done(ts: Seq<TaskFacts>, t: TaskFacts) -> bool {
    forall|p: int| 0 <= p < t.priors@.len() ==> (find(ts, (#[trigger] t.priors@[p])@) matches Some(k) && satisfied(ts[k]))
}

/// A poll deadline still ahead of `now`.
pub open spec fn poll_pending(t: TaskFacts, now: u64) -> bool {
    &&& t.polling
    &&& t.next_attempt_at matches Some(d) && d > now
}

/// The ready rule.
pub open spec fn ready(ts: Seq<TaskFacts>, i: int, now: u64) -> bool {
    let t = ts[i];
    &&& match t.supervision {
        Supervision::Held | Supervision::SupervisorWaiting => false,
        Supervision::SupervisorReady => true,
        Supervision::Unsupervised => !any_open(ts, i),
    }
    &&& !t.terminal
    &&& !t.gating
    &&& !poll_pending(t, now)
    &&& priors_done(ts, t)
    &&& t.inputs_exist
}

/// Which view of the ready set is asked for.
#[derive(Debug, Clone, Copy, PartialEq, Eq, Structural)]
pub enum Pick {
    /// Every ready ticket.
    Ready,
    /// Ready and unclaimed: what `rhei run` schedules.
    Runnable,
    /// Ready but claimed: what a run reports as held.
    Claimed,
    /// Ready, unclaimed, and in its initial state: what `rhei next` claims.
    Claimable,
}

pub open spec fn picked(ts: Seq<TaskFacts>, i: int, now: u64, pick: Pick) -> bool {
    ready(ts, i, now) && match pick {
        Pick::Ready => true,
        Pick::Runnable => ts[i].assignee is None,
        Pick::Claimed => ts[i].assignee is Some,
        Pick::Claimable => ts[i].assignee is None && ts[i].initial,
    }
}

/// The picked tickets among the first `k`, in plan order.
pub open spec fn picks(ts: Seq<TaskFacts>, now: u64, pick: Pick, k: int) -> Seq<int>
    decreases k,
{
    if k <= 0 {
        Seq::empty()
    } else if picked(ts, k - 1, now, pick) {
        picks(ts, now, pick, k - 1).push(k - 1)
    } else {
        picks(ts, now, pick, k - 1)
    }
}

proof fn lemma_lookup_stays(ts: Seq<TaskFacts>, id: Seq<char>, k: int, n: int)
    requires
        0 <= k <= n,
        lookup(ts, id, k) is Some,
    ensures
        lookup(ts, id, n) == lookup(ts, id, k),
    decreases n - k,
{
    if n > k {
        lemma_lookup_stays(ts, id, k, n - 1);
    }
}

/// The index of the ticket with id `id`.
pub fn find_task(ts: &Vec<TaskFacts>, id: &str) -> (r: Option<usize>)
    ensures
        match r {
            Some(k) => find(ts@, id@) == Some(k as int) && k < ts@.len(),
            None => find(ts@, id@) is None,
        },
{
    let mut k: usize = 0;
    while k < ts.len()
        invariant
            k <= ts@.len(),
            lookup(ts@, id@, k as int) is None,
        decreases ts@.len() - k,
    {
        if str_eq(ts[k].id.as_str(), id) {
            proof {
                lemma_lookup_stays(ts@, id@, k + 1, ts@.len() as int);
            }
            return Some(k);
        }
        k += 1;
    }
    None
}

/// Whether a dependency in this state satisfies a prior: terminal, and not
/// cancelled.
pub fn dependency_is_satisfied(t: &TaskFacts) -> (r: bool)
    ensures
        r == satisfied(*t),
{
    t.terminal && !t.cancelled
}

/// Whether the subtree of `i` holds a ticket that is not terminal.
pub fn any_open_descendant(ts: &Vec<TaskFacts>, i: usize) -> (r: bool)
    requires
        i < ts@.len(),
    ensures
        r == any_open(ts@, i as int),
{
    let d = ts[i].depth;
    let n = ts.len();
    let mut j: usize = i + 1;
    while j < ts.len() && ts[j].depth > d
        invariant
            i < j <= ts@.len(),
            d == ts@[i as int].depth,
            forall|k: int| i < k < j ==> (#[trigger] ts@[k]).depth > d && ts@[k].terminal,
        decreases ts@.len() - j,
    {
        if !ts[j].terminal {
            assert(descendant(ts@, i as int, j as int));
            return true;
        }
        j += 1;
    }
    assert forall|q: int| descendant(ts@, i as int, q) implies (#[trigger] ts@[q]).terminal by {
        if q >= j {
            assert(ts@[j as int].depth > d);
        }
    }
    false
}

/// Whether the subtree of `i` is closed: the one eligibility rule for a
/// ticket with children.
pub fn descendants_are_terminal(ts: &Vec<TaskFacts>, i: usize) -> (r: bool)
    requires
        i < ts@.len(),
    ensures
        r == !any_open(ts@, i as int),
{
    !any_open_descendant(ts, i)
}

/// Whether every prior of ticket `i` names a satisfied ticket of the plan.
pub fn all_priors_done(ts: &Vec<TaskFacts>, i: usize) -> (r: bool)
    requires
        i < ts@.len(),
    ensures
        r == priors_done(ts@, ts@[i as int]),
{
    let t = &ts[i];
    let mut p: usize = 0;
    while p < t.priors.len()
        invariant
            t == &ts@[i as int],
            p <= t.priors@.len(),
            forall|q: int| 0 <= q < p ==> (find(ts@, (#[trigger] t.priors@[q])@) matches Some(k) && satisfied(ts@[k])),
        decreases t.priors@.len() - p,
    {
        match find_task(ts, t.priors[p].as_str()) {
            Some(k) => {
                if !dependency_is_satisfied(&ts[k]) {
                    return false;
                }
            },
            None => {
                return false;
            },
        }
        p += 1;
    }
    true
}

/// Whether ticket `i` is ready at time `now` (seconds since the epoch).
pub fn is_ready(ts: &Vec<TaskFacts>, i: usize, now: u64) -> (r: bool)
    requires
        i < ts@.len(),
    ensures
        r == ready(ts@, i as int, now),
        !ts@[i as int].inputs_exist ==> !r,
        ts@[i as int].terminal ==> !r,
        ts@[i as int].gating ==> !r,
        (ts@[i as int].polling && (ts@[i as int].next_attempt_at matches Some(d) && d > now)) ==> !r,
        (ts@[i as int].supervision == Supervision::Held || ts@[i as int].supervision == Supervision::SupervisorWaiting)
            ==> !r,
        (ts@[i as int].supervision == Supervision::Unsupervised && exists|j: int|
            #[trigger] descendant(ts@, i as int, j) && !ts@[j].terminal) ==> !r,
        r ==> forall|p: int|
            0 <= p < ts@[i as int].priors@.len() ==> (find(ts@, (#[trigger] ts@[i as int].priors@[p])@) matches Some(k)
                && ts@[k].terminal && !ts@[k].cancelled),
        ({
            &&& !ts@[i as int].terminal
            &&& !ts@[i as int].gating
            &&& ts@[i as int].inputs_exist
            &&& !(ts@[i as int].polling && (ts@[i as int].next_attempt_at matches Some(d) && d > now))
            &&& (ts@[i as int].supervision == Supervision::SupervisorReady || (ts@[i as int].supervision
                == Supervision::Unsupervised && forall|j: int| #[trigger] descendant(ts@, i as int, j) ==> ts@[j].terminal))
            &&& forall|p: int|
                0 <= p < ts@[i as int].priors@.len() ==> (find(ts@, (#[trigger] ts@[i as int].priors@[p])@) matches Some(k)
                    && ts@[k].terminal && !ts@[k].cancelled)
        }) ==> r,
{
    let t = &ts[i];
    let supervision_ok = match t.supervision {
        Supervision::Held | Supervision::SupervisorWaiting => false,
        Supervision::SupervisorReady => true,
        Supervision::Unsupervised => descendants_are_terminal(ts, i),
    };
    if !supervision_ok || t.terminal || t.gating {
        return false;
    }
    if t.polling {
        if let Some(deadline) = t.next_attempt_at {
            if deadline > now {
                return false;
            }
        }
    }
    all_priors_done(ts, i) && t.inputs_exist
}

/// The tickets `pick` asks for, in plan order.
pub fn pick_tasks(ts: &Vec<TaskFacts>, now: u64, pick: Pick) -> (r: Vec<usize>)
    ensures
        r@.len() == picks(ts@, now, pick, ts@.len() as int).len(),
        forall|q: int| 0 <= q < r@.len() ==> (#[trigger] r@[q]) as int == picks(ts@, now, pick, ts@.len() as int)[q],
        forall|q: int|
            0 <= q < r@.len() ==> (#[trigger] r@[q]) < ts@.len() && ts@[r@[q] as int].inputs_exist && !ts@[r@[q] as int].terminal
                && !ts@[r@[q] as int].gating,
        forall|q: int| 0 <= q < r@.len() ==> ready(ts@, (#[trigger] r@[q]) as int, now) && (match pick { Pick::Ready => true, Pick::Runnable => ts@[r@[q] as int].assignee is None, Pick::Claimed => ts@[r@[q] as int].assignee is Some, Pick::Claimable => ts@[r@[q] as int].assignee is None && ts@[r@[q] as int].initial }),
        forall|a: int, b: int| 0 <= a < b < r@.len() ==> r@[a] < r@[b],
        forall|x: int|
            0 <= x < ts@.len() && ready(ts@, x, now) && (match pick { Pick::Ready => true, Pick::Runnable => ts@[x].assignee is None, Pick::Claimed => ts@[x].assignee is Some, Pick::Claimable => ts@[x].assignee is None && ts@[x].initial }) ==> #[trigger] r@.contains(x as usize),
{
    let mut out: Vec<usize> = Vec::new();
    let mut i: usize = 0;
    while i < ts.len()
        invariant
            forall|q: int|
                0 <= q < out@.len() ==> (#[trigger] out@[q]) < ts@.len() && ts@[out@[q] as int].inputs_exist
                    && !ts@[out@[q] as int].terminal && !ts@[out@[q] as int].gating,
            forall|q: int| 0 <= q < out@.len() ==> (#[trigger] out@[q]) < i && ready(ts@, out@[q] as int, now) && (match pick { Pick::Ready => true, Pick::Runnable => ts@[out@[q] as int].assignee is None, Pick::Claimed => ts@[out@[q] as int].assignee is Some, Pick::Claimable => ts@[out@[q] as int].assignee is None && ts@[out@[q] as int].initial }),
            forall|a: int, b: int| 0 <= a < b < out@.len() ==> out@[a] < out@[b],
            forall|x: int|
                0 <= x < i && ready(ts@, x, now) && (match pick { Pick::Ready => true, Pick::Runnable => ts@[x].assignee is None, Pick::Claimed => ts@[x].assignee is Some, Pick::Claimable => ts@[x].assignee is None && ts@[x].initial }) ==> #[trigger] out@.contains(x as usize),
            i <= ts@.len(),
            out@.len() == picks(ts@, now, pick, i as int).len(),
            forall|q: int| 0 <= q < out@.len() ==> (#[trigger] out@[q]) as int == picks(ts@, now, pick, i as int)[q],
        decreases ts@.len() - i,
    {
        let r = is_ready(ts, i, now);
        let take = r && match pick {
            Pick::Ready => true,
            Pick::Runnable => ts[i].assignee.is_none(),
            Pick::Claimed => ts[i].assignee.is_some(),
            Pick::Claimable => ts[i].assignee.is_none() && ts[i].initial,
        };
        let ghost before = out@;
        if take {
            out.push(i);
        }
        proof {
            assert forall|x: int|
                0 <= x < i + 1 && ready(ts@, x, now) && (match pick { Pick::Ready => true, Pick::Runnable => ts@[x].assignee is None, Pick::Claimed => ts@[x].assignee is Some, Pick::Claimable => ts@[x].assignee is None && ts@[x].initial }) implies #[trigger] out@.contains(x as usize) by {
                if x < i {
                    assert(before.contains(x as usize));
                    let w = choose|w: int| 0 <= w < before.len() && before[w] == x as usize;
                    assert(out@[w] == x as usize);
                } else {
                    assert(out@[out@.len() - 1] == x as usize);
                }
            }
        }
        i += 1;
    }
    out
}

/// The ready set, in plan order.
pub fn find_ready_tasks(ts: &Vec<TaskFacts>, now: u64) -> (r: Vec<usize>)
    ensures
        r@.len() == picks(ts@, now, Pick::Ready, ts@.len() as int).len(),
        forall|q: int| 0 <= q < r@.len() ==> (#[trigger] r@[q]) as int == picks(ts@, now, Pick::Ready, ts@.len() as int)[q],
        forall|q: int|
            0 <= q < r@.len() ==> (#[trigger] r@[q]) < ts@.len() && ts@[r@[q] as int].inputs_exist && !ts@[r@[q] as int].terminal
                && !ts@[r@[q] as int].gating,
        forall|q: int| 0 <= q < r@.len() ==> ready(ts@, (#[trigger] r@[q]) as int, now) && (true),
        forall|a: int, b: int| 0 <= a < b < r@.len() ==> r@[a] < r@[b],
        forall|x: int| 0 <= x < ts@.len() && ready(ts@, x, now) && (true) ==> #[trigger] r@.contains(x as usize),
{
    pick_tasks(ts, now, Pick::Ready)
}

/// What `rhei run` may schedule: ready and unclaimed, so a manual claim is
/// never stolen.
pub fn find_runnable_tasks(ts: &Vec<TaskFacts>, now: u64) -> (r: Vec<usize>)
    ensures
        r@.len() == picks(ts@, now, Pick::Runnable, ts@.len() as int).len(),
        forall|q: int|
            0 <= q < r@.len() ==> (#[trigger] r@[q]) as int == picks(ts@, now, Pick::Runnable, ts@.len() as int)[q],
        forall|q: int| 0 <= q < r@.len() ==> ready(ts@, (#[trigger] r@[q]) as int, now) && (ts@[r@[q] as int].assignee is None),
        forall|a: int, b: int| 0 <= a < b < r@.len() ==> r@[a] < r@[b],
        forall|x: int| 0 <= x < ts@.len() && ready(ts@, x, now) && (ts@[x].assignee is None) ==> #[trigger] r@.contains(x as usize),
{
    pick_tasks(ts, now, Pick::Runnable)
}

/// Ready tickets a run will not touch because someone holds them.
pub fn find_held_tasks(ts: &Vec<TaskFacts>, now: u64) -> (r: Vec<usize>)
    ensures
        r@.len() == picks(ts@, now, Pick::Claimed, ts@.len() as int).len(),
        forall|q: int|
            0 <= q < r@.len() ==> (#[trigger] r@[q]) as int == picks(ts@, now, Pick::Claimed, ts@.len() as int)[q],
        forall|q: int| 0 <= q < r@.len() ==> ready(ts@, (#[trigger] r@[q]) as int, now) && (ts@[r@[q] as int].assignee is Some),
        forall|a: int, b: int| 0 <= a < b < r@.len() ==> r@[a] < r@[b],
        forall|x: int| 0 <= x < ts@.len() && ready(ts@, x, now) && (ts@[x].assignee is Some) ==> #[trigger] r@.contains(x as usize),
{
    pick_tasks(ts, now, Pick::Claimed)
}

/// What `rhei next` may claim: ready, unclaimed, in the initial state.
pub fn find_claimable_tasks(ts: &Vec<TaskFacts>, now: u64) -> (r: Vec<usize>)
    ensures
        r@.len() == picks(ts@, now, Pick::Claimable, ts@.len() as int).len(),
        forall|q: int|
            0 <= q < r@.len() ==> (#[trigger] r@[q]) as int == picks(ts@, now, Pick::Claimable, ts@.len() as int)[q],
        forall|q: int| 0 <= q < r@.len() ==> ready(ts@, (#[trigger] r@[q]) as int, now) && (ts@[r@[q] as int].assignee is None && ts@[r@[q] as int].initial),
        forall|a: int, b: int| 0 <= a < b < r@.len() ==> r@[a] < r@[b],
        forall|x: int| 0 <= x < ts@.len() && ready(ts@, x, now) && (ts@[x].assignee is None && ts@[x].initial) ==> #[trigger] r@.contains(x as usize),
{
    pick_tasks(ts, now, Pick::Claimable)
}


// ---------------------------------------------------------------------------
// Open descendants
// ---------------------------------------------------------------------------

/// The open tickets among the first `k` in the subtree of `i`, in preorder.
pub open spec fn open_desc(ts: Seq<TaskFacts>, i: int, k: int) -> Seq<int>
    decreases k,
{
    if k <= 0 {
        Seq::empty()
    } else if descendant(ts, i, k - 1) && !ts[k - 1].terminal {
        open_desc(ts, i, k - 1).push(k - 1)
    } else {
        open_desc(ts, i, k - 1)
    }
}

proof fn lemma_open_desc_none_before(ts: Seq<TaskFacts>, i: int, k: int)
    requires
        k <= i + 1,
    ensures
        open_desc(ts, i, k) == Seq::<int>::empty(),
    decreases k,
{
    if k > 0 {
        lemma_open_desc_none_before(ts, i, k - 1);
    }
}

proof fn lemma_open_desc_none_after(ts: Seq<TaskFacts>, i: int, stop: int, k: int)
    requires
        0 <= i < stop <= k <= ts.len(),
        stop < ts.len() ==> ts[stop].depth <= ts[i].depth,
    ensures
        open_desc(ts, i, k) == open_desc(ts, i, stop),
    decreases k,
{
    if k > stop {
        lemma_open_desc_none_after(ts, i, stop, k - 1);
        if descendant(ts, i, k - 1) {
            assert(ts[stop].depth > ts[i].depth);
        }
    }
}

/// The tickets below `i` that are not terminal, in preorder.
pub fn open_descendant_tasks(ts: &Vec<TaskFacts>, i: usize) -> (r: Vec<usize>)
    requires
        i < ts@.len(),
    ensures
        r@.len() == open_desc(ts@, i as int, ts@.len() as int).len(),
        forall|q: int| 0 <= q < r@.len() ==> (#[trigger] r@[q]) as int == open_desc(ts@, i as int, ts@.len() as int)[q],
{
    let d = ts[i].depth;
    let n = ts.len();
    let mut out: Vec<usize> = Vec::new();
    let mut j: usize = i + 1;
    proof {
        lemma_open_desc_none_before(ts@, i as int, i + 1);
    }
    while j < n && ts[j].depth > d
        invariant
            n == ts@.len(),
            i < j <= n,
            d == ts@[i as int].depth,
            forall|k: int| i < k < j ==> (#[trigger] ts@[k]).depth > d,
            out@.len() == open_desc(ts@, i as int, j as int).len(),
            forall|q: int| 0 <= q < out@.len() ==> (#[trigger] out@[q]) as int == open_desc(ts@, i as int, j as int)[q],
        decreases n - j,
    {
        assert(descendant(ts@, i as int, j as int));
        if !ts[j].terminal {
            out.push(j);
        }
        j += 1;
    }
    proof {
        lemma_open_desc_none_after(ts@, i as int, j as int, n as int);
    }
    out
}

/// `Task <id> (<state>)`.
pub open spec fn task_label(t: TaskFacts) -> Seq<char> {
    "Task "@ + t.id@ + " ("@ + t.state@ + ")"@
}

/// At most three items joined by `, `, with a `(+N more)` tail for the
/// rest: the shape every ticket list of a pass report takes.
pub open spec fn capped(items: Seq<Seq<char>>) -> Seq<char> {
    if items.len() > 3 {
        join(items.take(3), ", "@) + " (+"@ + decimal((items.len() - 3) as nat) + " more)"@
    } else {
        join(items, ", "@)
    }
}

/// Join at most three items, then say how many more there are.
pub fn capped_list(items: &Vec<String>) -> (r: String)
    ensures
        r@ == capped(Seq::new(items@.len(), |q: int| items@[q]@)),
{
    let ghost iv = Seq::new(items@.len(), |q: int| items@[q]@);
    if items.len() > 3 {
        let mut first: Vec<String> = Vec::new();
        let mut q: usize = 0;
        while q < 3
            invariant
                q <= 3 < items@.len(),
                iv == Seq::new(items@.len(), |q: int| items@[q]@),
                first@.len() == q,
                forall|x: int| 0 <= x < q ==> (#[trigger] first@[x])@ == iv[x],
            decreases 3 - q,
        {
            first.push(String::from_str(items[q].as_str()));
            q += 1;
        }
        let mut out = join_strings(&first, ", ");
        proof {
            assert(first@.map_values(|p: String| p@) =~= iv.take(3));
        }
        push_str(&mut out, " (+");
        let rest = u64_to_string((items.len() - 3) as u64);
        push_str(&mut out, rest.as_str());
        push_str(&mut out, " more)");
        out
    } else {
        proof {
            assert(items@.map_values(|p: String| p@) =~= iv);
        }
        join_strings(items, ", ")
    }
}

fn label_of(t: &TaskFacts) -> (r: String)
    ensures
        r@ == task_label(*t),
{
    let mut out = String::from_str("Task ");
    push_str(&mut out, t.id.as_str());
    push_str(&mut out, " (");
    push_str(&mut out, t.state.as_str());
    push_str(&mut out, ")");
    out
}

/// `Task <id> (<state>)` for each open descendant, capped at three.
pub fn format_open_descendants(ts: &Vec<TaskFacts>, open: &Vec<usize>) -> (r: String)
    requires
        forall|q: int| 0 <= q < open@.len() ==> (#[trigger] open@[q]) < ts@.len(),
    ensures
        r@ == capped(Seq::new(open@.len(), |q: int| task_label(ts@[open@[q] as int]))),
{
    let mut labels: Vec<String> = Vec::new();
    let mut q: usize = 0;
    while q < open.len()
        invariant
            q <= open@.len(),
            forall|x: int| 0 <= x < open@.len() ==> (#[trigger] open@[x]) < ts@.len(),
            labels@.len() == q,
            forall|x: int| 0 <= x < q ==> (#[trigger] labels@[x])@ == task_label(ts@[open@[x] as int]),
        decreases open@.len() - q,
    {
        labels.push(label_of(&ts[open[q]]));
        q += 1;
    }
    assert(Seq::new(labels@.len(), |x: int| labels@[x]@) =~= Seq::new(
        open@.len(),
        |x: int| task_label(ts@[open@[x] as int]),
    ));
    capped_list(&labels)
}


// ---------------------------------------------------------------------------
// Priors
// ---------------------------------------------------------------------------

/// How an unsatisfied prior is named: `Task <id> (<state>)`, with a note
/// when `scoped` and the prior lies outside the `--rhei` scope, or
/// `Task <id> (missing)` for an id the plan does not have; `None` for a
/// satisfied prior.
pub open spec fn prior_block(ts: Seq<TaskFacts>, p: Seq<char>, scoped: bool) -> Option<Seq<char>> {
    match find(ts, p) {
        Some(k) => if satisfied(ts[k]) {
            None
        } else {
            Some(
                "Task "@ + p + " ("@ + ts[k].state@ + (if scoped && !ts[k].in_scope {
                    ", outside the --rhei scope"@
                } else {
                    Seq::empty()
                }) + ")"@,
            )
        },
        None => Some("Task "@ + p + " (missing)"@),
    }
}

/// Every unsatisfied prior among the first `k`, named.
pub open spec fn blocking(ts: Seq<TaskFacts>, priors: Seq<String>, k: int) -> Seq<Seq<char>>
    decreases k,
{
    if k <= 0 {
        Seq::empty()
    } else {
        match prior_block(ts, priors[k - 1]@, false) {
            Some(b) => blocking(ts, priors, k - 1).push(b),
            None => blocking(ts, priors, k - 1),
        }
    }
}

/// The first unsatisfied prior among the first `k`, named.
pub open spec fn first_blocking(ts: Seq<TaskFacts>, priors: Seq<String>, k: int) -> Option<Seq<char>>
    decreases k,
{
    if k <= 0 {
        None
    } else {
        match first_blocking(ts, priors, k - 1) {
            Some(b) => Some(b),
            None => prior_block(ts, priors[k - 1]@, true),
        }
    }
}

fn prior_block_exec(ts: &Vec<TaskFacts>, p: &str, scoped: bool) -> (r: Option<String>)
    ensures
        match r {
            Some(b) => prior_block(ts@, p@, scoped) == Some(b@),
            None => prior_block(ts@, p@, scoped) is None,
        },
{
    match find_task(ts, p) {
        Some(k) => {
            if dependency_is_satisfied(&ts[k]) {
                None
            } else {
                let mut out = String::from_str("Task ");
                push_str(&mut out, p);
                push_str(&mut out, " (");
                push_str(&mut out, ts[k].state.as_str());
                if scoped && !ts[k].in_scope {
                    push_str(&mut out, ", outside the --rhei scope");
                }
                push_str(&mut out, ")");
                Some(out)
            }
        },
        None => {
            let mut out = String::from_str("Task ");
            push_str(&mut out, p);
            push_str(&mut out, " (missing)");
            Some(out)
        },
    }
}

/// Every unsatisfied prior of ticket `i`, judged as readiness judges it.
pub fn blocking_priors(ts: &Vec<TaskFacts>, i: usize) -> (r: Vec<String>)
    requires
        i < ts@.len(),
    ensures
        Seq::new(r@.len(), |q: int| r@[q]@) == blocking(ts@, ts@[i as int].priors@, ts@[i as int].priors@.len() as int),
{
    let priors = &ts[i].priors;
    let mut out: Vec<String> = Vec::new();
    let mut k: usize = 0;
    assert(Seq::new(out@.len(), |q: int| out@[q]@) =~= Seq::<Seq<char>>::empty());
    while k < priors.len()
        invariant
            priors == &ts@[i as int].priors,
            k <= priors@.len(),
            Seq::new(out@.len(), |q: int| out@[q]@) == blocking(ts@, priors@, k as int),
        decreases priors@.len() - k,
    {
        match prior_block_exec(ts, priors[k].as_str(), false) {
            Some(b) => {
                out.push(b);
                assert(Seq::new(out@.len(), |q: int| out@[q]@) =~= blocking(ts@, priors@, k + 1));
            },
            None => {},
        }
        k += 1;
    }
    out
}

/// The first unsatisfied prior of ticket `i`, noting one outside the
/// `--rhei` scope (which narrows candidates, never prior resolution).
pub fn first_blocking_prior(ts: &Vec<TaskFacts>, i: usize) -> (r: Option<String>)
    requires
        i < ts@.len(),
    ensures
        match r {
            Some(b) => first_blocking(ts@, ts@[i as int].priors@, ts@[i as int].priors@.len() as int) == Some(b@),
            None => first_blocking(ts@, ts@[i as int].priors@, ts@[i as int].priors@.len() as int) is None,
        },
{
    let priors = &ts[i].priors;
    let mut k: usize = 0;
    while k < priors.len()
        invariant
            priors == &ts@[i as int].priors,
            k <= priors@.len(),
            first_blocking(ts@, priors@, k as int) is None,
        decreases priors@.len() - k,
    {
        match prior_block_exec(ts, priors[k].as_str(), true) {
            Some(b) => {
                proof {
                    lemma_first_blocking_stays(ts@, priors@, k + 1, priors@.len() as int);
                }
                return Some(b);
            },
            None => {},
        }
        k += 1;
    }
    None
}

proof fn lemma_first_blocking_stays(ts: Seq<TaskFacts>, priors: Seq<String>, k: int, n: int)
    requires
        0 <= k <= n,
        first_blocking(ts, priors, k) is Some,
    ensures
        first_blocking(ts, priors, n) == first_blocking(ts, priors, k),
    decreases n - k,
{
    if n > k {
        lemma_first_blocking_stays(ts, priors, k, n - 1);
    }
}

// ---------------------------------------------------------------------------
// Held tickets and supervisor holds
// ---------------------------------------------------------------------------

/// `Task <id> (assignee <who>)`, `?` for an unknown holder.
pub open spec fn held_label(t: TaskFacts) -> Seq<char> {
    "Task "@ + t.id@ + " (assignee "@ + match t.assignee {
        Some(a) => a@,
        None => "?"@,
    } + ")"@
}

/// One line naming every held ticket and who holds it.
pub fn format_held_tasks(ts: &Vec<TaskFacts>, held: &Vec<usize>) -> (r: String)
    requires
        forall|q: int| 0 <= q < held@.len() ==> (#[trigger] held@[q]) < ts@.len(),
    ensures
        r@ == join(Seq::new(held@.len(), |q: int| held_label(ts@[held@[q] as int])), ", "@),
{
    let mut labels: Vec<String> = Vec::new();
    let mut q: usize = 0;
    while q < held.len()
        invariant
            q <= held@.len(),
            forall|x: int| 0 <= x < held@.len() ==> (#[trigger] held@[x]) < ts@.len(),
            labels@.len() == q,
            forall|x: int| 0 <= x < q ==> (#[trigger] labels@[x])@ == held_label(ts@[held@[x] as int]),
        decreases held@.len() - q,
    {
        let t = &ts[held[q]];
        let mut l = String::from_str("Task ");
        push_str(&mut l, t.id.as_str());
        push_str(&mut l, " (assignee ");
        match &t.assignee {
            Some(a) => push_str(&mut l, a.as_str()),
            None => push_str(&mut l, "?"),
        }
        push_str(&mut l, ")");
        labels.push(l);
        q += 1;
    }
    proof {
        assert(labels@.map_values(|p: String| p@) =~= Seq::new(
            held@.len(),
            |x: int| held_label(ts@[held@[x] as int]),
        ));
    }
    join_strings(&labels, ", ")
}

/// Where `s` first stands among the supervisors counted so far.
pub open spec fn holder_index(counts: Seq<(Seq<char>, nat)>, s: Seq<char>, k: int) -> Option<int>
    decreases k,
{
    if k <= 0 {
        None
    } else {
        match holder_index(counts, s, k - 1) {
            Some(x) => Some(x),
            None => if counts[k - 1].0 == s {
                Some(k - 1)
            } else {
                None
            },
        }
    }
}

/// The held, in-scope, open tickets among the first `k`, counted per
/// holding supervisor in the order supervisors first appear.
pub open spec fn holds(ts: Seq<TaskFacts>, k: int) -> Seq<(Seq<char>, nat)>
    decreases k,
{
    if k <= 0 {
        Seq::empty()
    } else {
        let prev = holds(ts, k - 1);
        let t = ts[k - 1];
        if t.in_scope && !t.terminal && t.held_by is Some {
            let s = t.held_by->0@;
            match holder_index(prev, s, prev.len() as int) {
                Some(x) => prev.update(x, (s, prev[x].1 + 1)),
                None => prev.push((s, 1nat)),
            }
        } else {
            prev
        }
    }
}

/// `<n> ticket(s) held by supervisor Task <id>`.
pub open spec fn hold_line(h: (Seq<char>, nat)) -> Seq<char> {
    decimal(h.1) + " ticket(s) held by supervisor Task "@ + h.0
}

proof fn lemma_holder_index_found(counts: Seq<(Seq<char>, nat)>, s: Seq<char>, k: int, x: int)
    requires
        0 <= x < k <= counts.len(),
        counts[x].0 == s,
        forall|y: int| 0 <= y < x ==> counts[y].0 != s,
    ensures
        holder_index(counts, s, k) == Some(x),
    decreases k,
{
    if k - 1 > x {
        lemma_holder_index_found(counts, s, k - 1, x);
    } else {
        lemma_holder_index_absent(counts, s, x);
    }
}

proof fn lemma_holder_index_absent(counts: Seq<(Seq<char>, nat)>, s: Seq<char>, k: int)
    requires
        0 <= k <= counts.len(),
        forall|y: int| 0 <= y < k ==> counts[y].0 != s,
    ensures
        holder_index(counts, s, k) is None,
    decreases k,
{
    if k > 0 {
        lemma_holder_index_absent(counts, s, k - 1);
    }
}

/// One line per supervisor whose hold is stopping tickets this pass, in
/// the order the supervisors first appear.
pub fn format_supervisor_holds(ts: &Vec<TaskFacts>) -> (r: Vec<String>)
    ensures
        r@.len() == holds(ts@, ts@.len() as int).len(),
        forall|q: int| 0 <= q < r@.len() ==> (#[trigger] r@[q])@ == hold_line(holds(ts@, ts@.len() as int)[q]),
{
    let mut names: Vec<String> = Vec::new();
    let mut counts: Vec<usize> = Vec::new();
    let mut i: usize = 0;
    while i < ts.len()
        invariant
            i <= ts@.len(),
            names@.len() == counts@.len(),
            names@.len() == holds(ts@, i as int).len(),
            names@.len() <= i,
            forall|q: int| 0 <= q < names@.len() ==> (#[trigger] names@[q])@ == holds(ts@, i as int)[q].0
                && counts@[q] as nat == holds(ts@, i as int)[q].1 && counts@[q] <= i,
            forall|a: int, b: int| 0 <= a < b < names@.len() ==> names@[a]@ != names@[b]@,
        decreases ts@.len() - i,
    {
        let t = &ts[i];
        let ghost prev = holds(ts@, i as int);
        if t.in_scope && !t.terminal {
            if let Some(s) = &t.held_by {
                let mut x: usize = 0;
                let mut found = false;
                while x < names.len() && !found
                    invariant
                        x <= names@.len(),
                        found ==> x >= 1 && names@[x - 1]@ == s@,
                        forall|y: int| 0 <= y < (if found { x - 1 } else { x as int }) ==> names@[y]@ != s@,
                    decreases names@.len() - x + if found { 0int } else { 1int },
                {
                    if str_eq(names[x].as_str(), s.as_str()) {
                        found = true;
                    }
                    x += 1;
                }
                if found {
                    let at = x - 1;
                    proof {
                        assert forall|y: int| 0 <= y < at implies prev[y].0 != s@ by {
                            assert(names@[y]@ == prev[y].0);
                        }
                        lemma_holder_index_found(prev, s@, prev.len() as int, at as int);
                    }
                    let c = counts[at];
                    counts.set(at, c + 1);
                } else {
                    proof {
                        assert forall|y: int| 0 <= y < prev.len() implies prev[y].0 != s@ by {
                            assert(names@[y]@ == prev[y].0);
                        }
                        lemma_holder_index_absent(prev, s@, prev.len() as int);
                    }
                    names.push(String::from_str(s.as_str()));
                    counts.push(1);
                }
            }
        }
        i += 1;
    }
    let mut out: Vec<String> = Vec::new();
    let mut q: usize = 0;
    while q < names.len()
        invariant
            q <= names@.len(),
            names@.len() == counts@.len(),
            names@.len() == holds(ts@, ts@.len() as int).len(),
            forall|x: int| 0 <= x < names@.len() ==> (#[trigger] names@[x])@ == holds(ts@, ts@.len() as int)[x].0
                && counts@[x] as nat == holds(ts@, ts@.len() as int)[x].1,
            out@.len() == q,
            forall|x: int| 0 <= x < q ==> (#[trigger] out@[x])@ == hold_line(holds(ts@, ts@.len() as int)[x]),
        decreases names@.len() - q,
    {
        let mut l = u64_to_string(counts[q] as u64);
        push_str(&mut l, " ticket(s) held by supervisor Task ");
        push_str(&mut l, names[q].as_str());
        out.push(l);
        q += 1;
    }
    out
}


// ---------------------------------------------------------------------------
// What is left of a pass
// ---------------------------------------------------------------------------

/// The number of terminal tickets among the first `k`.
pub open spec fn terminal_count(ts: Seq<TaskFacts>, k: int) -> nat
    decreases k,
{
    if k <= 0 {
        0
    } else {
        terminal_count(ts, k - 1) + if ts[k - 1].terminal {
            1nat
        } else {
            0nat
        }
    }
}

/// How many tickets of the plan are terminal.
pub fn terminal_task_count(ts: &Vec<TaskFacts>) -> (r: usize)
    ensures
        r == terminal_count(ts@, ts@.len() as int),
{
    let mut n: usize = 0;
    let mut i: usize = 0;
    while i < ts.len()
        invariant
            i <= ts@.len(),
            n == terminal_count(ts@, i as int),
            n <= i,
        decreases ts@.len() - i,
    {
        if ts[i].terminal {
            n += 1;
        }
        i += 1;
    }
    n
}

/// Whether any in-scope ticket is not terminal yet: a narrowed run answers
/// only for its own scope.
pub fn scoped_unfinished_task_exists(ts: &Vec<TaskFacts>) -> (r: bool)
    ensures
        r == exists|i: int| 0 <= i < ts@.len() && (#[trigger] ts@[i]).in_scope && !ts@[i].terminal,
{
    let mut i: usize = 0;
    while i < ts.len()
        invariant
            i <= ts@.len(),
            forall|q: int| 0 <= q < i ==> !((#[trigger] ts@[q]).in_scope && !ts@[q].terminal),
        decreases ts@.len() - i,
    {
        if ts[i].in_scope && !ts[i].terminal {
            return true;
        }
        i += 1;
    }
    false
}

/// Whether any ticket waits in a gating state that is not terminal: work
/// only a human decision can move.
pub fn has_pending_human_gate(ts: &Vec<TaskFacts>) -> (r: bool)
    ensures
        r == exists|i: int| 0 <= i < ts@.len() && (#[trigger] ts@[i]).gating && !ts@[i].terminal,
{
    let mut i: usize = 0;
    while i < ts.len()
        invariant
            i <= ts@.len(),
            forall|q: int| 0 <= q < i ==> !((#[trigger] ts@[q]).gating && !ts@[q].terminal),
        decreases ts@.len() - i,
    {
        if ts[i].gating && !ts[i].terminal {
            return true;
        }
        i += 1;
    }
    false
}

/// A poll deadline of an in-scope ticket still ahead of `now`.
pub open spec fn pending_deadline(t: TaskFacts, now: u64) -> Option<u64> {
    if t.in_scope && poll_pending(t, now) {
        t.next_attempt_at
    } else {
        None
    }
}

/// The earliest pending deadline among the first `k` tickets.
pub open spec fn earliest(ts: Seq<TaskFacts>, now: u64, k: int) -> Option<u64>
    decreases k,
{
    if k <= 0 {
        None
    } else {
        match (earliest(ts, now, k - 1), pending_deadline(ts[k - 1], now)) {
            (Some(a), Some(b)) => Some(if b < a {
                b
            } else {
                a
            }),
            (Some(a), None) => Some(a),
            (None, b) => b,
        }
    }
}

/// When the next in-scope poll comes due, if one is pending: out-of-scope
/// deadlines do not keep a narrowed run alive.
pub fn earliest_pending_poll_deadline(ts: &Vec<TaskFacts>, now: u64) -> (r: Option<u64>)
    ensures
        r == earliest(ts@, now, ts@.len() as int),
{
    let mut best: Option<u64> = None;
    let mut i: usize = 0;
    while i < ts.len()
        invariant
            i <= ts@.len(),
            best == earliest(ts@, now, i as int),
        decreases ts@.len() - i,
    {
        let t = &ts[i];
        let here = if t.in_scope && t.polling {
            match t.next_attempt_at {
                Some(d) => if d > now {
                    Some(d)
                } else {
                    None
                },
                None => None,
            }
        } else {
            None
        };
        best = match (best, here) {
            (Some(a), Some(b)) => Some(if b < a {
                b
            } else {
                a
            }),
            (Some(a), None) => Some(a),
            (None, b) => b,
        };
        i += 1;
    }
    best
}

/// What keeps ticket `i` from moving, for the no-work summary: an open
/// in-scope unclaimed ticket with a closed subtree, named with its first
/// unsatisfied prior, else the person its state waits on.
pub open spec fn blocked_item(ts: Seq<TaskFacts>, i: int) -> Option<Seq<char>> {
    let t = ts[i];
    if !any_open(ts, i) && t.in_scope && !t.terminal && t.assignee is None {
        match first_blocking(ts, t.priors@, t.priors@.len() as int) {
            Some(b) => Some("Task "@ + t.id@ + " waiting on "@ + b),
            None => match t.waiting_on_person {
                Some(w) => Some("Task "@ + t.id@ + " waiting on "@ + w@),
                None => None,
            },
        }
    } else {
        None
    }
}

pub open spec fn blocked_items(ts: Seq<TaskFacts>, k: int) -> Seq<Seq<char>>
    decreases k,
{
    if k <= 0 {
        Seq::empty()
    } else {
        match blocked_item(ts, k - 1) {
            Some(b) => blocked_items(ts, k - 1).push(b),
            None => blocked_items(ts, k - 1),
        }
    }
}

/// The no-work line of a pass: the plain sentence project-wide; under
/// `--rhei`, the scope and up to three blocked in-scope tickets.
pub open spec fn no_advancement_spec(ts: Seq<TaskFacts>, scope_label: Option<Seq<char>>) -> Seq<char> {
    match scope_label {
        None => "No tasks could be advanced."@,
        Some(l) => {
            let items = blocked_items(ts, ts.len() as int);
            "No tasks could be advanced in the --rhei scope ("@ + l + ")"@ + (if items.len() == 0 {
                Seq::empty()
            } else {
                ": "@ + capped(items)
            }) + "."@
        },
    }
}

fn blocked_item_exec(ts: &Vec<TaskFacts>, i: usize) -> (r: Option<String>)
    requires
        i < ts@.len(),
    ensures
        match r {
            Some(b) => blocked_item(ts@, i as int) == Some(b@),
            None => blocked_item(ts@, i as int) is None,
        },
{
    let t = &ts[i];
    if any_open_descendant(ts, i) || !t.in_scope || t.terminal || t.assignee.is_some() {
        return None;
    }
    let waiting = match first_blocking_prior(ts, i) {
        Some(b) => b,
        None => match &t.waiting_on_person {
            Some(w) => String::from_str(w.as_str()),
            None => {
                return None;
            },
        },
    };
    let mut out = String::from_str("Task ");
    push_str(&mut out, t.id.as_str());
    push_str(&mut out, " waiting on ");
    push_str(&mut out, waiting.as_str());
    Some(out)
}

/// One line saying that nothing could be advanced; `scope_label` names the
/// `--rhei` scope when the run is narrowed.
pub fn no_advancement_summary(ts: &Vec<TaskFacts>, scope_label: Option<&str>) -> (r: String)
    ensures
        r@ == no_advancement_spec(
            ts@,
            match scope_label {
                Some(l) => Some(l@),
                None => None,
            },
        ),
{
    let label = match scope_label {
        None => {
            return String::from_str("No tasks could be advanced.");
        },
        Some(l) => l,
    };
    let mut items: Vec<String> = Vec::new();
    let mut i: usize = 0;
    assert(Seq::new(items@.len(), |q: int| items@[q]@) =~= Seq::<Seq<char>>::empty());
    while i < ts.len()
        invariant
            i <= ts@.len(),
            Seq::new(items@.len(), |q: int| items@[q]@) == blocked_items(ts@, i as int),
        decreases ts@.len() - i,
    {
        match blocked_item_exec(ts, i) {
            Some(b) => {
                items.push(b);
                assert(Seq::new(items@.len(), |q: int| items@[q]@) =~= blocked_items(ts@, i + 1));
            },
            None => {},
        }
        i += 1;
    }
    let mut out = String::from_str("No tasks could be advanced in the --rhei scope (");
    push_str(&mut out, label);
    push_str(&mut out, ")");
    if items.len() > 0 {
        push_str(&mut out, ": ");
        let c = capped_list(&items);
        push_str(&mut out, c.as_str());
    }
    push_str(&mut out, ".");
    out
}

// ---------------------------------------------------------------------------
// Laws
// ---------------------------------------------------------------------------

/// The ready set splits into what a run schedules and what it reports as
/// held, by whether a ticket is claimed; what `rhei next` may claim is
/// always something a run could schedule.
pub proof fn lemma_ready_partition(ts: Seq<TaskFacts>, i: int, now: u64)
    requires
        0 <= i < ts.len(),
    ensures
        picked(ts, i, now, Pick::Ready) <==> (picked(ts, i, now, Pick::Runnable) || picked(
            ts,
            i,
            now,
            Pick::Claimed,
        )),
        !(picked(ts, i, now, Pick::Runnable) && picked(ts, i, now, Pick::Claimed)),
        picked(ts, i, now, Pick::Claimable) ==> picked(ts, i, now, Pick::Runnable),
{
}

/// A ticket whose state's required inputs are not on disk is never ready,
/// whatever else holds of it.
pub proof fn lemma_missing_inputs_never_ready(ts: Seq<TaskFacts>, i: int, now: u64)
    requires
        0 <= i < ts.len(),
        !ts[i].inputs_exist,
    ensures
        !ready(ts, i, now),
{
}

/// A parent is never worked beside its own child: outside supervision, a
/// ready ticket's whole subtree is terminal, so nothing under it is ready.
pub proof fn lemma_parent_never_beside_child(ts: Seq<TaskFacts>, i: int, j: int, now: u64)
    requires
        descendant(ts, i, j),
        ts[i].supervision == Supervision::Unsupervised,
        ready(ts, i, now),
    ensures
        ts[j].terminal,
        !ready(ts, j, now),
{
}

/// Every ready ticket has all of its priors satisfied, and none of them is
/// missing from the plan or cancelled.
pub proof fn lemma_ready_priors_satisfied(ts: Seq<TaskFacts>, i: int, now: u64, p: int)
    requires
        0 <= i < ts.len(),
        ready(ts, i, now),
        0 <= p < ts[i].priors@.len(),
    ensures
        find(ts, ts[i].priors@[p]@) matches Some(k) && ts[k].terminal && !ts[k].cancelled,
{
}


/// Some ticket with id `x` is in a terminal state.
pub open spec fn is_terminal_id(ts: Seq<TaskFacts>, x: Seq<char>) -> bool {
    exists|i: int| 0 <= i < ts.len() && ts[i].terminal && ts[i].id@ == x
}

/// The ids of the tickets whose state is terminal, each once, in the order
/// ids sort.
pub fn terminal_ticket_ids(ts: &Vec<TaskFacts>) -> (r: Vec<String>)
    ensures
        crate::order::strictly_ascending(crate::order::texts(r@)),
        forall|k: int| 0 <= k < r@.len() ==> is_terminal_id(ts@, #[trigger] crate::order::texts(r@)[k]),
        forall|i: int| 0 <= i < ts@.len() && (#[trigger] ts@[i]).terminal ==> crate::order::texts(r@).contains(ts@[i].id@),
{
    let mut ids: Vec<String> = Vec::new();
    let mut from: Vec<usize> = Vec::new();
    let mut i: usize = 0;
    while i < ts.len()
        invariant
            i <= ts@.len(),
            ids@.len() == from@.len(),
            forall|k: int| 0 <= k < ids@.len() ==> (#[trigger] from@[k]) < i && ts@[from@[k] as int].terminal
                && ids@[k]@ == ts@[from@[k] as int].id@,
            forall|j: int| 0 <= j < i && (#[trigger] ts@[j]).terminal ==> exists|k: int| 0 <= k < ids@.len() && from@[k] == j,
        decreases ts@.len() - i,
    {
        let ghost old_from = from@;
        if ts[i].terminal {
            ids.push(String::from_str(ts[i].id.as_str()));
            from.push(i);
        }
        proof {
            assert forall|j: int| 0 <= j < i + 1 && (#[trigger] ts@[j]).terminal implies exists|k: int|
                0 <= k < ids@.len() && from@[k] == j by {
                if j == i {
                    assert(from@[from@.len() - 1] == i);
                } else {
                    let k = choose|k: int| 0 <= k < old_from.len() && old_from[k] == j;
                    assert(from@[k] == old_from[k]);
                }
            }
        }
        i += 1;
    }
    let out = crate::order::sorted_distinct(&ids);
    proof {
        let ks = crate::order::texts(ids@);
        let os = crate::order::texts(out@);
        assert forall|k: int| 0 <= k < out@.len() implies is_terminal_id(ts@, #[trigger] crate::order::texts(out@)[k]) by {
            assert(ks.contains(os[k]));
            let x = choose|x: int| 0 <= x < ks.len() && ks[x] == os[k];
            assert(ks[x] == ids@[x]@);
            let w = from@[x] as int;
            assert(0 <= w < ts@.len() && ts@[w].terminal && ts@[w].id@ == os[k]);
        }
        assert forall|i: int| 0 <= i < ts@.len() && (#[trigger] ts@[i]).terminal implies crate::order::texts(out@).contains(ts@[i].id@) by {
            let x = choose|x: int| 0 <= x < ids@.len() && from@[x] == i;
            assert(os.contains(ks[x]));
        }
    }
    out
}

} // verus!
