//! Whether what is left of a run only waits on purpose: every in-scope open
//! ticket is held open by its subtree, parked at a gate, inside a poll
//! backoff, or behind a prior that itself waits on purpose. One judgment per
//! ticket, shared by the scan and by the walk over priors: answers are
//! memoized, and a separate on-stack set breaks cycles, a revisit counting
//! as neutral for whichever combinator meets it.
use vstd::prelude::*;
use crate::ready::{
    any_open, any_open_descendant, dependency_is_satisfied, descendant, find, find_task, lookup, open_desc,
    open_descendant_tasks, satisfied, TaskFacts,
};

verus! {

/// A ticket that waits on its own account: parked in a gating state that is
/// not terminal, or with a poll attempt still ahead of `now`.
pub open spec fn waits_itself(t: TaskFacts, now: u64) -> bool {
    ||| t.gating && !t.terminal
    ||| t.next_attempt_at matches Some(d) && d > now
}

/// A prior of the ticket names a ticket of the plan that does not satisfy it.
pub open spec fn has_unsatisfied_prior(ts: Seq<TaskFacts>, i: int) -> bool {
    exists|p: int|
        0 <= p < ts[i].priors@.len() && (find(ts, (#[trigger] ts[i].priors@[p])@) matches Some(x) && !satisfied(ts[x]))
}

/// Ticket `x` is a prior of ticket `k` that does not satisfy it.
pub open spec fn prior_of(ts: Seq<TaskFacts>, k: int, x: int) -> bool {
    exists|p: int|
        0 <= p < ts[k].priors@.len() && find(ts, (#[trigger] ts[k].priors@[p])@) == Some(x) && !satisfied(ts[x])
}

/// The tickets the judgment of `k` consults: its open descendants when it
/// has any; otherwise, unless it waits on its own account, the priors it
/// does not have satisfied.
pub open spec fn consults(ts: Seq<TaskFacts>, now: u64, k: int, j: int) -> bool {
    if any_open(ts, k) {
        descendant(ts, k, j) && !ts[j].terminal
    } else {
        !waits_itself(ts[k], now) && prior_of(ts, k, j)
    }
}

/// A ranking of the tickets below the plan's size under which every
/// ticket consulted ranks below the one consulting it: the judgments meet
/// no cycle.
pub open spec fn ranks(ts: Seq<TaskFacts>, now: u64, rank: Seq<nat>) -> bool {
    &&& rank.len() == ts.len()
    &&& forall|k: int| 0 <= k < ts.len() ==> #[trigger] rank[k] < ts.len()
    &&& forall|k: int, j: int| 0 <= k < ts.len() && #[trigger] consults(ts, now, k, j) ==> rank[j] < rank[k]
}

/// Ticket `k` waits on purpose, looking at most `fuel` judgments deep: with
/// open descendants, when every one of them does; otherwise when it waits
/// on its own account or a prior it does not have satisfied does.
pub open spec fn deliberate_within(ts: Seq<TaskFacts>, now: u64, k: int, fuel: nat) -> bool
    decreases fuel,
{
    if fuel == 0 {
        false
    } else if any_open(ts, k) {
        forall|j: int| #[trigger] consults(ts, now, k, j) ==> deliberate_within(ts, now, j, (fuel - 1) as nat)
    } else {
        waits_itself(ts[k], now) || exists|j: int|
            #[trigger] consults(ts, now, k, j) && deliberate_within(ts, now, j, (fuel - 1) as nat)
    }
}

/// Ticket `k` waits on purpose: judged as deep as the plan is large, which
/// on a plan whose judgments meet no cycle is as deep as they go.
pub open spec fn deliberate(ts: Seq<TaskFacts>, now: u64, k: int) -> bool {
    deliberate_within(ts, now, k, ts.len() as nat)
}

/// Every verdict reached so far is whether the ticket waits on purpose.
pub open spec fn memo_right(ts: Seq<TaskFacts>, now: u64, memo: Seq<Option<bool>>) -> bool {
    forall|k: int| 0 <= k < memo.len() && (#[trigger] memo[k]) is Some ==> memo[k]->0 == deliberate(ts, now, k)
}

proof fn lemma_deliberate_fuel(ts: Seq<TaskFacts>, now: u64, rank: Seq<nat>, k: int, f1: nat, f2: nat)
    requires
        ranks(ts, now, rank),
        0 <= k < ts.len(),
        rank[k] < f1,
        rank[k] < f2,
    ensures
        deliberate_within(ts, now, k, f1) == deliberate_within(ts, now, k, f2),
    decreases f1,
{
    assert(rank[k] < ts.len());
    assert forall|j: int| #[trigger] consults(ts, now, k, j) implies 0 <= j < ts.len() && rank[j] < rank[k]
        && deliberate_within(ts, now, j, (f1 - 1) as nat) == deliberate_within(ts, now, j, (f2 - 1) as nat) by {
        lemma_consults_bounds(ts, now, k, j);
        lemma_deliberate_fuel(ts, now, rank, j, (f1 - 1) as nat, (f2 - 1) as nat);
    }
    if any_open(ts, k) {
        assert(deliberate_within(ts, now, k, f1) == deliberate_within(ts, now, k, f2));
    } else {
        if deliberate_within(ts, now, k, f1) && !waits_itself(ts[k], now) {
            let j = choose|j: int| #[trigger] consults(ts, now, k, j) && deliberate_within(ts, now, j, (f1 - 1) as nat);
            assert(deliberate_within(ts, now, j, (f2 - 1) as nat));
        }
        if deliberate_within(ts, now, k, f2) && !waits_itself(ts[k], now) {
            let j = choose|j: int| #[trigger] consults(ts, now, k, j) && deliberate_within(ts, now, j, (f2 - 1) as nat);
            assert(deliberate_within(ts, now, j, (f1 - 1) as nat));
        }
    }
}

proof fn lemma_consults_bounds(ts: Seq<TaskFacts>, now: u64, k: int, j: int)
    requires
        consults(ts, now, k, j),
    ensures
        0 <= j < ts.len(),
{
    if !any_open(ts, k) {
        let p = choose|p: int|
            0 <= p < ts[k].priors@.len() && find(ts, (#[trigger] ts[k].priors@[p])@) == Some(j) && !satisfied(ts[j]);
        lemma_find_bounds(ts, ts[k].priors@[p]@);
    }
}

/// Unfolding `deliberate` one judgment deep on a ranked plan.
proof fn lemma_deliberate_unfold(ts: Seq<TaskFacts>, now: u64, rank: Seq<nat>, k: int)
    requires
        ranks(ts, now, rank),
        0 <= k < ts.len(),
    ensures
        any_open(ts, k) ==> (deliberate(ts, now, k) <==> forall|j: int|
            #[trigger] consults(ts, now, k, j) ==> deliberate(ts, now, j)),
        !any_open(ts, k) ==> (deliberate(ts, now, k) <==> waits_itself(ts[k], now) || exists|j: int|
            #[trigger] consults(ts, now, k, j) && deliberate(ts, now, j)),
{
    let n = ts.len() as nat;
    assert forall|j: int| #[trigger] consults(ts, now, k, j) implies deliberate_within(ts, now, j, (n - 1) as nat)
        == deliberate(ts, now, j) by {
        lemma_consults_bounds(ts, now, k, j);
        lemma_deliberate_fuel(ts, now, rank, j, (n - 1) as nat, n);
    }
    if !any_open(ts, k) {
        if deliberate(ts, now, k) && !waits_itself(ts[k], now) {
            let j = choose|j: int| #[trigger] consults(ts, now, k, j) && deliberate_within(ts, now, j, (n - 1) as nat);
            assert(deliberate(ts, now, j));
        }
        if !waits_itself(ts[k], now) && exists|j: int| #[trigger] consults(ts, now, k, j) && deliberate(ts, now, j) {
            let j = choose|j: int| #[trigger] consults(ts, now, k, j) && deliberate(ts, now, j);
            assert(deliberate_within(ts, now, j, (n - 1) as nat));
        }
    }
}

/// What the verdict `b`, reached for ticket `k` at step `t` of the walk,
/// says of it against the verdicts `memo` (each reached at step
/// `times[..]`) and the tickets still on the walk (`stack`):
/// - a ticket with open descendants waits when none of them was judged
///   not waiting before it (one still on the walk counts as waiting), and
///   every one of them has been or is being judged; it does not wait when
///   one of them was judged not waiting before it;
/// - any other ticket waits when it waits on its own account, or when a
///   prior it does not have satisfied was judged waiting before it; it does
///   not wait when it does not wait itself and no such prior was judged
///   waiting before it (one still on the walk counts as not waiting), every
///   such prior having been or being judged.
pub open spec fn verdict_ok(
    ts: Seq<TaskFacts>,
    now: u64,
    memo: Seq<Option<bool>>,
    times: Seq<nat>,
    stack: Seq<bool>,
    k: int,
    b: bool,
    t: nat,
) -> bool {
    &&& b && any_open(ts, k) ==> forall|j: int|
        #[trigger] descendant(ts, k, j) && !ts[j].terminal ==> (memo[j] is Some || stack[j]) && (memo[j] is Some
            && times[j] < t ==> memo[j] == Some(true))
    &&& !b && any_open(ts, k) ==> exists|j: int|
        #[trigger] descendant(ts, k, j) && !ts[j].terminal && memo[j] == Some(false) && times[j] < t
    &&& b && !any_open(ts, k) ==> waits_itself(ts[k], now) || exists|x: int|
        #[trigger] prior_of(ts, k, x) && memo[x] == Some(true) && times[x] < t
    &&& !b && !any_open(ts, k) ==> !waits_itself(ts[k], now) && forall|x: int|
        #[trigger] prior_of(ts, k, x) ==> (memo[x] is Some || stack[x]) && !(memo[x] == Some(true) && times[x] < t)
}

/// Every verdict reached so far is borne out by the verdicts reached before
/// it, each at its own step, all before step `clock`.
pub open spec fn memo_ok(
    ts: Seq<TaskFacts>,
    now: u64,
    memo: Seq<Option<bool>>,
    times: Seq<nat>,
    stack: Seq<bool>,
    clock: nat,
) -> bool {
    &&& memo.len() == ts.len()
    &&& times.len() == ts.len()
    &&& stack.len() == ts.len()
    &&& forall|k: int|
        0 <= k < memo.len() && (#[trigger] memo[k]) is Some ==> times[k] < clock && verdict_ok(
            ts,
            now,
            memo,
            times,
            stack,
            k,
            memo[k]->0,
            times[k],
        )
}

/// A judgment of the whole plan once no walk is under way: every verdict
/// in `memo`, reached at step `times[..]`, is borne out as `verdict_ok`
/// says, each ticket once, whichever walk reached it.
pub open spec fn judgment(ts: Seq<TaskFacts>, now: u64, memo: Seq<Option<bool>>, times: Seq<nat>) -> bool {
    &&& memo.len() == ts.len()
    &&& times.len() == ts.len()
    &&& forall|k: int|
        0 <= k < memo.len() && (#[trigger] memo[k]) is Some ==> verdict_ok(
            ts,
            now,
            memo,
            times,
            Seq::new(ts.len(), |q: int| false),
            k,
            memo[k]->0,
            times[k],
        )
}

/// `after` keeps every verdict of `before`, at its step; verdicts new in
/// `after` come at step `from` or later; and a ticket judged or on the walk
/// before is judged or on the walk after.
pub open spec fn extends(
    mb: Seq<Option<bool>>,
    tb: Seq<nat>,
    sb: Seq<bool>,
    ma: Seq<Option<bool>>,
    ta: Seq<nat>,
    sa: Seq<bool>,
    from: nat,
) -> bool {
    &&& ma.len() == mb.len()
    &&& ta.len() == tb.len()
    &&& sa.len() == sb.len()
    &&& forall|k: int| 0 <= k < mb.len() && (#[trigger] mb[k]) is Some ==> ma[k] == mb[k] && ta[k] == tb[k]
    &&& forall|k: int| 0 <= k < mb.len() && (#[trigger] mb[k]) is None && ma[k] is Some ==> ta[k] >= from
    &&& forall|k: int| 0 <= k < mb.len() && (mb[k] is Some || #[trigger] sb[k]) ==> ma[k] is Some || sa[k]
}

proof fn lemma_verdict_persists(
    ts: Seq<TaskFacts>,
    now: u64,
    mb: Seq<Option<bool>>,
    tb: Seq<nat>,
    sb: Seq<bool>,
    ma: Seq<Option<bool>>,
    ta: Seq<nat>,
    sa: Seq<bool>,
    from: nat,
    k: int,
    b: bool,
    t: nat,
)
    requires
        mb.len() == ts.len(),
        tb.len() == ts.len(),
        sb.len() == ts.len(),
        0 <= k < ts.len(),
        t <= from,
        extends(mb, tb, sb, ma, ta, sa, from),
        verdict_ok(ts, now, mb, tb, sb, k, b, t),
    ensures
        verdict_ok(ts, now, ma, ta, sa, k, b, t),
{
    if b && any_open(ts, k) {
        assert forall|j: int| #[trigger] descendant(ts, k, j) && !ts[j].terminal implies (ma[j] is Some || sa[j]) && (
        ma[j] is Some && ta[j] < t ==> ma[j] == Some(true)) by {
            if mb[j] is Some {
                assert(ma[j] == mb[j] && ta[j] == tb[j]);
            }
        }
    }
    if !b && any_open(ts, k) {
        let j = choose|j: int| #[trigger] descendant(ts, k, j) && !ts[j].terminal && mb[j] == Some(false) && tb[j] < t;
        assert(ma[j] == mb[j] && ta[j] == tb[j]);
    }
    if b && !any_open(ts, k) && !waits_itself(ts[k], now) {
        let x = choose|x: int| #[trigger] prior_of(ts, k, x) && mb[x] == Some(true) && tb[x] < t;
        let p = choose|p: int|
            0 <= p < ts[k].priors@.len() && find(ts, (#[trigger] ts[k].priors@[p])@) == Some(x) && !satisfied(ts[x]);
        lemma_find_bounds(ts, ts[k].priors@[p]@);
        assert(ma[x] == mb[x] && ta[x] == tb[x]);
    }
    if !b && !any_open(ts, k) {
        assert forall|x: int| #[trigger] prior_of(ts, k, x) implies (ma[x] is Some || sa[x]) && !(ma[x] == Some(true)
            && ta[x] < t) by {
            let p = choose|p: int|
                0 <= p < ts[k].priors@.len() && find(ts, (#[trigger] ts[k].priors@[p])@) == Some(x) && !satisfied(ts[x]);
            lemma_find_bounds(ts, ts[k].priors@[p]@);
            if mb[x] is Some {
                assert(ma[x] == mb[x] && ta[x] == tb[x]);
            }
        }
    }
}

proof fn lemma_lookup_bounds(ts: Seq<TaskFacts>, id: Seq<char>, k: int)
    requires
        k <= ts.len(),
    ensures
        lookup(ts, id, k) matches Some(x) ==> 0 <= x < k,
    decreases k,
{
    if k > 0 {
        lemma_lookup_bounds(ts, id, k - 1);
    }
}

proof fn lemma_find_bounds(ts: Seq<TaskFacts>, id: Seq<char>)
    ensures
        find(ts, id) matches Some(x) ==> 0 <= x < ts.len(),
{
    lemma_lookup_bounds(ts, id, ts.len() as int);
}

proof fn lemma_memo_ok_persists(
    ts: Seq<TaskFacts>,
    now: u64,
    mb: Seq<Option<bool>>,
    tb: Seq<nat>,
    sb: Seq<bool>,
    cb: nat,
    ma: Seq<Option<bool>>,
    ta: Seq<nat>,
    sa: Seq<bool>,
    ca: nat,
)
    requires
        memo_ok(ts, now, mb, tb, sb, cb),
        extends(mb, tb, sb, ma, ta, sa, cb),
        cb <= ca,
        forall|k: int| 0 <= k < ma.len() && (#[trigger] mb[k]) is None && ma[k] is Some ==> ta[k] < ca && verdict_ok(
            ts,
            now,
            ma,
            ta,
            sa,
            k,
            ma[k]->0,
            ta[k],
        ),
    ensures
        memo_ok(ts, now, ma, ta, sa, ca),
{
    assert forall|k: int| 0 <= k < ma.len() && (#[trigger] ma[k]) is Some implies ta[k] < ca && verdict_ok(
        ts,
        now,
        ma,
        ta,
        sa,
        k,
        ma[k]->0,
        ta[k],
    ) by {
        if mb[k] is Some {
            assert(ma[k] == mb[k] && ta[k] == tb[k]);
            lemma_verdict_persists(ts, now, mb, tb, sb, ma, ta, sa, cb, k, mb[k]->0, tb[k]);
        }
    }
}

proof fn lemma_extends_trans(
    m1: Seq<Option<bool>>,
    t1: Seq<nat>,
    s1: Seq<bool>,
    m2: Seq<Option<bool>>,
    t2: Seq<nat>,
    s2: Seq<bool>,
    m3: Seq<Option<bool>>,
    t3: Seq<nat>,
    s3: Seq<bool>,
    c1: nat,
    c2: nat,
)
    requires
        extends(m1, t1, s1, m2, t2, s2, c1),
        extends(m2, t2, s2, m3, t3, s3, c2),
        c1 <= c2,
    ensures
        extends(m1, t1, s1, m3, t3, s3, c1),
{
    assert forall|k: int| 0 <= k < m1.len() && (#[trigger] m1[k]) is None && m3[k] is Some implies t3[k] >= c1 by {
        if m2[k] is Some {
            assert(t3[k] == t2[k]);
        }
    }
    assert forall|k: int| 0 <= k < m1.len() && (m1[k] is Some || #[trigger] s1[k]) implies m3[k] is Some || s3[k] by {
        assert(m2[k] is Some || s2[k]);
    }
}

/// The number of tickets on the walk.
pub open spec fn on_walk(s: Seq<bool>) -> nat
    decreases s.len(),
{
    if s.len() == 0 {
        0
    } else {
        on_walk(s.drop_last()) + if s.last() {
            1nat
        } else {
            0nat
        }
    }
}

proof fn lemma_on_walk_bound(s: Seq<bool>)
    ensures
        on_walk(s) <= s.len(),
    decreases s.len(),
{
    if s.len() > 0 {
        lemma_on_walk_bound(s.drop_last());
    }
}

proof fn lemma_on_walk_push(s: Seq<bool>, i: int)
    requires
        0 <= i < s.len(),
        !s[i],
    ensures
        on_walk(s.update(i, true)) == on_walk(s) + 1,
    decreases s.len(),
{
    if i == s.len() - 1 {
        assert(s.update(i, true).drop_last() =~= s.drop_last());
    } else {
        lemma_on_walk_push(s.drop_last(), i);
        assert(s.update(i, true).drop_last() =~= s.drop_last().update(i, true));
    }
}

proof fn lemma_open_desc_members(ts: Seq<TaskFacts>, i: int, k: int, q: int)
    requires
        0 <= q < open_desc(ts, i, k).len(),
    ensures
        descendant(ts, i, open_desc(ts, i, k)[q]) && !ts[open_desc(ts, i, k)[q]].terminal,
    decreases k,
{
    if k > 0 {
        if descendant(ts, i, k - 1) && !ts[k - 1].terminal {
            if q < open_desc(ts, i, k - 1).len() {
                lemma_open_desc_members(ts, i, k - 1, q);
            }
        } else {
            lemma_open_desc_members(ts, i, k - 1, q);
        }
    }
}

proof fn lemma_open_desc_complete(ts: Seq<TaskFacts>, i: int, k: int, j: int)
    requires
        descendant(ts, i, j),
        !ts[j].terminal,
        j < k,
    ensures
        exists|q: int| 0 <= q < open_desc(ts, i, k).len() && #[trigger] open_desc(ts, i, k)[q] == j,
    decreases k,
{
    if k - 1 == j {
        assert(open_desc(ts, i, k) == open_desc(ts, i, k - 1).push(j));
        assert(open_desc(ts, i, k)[open_desc(ts, i, k).len() - 1] == j);
    } else {
        lemma_open_desc_complete(ts, i, k - 1, j);
        let q = choose|q: int| 0 <= q < open_desc(ts, i, k - 1).len() && #[trigger] open_desc(ts, i, k - 1)[q] == j;
        if descendant(ts, i, k - 1) && !ts[k - 1].terminal {
            assert(open_desc(ts, i, k) == open_desc(ts, i, k - 1).push(k - 1));
            assert(open_desc(ts, i, k)[q] == j);
        } else {
            assert(open_desc(ts, i, k) == open_desc(ts, i, k - 1));
            assert(open_desc(ts, i, k)[q] == j);
        }
    }
}

/// The verdict for ticket `i`, reached at a step of the walk (given back
/// with the verdicts' steps and the next step); `None` when `i` is already
/// on the walk.
fn judge(
    ts: &Vec<TaskFacts>,
    now: u64,
    memo: &mut Vec<Option<bool>>,
    stack: &mut Vec<bool>,
    i: usize,
    Ghost(budget): Ghost<nat>,
    Ghost(times): Ghost<Seq<nat>>,
    Ghost(clock): Ghost<nat>,
    Ghost(rank): Ghost<Seq<nat>>,
) -> (r: (Option<bool>, Ghost<Seq<nat>>, Ghost<nat>))
    requires
        i < ts@.len(),
        memo_ok(ts@, now, old(memo)@, times, old(stack)@, clock),
        budget == 2 * (ts@.len() - on_walk(old(stack)@)) + 2,
        ranks(ts@, now, rank) ==> memo_right(ts@, now, old(memo)@),
        ranks(ts@, now, rank) ==> forall|k: int| 0 <= k < ts@.len() && old(stack)@[k] ==> rank[k] > #[trigger] rank[i as int],
    ensures
        ranks(ts@, now, rank) ==> memo_right(ts@, now, final(memo)@),
        ranks(ts@, now, rank) ==> r.0 == Some(deliberate(ts@, now, i as int)),
        final(stack)@ == old(stack)@,
        clock <= r.2@,
        memo_ok(ts@, now, final(memo)@, r.1@, old(stack)@, r.2@),
        extends(old(memo)@, times, old(stack)@, final(memo)@, r.1@, old(stack)@, clock),
        forall|k: int| 0 <= k < ts@.len() && old(stack)@[k] ==> (#[trigger] final(memo)@[k]) == old(memo)@[k],
        match r.0 {
            Some(b) => final(memo)@[i as int] == Some(b),
            None => old(stack)@[i as int] && old(memo)@[i as int] is None,
        },
    decreases budget,
{
    if let Some(answer) = memo[i] {
        return (Some(answer), Ghost(times), Ghost(clock));
    }
    if stack[i] {
        proof {
            if ranks(ts@, now, rank) {
                assert(rank[i as int] > rank[i as int]);
            }
        }
        return (None, Ghost(times), Ghost(clock));
    }
    let ghost s0 = stack@;
    proof {
        lemma_on_walk_push(stack@, i as int);
        lemma_on_walk_bound(stack@.update(i as int, true));
    }
    stack.set(i, true);
    proof {
        assert(extends(memo@, times, s0, memo@, times, stack@, clock));
        lemma_memo_ok_persists(ts@, now, memo@, times, s0, clock, memo@, times, stack@, clock);
    }
    let ghost s1 = stack@;
    let ghost m1 = memo@;
    let (answer, Ghost(times2), Ghost(clock2)) = compute(
        ts,
        now,
        memo,
        stack,
        i,
        Ghost((budget - 1) as nat),
        Ghost(times),
        Ghost(clock),
        Ghost(rank),
    );
    stack.set(i, false);
    assert(stack@ =~= s0);
    let ghost m2 = memo@;
    memo.set(i, Some(answer));
    let ghost times3 = times2.update(i as int, clock2);
    proof {
        assert(extends(m2, times2, s1, memo@, times3, stack@, clock2));
        lemma_verdict_persists(ts@, now, m2, times2, s1, memo@, times3, stack@, clock2, i as int, answer, clock2);
        lemma_memo_ok_persists(ts@, now, m2, times2, s1, clock2, memo@, times3, stack@, clock2 + 1);
        lemma_extends_trans(m1, times, s1, m2, times2, s1, memo@, times3, stack@, clock, clock2);
        assert(extends(m1, times, s0, memo@, times3, stack@, clock));
    }
    (Some(answer), Ghost(times3), Ghost(clock2 + 1))
}

/// The judgment itself, for a ticket now on the walk: its verdict, borne
/// out at the step given back.
fn compute(
    ts: &Vec<TaskFacts>,
    now: u64,
    memo: &mut Vec<Option<bool>>,
    stack: &mut Vec<bool>,
    i: usize,
    Ghost(budget): Ghost<nat>,
    Ghost(times): Ghost<Seq<nat>>,
    Ghost(clock): Ghost<nat>,
    Ghost(rank): Ghost<Seq<nat>>,
) -> (r: (bool, Ghost<Seq<nat>>, Ghost<nat>))
    requires
        i < ts@.len(),
        old(stack)@[i as int],
        old(memo)@[i as int] is None,
        memo_ok(ts@, now, old(memo)@, times, old(stack)@, clock),
        budget == 2 * (ts@.len() - on_walk(old(stack)@)) + 3,
        ranks(ts@, now, rank) ==> memo_right(ts@, now, old(memo)@),
        ranks(ts@, now, rank) ==> forall|k: int|
            0 <= k < ts@.len() && old(stack)@[k] && k != i ==> rank[k] > #[trigger] rank[i as int],
    ensures
        ranks(ts@, now, rank) ==> memo_right(ts@, now, final(memo)@),
        ranks(ts@, now, rank) ==> r.0 == deliberate(ts@, now, i as int),
        final(stack)@ == old(stack)@,
        clock <= r.2@,
        memo_ok(ts@, now, final(memo)@, r.1@, old(stack)@, r.2@),
        extends(old(memo)@, times, old(stack)@, final(memo)@, r.1@, old(stack)@, clock),
        forall|k: int| 0 <= k < ts@.len() && old(stack)@[k] ==> (#[trigger] final(memo)@[k]) == old(memo)@[k],
        verdict_ok(ts@, now, final(memo)@, r.1@, old(stack)@, i as int, r.0, r.2@),
    decreases budget,
{
    let ghost n = ts@.len();
    let ghost m0 = memo@;
    let ghost s0 = stack@;
    let ghost mut tm = times;
    let ghost mut ck = clock;
    proof {
        assert(extends(m0, times, s0, m0, times, s0, clock));
    }
    if any_open_descendant(ts, i) {
        let open = open_descendant_tasks(ts, i);
        let mut q: usize = 0;
        while q < open.len()
            invariant
                n == ts@.len(),
                i < n,
                any_open(ts@, i as int),
                open@.len() == open_desc(ts@, i as int, n as int).len(),
                forall|x: int| 0 <= x < open@.len() ==> (#[trigger] open@[x]) as int == open_desc(ts@, i as int, n as int)[x],
                q <= open@.len(),
                stack@ == s0,
                s0 == old(stack)@,
                m0 == old(memo)@,
                clock <= ck,
                memo_ok(ts@, now, memo@, tm, s0, ck),
                extends(m0, times, s0, memo@, tm, s0, clock),
                forall|k: int| 0 <= k < n && s0[k] ==> (#[trigger] memo@[k]) == m0[k],
                forall|x: int| 0 <= x < q ==> memo@[#[trigger] open@[x] as int] == Some(true) || (s0[open@[x] as int]
                    && memo@[open@[x] as int] is None),
                budget == 2 * (n - on_walk(s0)) + 3,
                ranks(ts@, now, rank) ==> memo_right(ts@, now, memo@),
                ranks(ts@, now, rank) ==> forall|k: int|
                    0 <= k < n && s0[k] && k != i ==> rank[k] > #[trigger] rank[i as int],
            decreases open@.len() - q,
        {
            let c = open[q];
            proof {
                lemma_open_desc_members(ts@, i as int, n as int, q as int);
                lemma_on_walk_bound(s0);
                assert(consults(ts@, now, i as int, c as int));
            }
            let ghost mb = memo@;
            let ghost tb = tm;
            let (v, Ghost(t2), Ghost(c2)) = judge(ts, now, memo, stack, c, Ghost((budget - 1) as nat), Ghost(tm), Ghost(ck), Ghost(rank));
            proof {
                lemma_extends_trans(m0, times, s0, mb, tb, s0, memo@, t2, s0, clock, ck);
                assert forall|k: int| 0 <= k < n && s0[k] implies (#[trigger] memo@[k]) == m0[k] by {
                    assert(memo@[k] == mb[k]);
                }
                assert forall|x: int| 0 <= x < q + 1 && !(x == q && v == Some(false)) implies memo@[#[trigger] open@[x] as int]
                    == Some(true) || (s0[open@[x] as int] && memo@[open@[x] as int] is None) by {
                    if x < q {
                        lemma_open_desc_members(ts@, i as int, n as int, x);
                        let o = open@[x] as int;
                        if mb[o] is Some {
                            assert(memo@[o] == mb[o]);
                        } else {
                            assert(memo@[o] == mb[o]);
                        }
                    }
                }
                tm = t2;
                ck = c2;
            }
            if v == Some(false) {
                proof {
                    assert(memo@[c as int] == Some(false));
                    assert(descendant(ts@, i as int, c as int));
                    assert(tm[c as int] < ck);
                    if ranks(ts@, now, rank) {
                        lemma_deliberate_unfold(ts@, now, rank, i as int);
                        assert(consults(ts@, now, i as int, c as int));
                    }
                }
                return (false, Ghost(tm), Ghost(ck));
            }
            q += 1;
        }
        proof {
            assert forall|j: int| #[trigger] descendant(ts@, i as int, j) && !ts@[j].terminal implies (memo@[j] is Some
                || s0[j]) && (memo@[j] is Some && tm[j] < ck ==> memo@[j] == Some(true)) by {
                lemma_open_desc_complete(ts@, i as int, n as int, j);
                let x = choose|x: int|
                    0 <= x < open_desc(ts@, i as int, n as int).len() && #[trigger] open_desc(ts@, i as int, n as int)[x] == j;
                assert(open@[x] as int == j);
            }
            if ranks(ts@, now, rank) {
                lemma_deliberate_unfold(ts@, now, rank, i as int);
                assert forall|j: int| #[trigger] consults(ts@, now, i as int, j) implies deliberate(ts@, now, j) by {
                    lemma_open_desc_complete(ts@, i as int, n as int, j);
                    let x = choose|x: int|
                        0 <= x < open_desc(ts@, i as int, n as int).len() && #[trigger] open_desc(ts@, i as int, n as int)[x]
                            == j;
                    assert(open@[x] as int == j);
                    assert(j != i);
                    assert(memo@[j] == Some(true));
                }
            }
        }
        return (true, Ghost(tm), Ghost(ck));
    }
    let t = &ts[i];
    proof {
        if ranks(ts@, now, rank) {
            lemma_deliberate_unfold(ts@, now, rank, i as int);
        }
    }
    if t.gating && !t.terminal {
        return (true, Ghost(tm), Ghost(ck));
    }
    if let Some(deadline) = t.next_attempt_at {
        if deadline > now {
            return (true, Ghost(tm), Ghost(ck));
        }
    }
    let mut p: usize = 0;
    while p < t.priors.len()
        invariant
            n == ts@.len(),
            i < n,
            t == &ts@[i as int],
            !any_open(ts@, i as int),
            !waits_itself(ts@[i as int], now),
            p <= t.priors@.len(),
            stack@ == s0,
            s0 == old(stack)@,
            m0 == old(memo)@,
            clock <= ck,
            memo_ok(ts@, now, memo@, tm, s0, ck),
            extends(m0, times, s0, memo@, tm, s0, clock),
            forall|k: int| 0 <= k < n && s0[k] ==> (#[trigger] memo@[k]) == m0[k],
            forall|y: int|
                0 <= y < p && (find(ts@, (#[trigger] t.priors@[y])@) matches Some(x) && !satisfied(ts@[x])) ==> memo@[find(
                    ts@,
                    t.priors@[y]@,
                )->0] == Some(false) || (s0[find(ts@, t.priors@[y]@)->0] && memo@[find(ts@, t.priors@[y]@)->0] is None),
            budget == 2 * (n - on_walk(s0)) + 3,
            ranks(ts@, now, rank) ==> memo_right(ts@, now, memo@),
            ranks(ts@, now, rank) ==> forall|k: int|
                0 <= k < n && s0[k] && k != i ==> rank[k] > #[trigger] rank[i as int],
            ranks(ts@, now, rank) ==> (deliberate(ts@, now, i as int) <==> exists|j: int|
                #[trigger] consults(ts@, now, i as int, j) && deliberate(ts@, now, j)),
        decreases t.priors@.len() - p,
    {
        proof {
            lemma_find_bounds(ts@, t.priors@[p as int]@);
        }
        match find_task(ts, t.priors[p].as_str()) {
            None => {
                proof {
                    assert(find(ts@, t.priors@[p as int]@) is None);
                }
            },
            Some(x) => {
                if !dependency_is_satisfied(&ts[x]) {
                    proof {
                        lemma_on_walk_bound(s0);
                        assert(find(ts@, t.priors@[p as int]@) == Some(x as int));
                        assert(prior_of(ts@, i as int, x as int));
                        assert(consults(ts@, now, i as int, x as int));
                    }
                    let ghost mb = memo@;
                    let ghost tb = tm;
                    let (v, Ghost(t2), Ghost(c2)) = judge(ts, now, memo, stack, x, Ghost((budget - 1) as nat), Ghost(tm), Ghost(ck), Ghost(rank));
                    proof {
                        lemma_extends_trans(m0, times, s0, mb, tb, s0, memo@, t2, s0, clock, ck);
                        assert forall|k: int| 0 <= k < n && s0[k] implies (#[trigger] memo@[k]) == m0[k] by {
                            assert(memo@[k] == mb[k]);
                        }
                        assert forall|y: int|
                            0 <= y < p && (find(ts@, (#[trigger] t.priors@[y])@) matches Some(z) && !satisfied(ts@[z])) implies memo@[find(
                                ts@,
                                t.priors@[y]@,
                            )->0] == Some(false) || (s0[find(ts@, t.priors@[y]@)->0] && memo@[find(ts@, t.priors@[y]@)->0]
                            is None) by {
                            let z = find(ts@, t.priors@[y]@)->0;
                            lemma_find_bounds(ts@, t.priors@[y]@);
                            assert(memo@[z] == mb[z]);
                        }
                        tm = t2;
                        ck = c2;
                    }
                    if v == Some(true) {
                        proof {
                            assert(prior_of(ts@, i as int, x as int)) by {
                                assert(find(ts@, t.priors@[p as int]@) == Some(x as int));
                            }
                            assert(tm[x as int] < ck);
                            assert(consults(ts@, now, i as int, x as int));
                        }
                        return (true, Ghost(tm), Ghost(ck));
                    }
                }
            },
        }
        p += 1;
    }
    proof {
        assert forall|x: int| #[trigger] prior_of(ts@, i as int, x) implies (memo@[x] is Some || s0[x]) && !(memo@[x]
            == Some(true) && tm[x] < ck) by {
            let y = choose|y: int|
                0 <= y < ts@[i as int].priors@.len() && find(ts@, (#[trigger] ts@[i as int].priors@[y])@) == Some(x)
                    && !satisfied(ts@[x]);
            assert(t.priors@[y] == ts@[i as int].priors@[y]);
        }
        if ranks(ts@, now, rank) {
            assert forall|j: int| #[trigger] consults(ts@, now, i as int, j) implies !deliberate(ts@, now, j) by {
                assert(prior_of(ts@, i as int, j));
                let y = choose|y: int|
                    0 <= y < ts@[i as int].priors@.len() && find(ts@, (#[trigger] ts@[i as int].priors@[y])@) == Some(j)
                        && !satisfied(ts@[j]);
                assert(t.priors@[y] == ts@[i as int].priors@[y]);
                lemma_consults_bounds(ts@, now, i as int, j);
                assert(j != i);
                assert(memo@[j] == Some(false));
            }
        }
    }
    (false, Ghost(tm), Ghost(ck))
}

proof fn lemma_descendant_trans(ts: Seq<TaskFacts>, i: int, j: int, k: int)
    requires
        descendant(ts, i, j),
        descendant(ts, j, k),
    ensures
        descendant(ts, i, k),
{
    assert forall|x: int| i < x <= k implies (#[trigger] ts[x]).depth > ts[i].depth by {
        if x > j {
            assert(ts[x].depth > ts[j].depth);
        }
    }
}

/// A ticket judged not waiting has, in its subtree or in itself, an open
/// leaf that does not wait on its own account.
proof fn lemma_false_has_stuck_leaf(ts: Seq<TaskFacts>, now: u64, memo: Seq<Option<bool>>, times: Seq<nat>, i: int)
    requires
        judgment(ts, now, memo, times),
        0 <= i < ts.len(),
        memo[i] == Some(false),
    ensures
        exists|k: int|
            (k == i || (descendant(ts, i, k) && !ts[k].terminal)) && !any_open(ts, k) && !waits_itself(
                #[trigger] ts[k],
                now,
            ),
    decreases ts.len() - i,
{
    assert(verdict_ok(ts, now, memo, times, Seq::new(ts.len(), |q: int| false), i, false, times[i]));
    if !any_open(ts, i) {
        assert(!waits_itself(ts[i], now));
    } else {
        let j = choose|j: int|
            #[trigger] descendant(ts, i, j) && !ts[j].terminal && memo[j] == Some(false) && times[j] < times[i];
        lemma_false_has_stuck_leaf(ts, now, memo, times, j);
        let k = choose|k: int|
            (k == j || (descendant(ts, j, k) && !ts[k].terminal)) && !any_open(ts, k) && !waits_itself(
                #[trigger] ts[k],
                now,
            );
        if k != j {
            lemma_descendant_trans(ts, i, j, k);
        }
    }
}

/// Whether every in-scope ticket still open is waiting on purpose, so a
/// run whose only remaining work is a gate or a poll can stay alive for it
/// rather than report a stall. The answer rests on a judgment of the plan
/// (`judgment`): waiting when every in-scope open ticket is judged waiting,
/// not waiting when one of them is judged not waiting; a ticket judged
/// waiting through a prior needs that prior judged waiting before it. On a
/// plan whose judgments meet no cycle (`ranks`), the answer is exactly
/// whether every in-scope open ticket waits on purpose (`deliberate`),
/// whichever order the walk takes.
pub fn remaining_work_is_only_gating_or_poll_blocked(ts: &Vec<TaskFacts>, now: u64) -> (r: bool)
    ensures
        (exists|rank: Seq<nat>| ranks(ts@, now, rank)) ==> (r <==> forall|i: int|
            0 <= i < ts@.len() && (#[trigger] ts@[i]).in_scope && !ts@[i].terminal ==> deliberate(ts@, now, i)),
        r ==> exists|m: Seq<Option<bool>>, tm: Seq<nat>|
            #[trigger] judgment(ts@, now, m, tm) && forall|i: int|
                0 <= i < ts@.len() && (#[trigger] ts@[i]).in_scope && !ts@[i].terminal ==> m[i] == Some(true),
        !r ==> exists|m: Seq<Option<bool>>, tm: Seq<nat>, i: int|
            #![trigger judgment(ts@, now, m, tm), m[i]]
            judgment(ts@, now, m, tm) && 0 <= i < ts@.len() && ts@[i].in_scope && !ts@[i].terminal && m[i] == Some(false),
        r ==> forall|i: int|
            0 <= i < ts@.len() && (#[trigger] ts@[i]).in_scope && !ts@[i].terminal ==> any_open(ts@, i)
                || waits_itself(ts@[i], now) || has_unsatisfied_prior(ts@, i),
        !r ==> exists|i: int, k: int|
            0 <= i < ts@.len() && (#[trigger] ts@[i]).in_scope && !ts@[i].terminal && (k == i || (descendant(
                ts@,
                i,
                k,
            ) && !ts@[k].terminal)) && !any_open(ts@, k) && !waits_itself(#[trigger] ts@[k], now),
{
    let n = ts.len();
    let mut memo: Vec<Option<bool>> = Vec::new();
    let mut stack: Vec<bool> = Vec::new();
    let mut z: usize = 0;
    while z < n
        invariant
            n == ts@.len(),
            z <= n,
            memo@.len() == z,
            stack@.len() == z,
            forall|k: int| 0 <= k < z ==> (#[trigger] memo@[k]) is None,
            forall|k: int| 0 <= k < z ==> !(#[trigger] stack@[k]),
        decreases n - z,
    {
        memo.push(None);
        stack.push(false);
        z += 1;
    }
    let ghost all_false = Seq::new(n as nat, |k: int| false);
    proof {
        assert(stack@ =~= all_false);
        lemma_on_walk_zero(n as nat);
    }
    let ghost mut tm = Seq::new(n as nat, |k: int| 0nat);
    let ghost mut ck: nat = 0;
    let ghost rank: Seq<nat> = if exists|rk: Seq<nat>| ranks(ts@, now, rk) {
        choose|rk: Seq<nat>| ranks(ts@, now, rk)
    } else {
        Seq::empty()
    };
    let mut i: usize = 0;
    while i < n
        invariant
            ranks(ts@, now, rank) ==> memo_right(ts@, now, memo@),
            (exists|rk: Seq<nat>| ranks(ts@, now, rk)) ==> ranks(ts@, now, rank),
            memo@.len() == n,
            n == ts@.len(),
            i <= n,
            stack@ == all_false,
            all_false == Seq::new(n as nat, |k: int| false),
            on_walk(all_false) == 0,
            memo_ok(ts@, now, memo@, tm, all_false, ck),
            forall|k: int| 0 <= k < i && (#[trigger] ts@[k]).in_scope && !ts@[k].terminal ==> memo@[k] == Some(true),
        decreases n - i,
    {
        if ts[i].in_scope && !ts[i].terminal {
            let ghost before = memo@;
            let (v, Ghost(t2), Ghost(c2)) = judge(
                ts,
                now,
                &mut memo,
                &mut stack,
                i,
                Ghost((2 * n + 2) as nat),
                Ghost(tm),
                Ghost(ck),
                Ghost(rank),
            );
            proof {
                tm = t2;
                ck = c2;
            }
            assert(v is Some);
            if v == Some(false) {
                proof {
                    assert(judgment(ts@, now, memo@, tm));
                    lemma_false_has_stuck_leaf(ts@, now, memo@, tm, i as int);
                    if exists|rk: Seq<nat>| ranks(ts@, now, rk) {
                        assert(ranks(ts@, now, rank));
                        assert(!deliberate(ts@, now, i as int));
                    }
                }
                return false;
            }
            proof {
                assert forall|k: int| 0 <= k < i + 1 && (#[trigger] ts@[k]).in_scope && !ts@[k].terminal implies memo@[k]
                    == Some(true) by {
                    if k < i {
                        assert(before[k] == Some(true));
                    }
                }
            }
        }
        i += 1;
    }
    proof {
        assert(judgment(ts@, now, memo@, tm));
        if exists|rk: Seq<nat>| ranks(ts@, now, rk) {
            assert(ranks(ts@, now, rank));
            assert forall|i: int| 0 <= i < ts@.len() && (#[trigger] ts@[i]).in_scope && !ts@[i].terminal implies deliberate(
                ts@,
                now,
                i,
            ) by {
                assert(memo@[i] == Some(true));
            }
        }
        assert forall|i: int| 0 <= i < ts@.len() && (#[trigger] ts@[i]).in_scope && !ts@[i].terminal implies any_open(
            ts@,
            i,
        ) || waits_itself(ts@[i], now) || has_unsatisfied_prior(ts@, i) by {
            assert(memo@[i] == Some(true));
            assert(verdict_ok(ts@, now, memo@, tm, all_false, i, true, tm[i]));
            if !any_open(ts@, i) && !waits_itself(ts@[i], now) {
                let x = choose|x: int| #[trigger] prior_of(ts@, i, x) && memo@[x] == Some(true) && tm[x] < tm[i];
                let p = choose|p: int|
                    0 <= p < ts@[i].priors@.len() && find(ts@, (#[trigger] ts@[i].priors@[p])@) == Some(x) && !satisfied(
                        ts@[x],
                    );
                assert(has_unsatisfied_prior(ts@, i));
            }
        }
    }
    true
}

proof fn lemma_on_walk_zero(s: nat)
    ensures
        on_walk(Seq::new(s, |k: int| false)) == 0,
    decreases s,
{
    if s > 0 {
        assert(Seq::new(s, |k: int| false).drop_last() =~= Seq::new((s - 1) as nat, |k: int| false));
        lemma_on_walk_zero((s - 1) as nat);
    }
}

} // verus!
