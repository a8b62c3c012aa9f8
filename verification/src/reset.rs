//! `rhei reset`: each task's authored state recovered from the ledger of
//! the execution root that owns it, the tasks that moved away from it, the
//! ones a run left with no record of where they started, and the ones whose
//! recorded state their machine no longer declares.
use vstd::prelude::*;
use crate::order::{permutation_of, sorted_by, stable_order};
use crate::text::{chars_of, contains_infix, decimal, has_infix, push_str, str_eq, u64_to_string};

verus! {

/// What the reset knows about one in-scope task.
#[derive(Debug, PartialEq)]
pub struct AuthoredTask {
    pub id: String,
    /// Its state now, normalized.
    pub current: String,
    /// The first state the ledger of its execution root records it leaving,
    /// under its project-qualified id.
    pub recorded: Option<String>,
    /// Its machine declares the recorded state.
    pub recorded_declared: bool,
    /// The ledger of its execution root holds no line at all.
    pub ledger_empty: bool,
    /// Its execution root holds runtime output.
    pub ran_here: bool,
    /// The task itself shows a trace of having run.
    pub run_trace: bool,
    /// The initial state of its profile, when that resolves.
    pub initial: Option<String>,
}

/// What the reset decided for one task: the state it goes back to, and
/// whether it moves, is stranded, or has an undeclared record.
pub struct AuthoredView {
    pub target: Seq<char>,
    pub moved: bool,
    pub stranded: bool,
    pub undeclared: bool,
}

/// A recorded state the machine still declares is the authored state;
/// with none, the task stays where it is. A task with no record at a root
/// whose ledger is empty, that evidently ran, and that is not in its
/// initial state, is stranded: nothing says where it started.
pub open spec fn authored_spec(t: AuthoredTask) -> AuthoredView {
    let recovered = match t.recorded {
        Some(r) => if t.recorded_declared {
            Some(r@)
        } else {
            None
        },
        None => None,
    };
    let target = match recovered {
        Some(r) => r,
        None => t.current@,
    };
    AuthoredView {
        target,
        moved: target != t.current@,
        stranded: target == t.current@ && recovered is None && t.ledger_empty && (t.ran_here || t.run_trace)
            && (t.initial matches Some(i) && i@ != t.current@),
        undeclared: t.recorded is Some && !t.recorded_declared,
    }
}

/// Whether a task carries a trace of having run: a claim, a counted-visit
/// suffix on its state, or a result link in its content.
pub fn shows_run_trace(has_assignee: bool, raw_state: &str, normalized_state: &str, content: &str) -> (r: bool)
    ensures
        r == (has_assignee || raw_state@ != normalized_state@ || has_infix(content@, "> **Result:**"@)),
{
    if has_assignee || !str_eq(raw_state, normalized_state) {
        return true;
    }
    let c = chars_of(content);
    let marker = chars_of("> **Result:**");
    contains_infix(c.as_slice(), marker.as_slice())
}

/// The decision for one task.
pub fn classify_authored(t: &AuthoredTask) -> (r: (String, bool, bool, bool))
    ensures
        r.0@ == authored_spec(*t).target,
        r.1 == authored_spec(*t).moved,
        r.2 == authored_spec(*t).stranded,
        r.3 == authored_spec(*t).undeclared,
{
    let recovered: Option<&String> = match &t.recorded {
        Some(r) => if t.recorded_declared {
            Some(r)
        } else {
            None
        },
        None => None,
    };
    let target = match recovered {
        Some(r) => String::from_str(r.as_str()),
        None => String::from_str(t.current.as_str()),
    };
    let same = str_eq(target.as_str(), t.current.as_str());
    let stranded = same && recovered.is_none() && t.ledger_empty && (t.ran_here || t.run_trace) && match &t.initial {
        Some(i) => !str_eq(i.as_str(), t.current.as_str()),
        None => false,
    };
    let undeclared = t.recorded.is_some() && !t.recorded_declared;
    (target, !same, stranded, undeclared)
}

/// Everything a reset found.
#[derive(Debug, PartialEq)]
pub struct AuthoredStates {
    /// The state each task goes back to, in input order.
    pub targets: Vec<String>,
    /// `(task, state now, authored state)` for the tasks that move.
    pub moves: Vec<(String, String, String)>,
    /// `(task, state now)` for the tasks nothing records the start of.
    pub stranded: Vec<(String, String)>,
    /// `(task, state now, recorded state)` for records the machine no
    /// longer declares.
    pub undeclared: Vec<(String, String, String)>,
}

pub open spec fn ids_of(ts: Seq<AuthoredTask>) -> Seq<Seq<char>> {
    Seq::new(ts.len(), |i: int| ts[i].id@)
}

/// The tasks among the first `k` of `order` that `keep` selects.
pub open spec fn picked(ts: Seq<AuthoredTask>, order: Seq<usize>, which: int, k: int) -> Seq<int>
    decreases k,
{
    if k <= 0 {
        Seq::empty()
    } else {
        let i = order[k - 1] as int;
        let v = authored_spec(ts[i]);
        let keep = if which == 0 {
            v.moved
        } else if which == 1 {
            v.stranded
        } else {
            v.undeclared
        };
        if keep {
            picked(ts, order, which, k - 1).push(i)
        } else {
            picked(ts, order, which, k - 1)
        }
    }
}

/// The reset's findings, each list ordered by task id.
pub open spec fn findings_ok(ts: Seq<AuthoredTask>, r: AuthoredStates, order: Seq<usize>) -> bool {
    let n = ts.len() as int;
    let mv = picked(ts, order, 0, n);
    let st = picked(ts, order, 1, n);
    let ud = picked(ts, order, 2, n);
    &&& permutation_of(order, n)
    &&& sorted_by(ids_of(ts), order)
    &&& r.targets@.len() == n
    &&& forall|i: int| 0 <= i < n ==> (#[trigger] r.targets@[i])@ == authored_spec(ts[i]).target
    &&& r.moves@.len() == mv.len()
    &&& forall|q: int|
        0 <= q < mv.len() ==> (#[trigger] r.moves@[q]).0@ == ts[mv[q]].id@ && r.moves@[q].1@ == ts[mv[q]].current@
            && r.moves@[q].2@ == authored_spec(ts[mv[q]]).target
    &&& r.stranded@.len() == st.len()
    &&& forall|q: int|
        0 <= q < st.len() ==> (#[trigger] r.stranded@[q]).0@ == ts[st[q]].id@ && r.stranded@[q].1@ == ts[st[q]].current@
    &&& r.undeclared@.len() == ud.len()
    &&& forall|q: int|
        0 <= q < ud.len() ==> (#[trigger] r.undeclared@[q]).0@ == ts[ud[q]].id@ && r.undeclared@[q].1@
            == ts[ud[q]].current@ && (ts[ud[q]].recorded matches Some(x) && r.undeclared@[q].2@ == x@)
}

/// Recover every task's authored state and list what moves, what is
/// stranded and what the machine no longer declares, each by task id.
pub fn collect_authored_states(ts: &Vec<AuthoredTask>) -> (r: AuthoredStates)
    ensures
        exists|order: Seq<usize>| findings_ok(ts@, r, order),
{
    let mut ids: Vec<String> = Vec::new();
    let mut targets: Vec<String> = Vec::new();
    let mut i: usize = 0;
    while i < ts.len()
        invariant
            i <= ts@.len(),
            ids@.len() == i,
            targets@.len() == i,
            forall|x: int| 0 <= x < i ==> (#[trigger] ids@[x])@ == ts@[x].id@,
            forall|x: int| 0 <= x < i ==> (#[trigger] targets@[x])@ == authored_spec(ts@[x]).target,
        decreases ts@.len() - i,
    {
        ids.push(String::from_str(ts[i].id.as_str()));
        let (target, _, _, _) = classify_authored(&ts[i]);
        targets.push(target);
        i += 1;
    }
    assert(Seq::new(ids@.len(), |x: int| ids@[x]@) =~= ids_of(ts@));
    let order = stable_order(&ids);
    let ghost n = ts@.len() as int;
    let mut moves: Vec<(String, String, String)> = Vec::new();
    let mut stranded: Vec<(String, String)> = Vec::new();
    let mut undeclared: Vec<(String, String, String)> = Vec::new();
    let mut q: usize = 0;
    while q < order.len()
        invariant
            permutation_of(order@, n),
            n == ts@.len(),
            q <= order@.len(),
            moves@.len() == picked(ts@, order@, 0, q as int).len(),
            forall|x: int|
                0 <= x < moves@.len() ==> (#[trigger] moves@[x]).0@ == ts@[picked(ts@, order@, 0, q as int)[x]].id@
                    && moves@[x].1@ == ts@[picked(ts@, order@, 0, q as int)[x]].current@ && moves@[x].2@ == authored_spec(
                    ts@[picked(ts@, order@, 0, q as int)[x]],
                ).target,
            stranded@.len() == picked(ts@, order@, 1, q as int).len(),
            forall|x: int|
                0 <= x < stranded@.len() ==> (#[trigger] stranded@[x]).0@ == ts@[picked(ts@, order@, 1, q as int)[x]].id@
                    && stranded@[x].1@ == ts@[picked(ts@, order@, 1, q as int)[x]].current@,
            undeclared@.len() == picked(ts@, order@, 2, q as int).len(),
            forall|x: int|
                0 <= x < undeclared@.len() ==> (#[trigger] undeclared@[x]).0@ == ts@[picked(
                    ts@,
                    order@,
                    2,
                    q as int,
                )[x]].id@ && undeclared@[x].1@ == ts@[picked(ts@, order@, 2, q as int)[x]].current@ && (ts@[picked(
                    ts@,
                    order@,
                    2,
                    q as int,
                )[x]].recorded matches Some(y) && undeclared@[x].2@ == y@),
        decreases order@.len() - q,
    {
        let i = order[q];
        let t = &ts[i];
        let (target, moved, is_stranded, is_undeclared) = classify_authored(t);
        if moved {
            moves.push((String::from_str(t.id.as_str()), String::from_str(t.current.as_str()), target));
        }
        if is_stranded {
            stranded.push((String::from_str(t.id.as_str()), String::from_str(t.current.as_str())));
        }
        if is_undeclared {
            let rec = match &t.recorded {
                Some(x) => String::from_str(x.as_str()),
                None => String::new(),
            };
            undeclared.push((String::from_str(t.id.as_str()), String::from_str(t.current.as_str()), rec));
        }
        q += 1;
    }
    let r = AuthoredStates { targets, moves, stranded, undeclared };
    assert(findings_ok(ts@, r, order@));
    r
}


/// `  Task <id>: <from> → <to>`.
pub open spec fn move_line(m: (String, String, String)) -> Seq<char> {
    "  Task "@ + m.0@ + ": "@ + m.1@ + " \u{2192} "@ + m.2@
}

/// `  Task <id>: <state>`.
pub open spec fn stranded_line(s: (String, String)) -> Seq<char> {
    "  Task "@ + s.0@ + ": "@ + s.1@
}

/// The line for a recorded state the machine no longer declares.
pub open spec fn undeclared_line(u: (String, String, String)) -> Seq<char> {
    "Task "@ + u.0@ + " started in '"@ + u.2@ + "', which this state machine no longer declares; left in '"@
        + u.1@ + "'."@
}

/// The heading over the stranded tasks.
pub open spec fn stranded_heading(n: nat) -> Seq<char> {
    "Nothing records where these "@ + decimal(n)
        + " task(s) came from, so they were left as they stand, without the results and logs the rest of this reset removed:"@
}

/// The report of a reset, line by line: the moves under `verb` (or that
/// none moved), the stranded tasks with what to do about them, then each
/// undeclared record.
pub open spec fn report_spec(a: AuthoredStates, verb: Seq<char>) -> Seq<Seq<char>> {
    report_head(a, verb) + report_stranded(a) + Seq::new(a.undeclared@.len(), |i: int| undeclared_line(a.undeclared@[i]))
}

/// The moves under `verb`, or that none moved.
pub open spec fn report_head(a: AuthoredStates, verb: Seq<char>) -> Seq<Seq<char>> {
    if a.moves@.len() == 0 {
        seq!["No task had moved from its authored state."@]
    } else {
        seq![verb + " "@ + decimal(a.moves@.len()) + " task(s) back:"@] + Seq::new(
            a.moves@.len(),
            |i: int| move_line(a.moves@[i]),
        )
    }
}

/// The stranded tasks, framed by what they are and what to do about them.
pub open spec fn report_stranded(a: AuthoredStates) -> Seq<Seq<char>> {
    if a.stranded@.len() == 0 {
        Seq::empty()
    } else {
        seq![stranded_heading(a.stranded@.len())] + Seq::new(a.stranded@.len(), |i: int| stranded_line(a.stranded@[i]))
            + seq!["Edit their **State:** lines directly if that is not where they should be."@]
    }
}

/// The lines `rhei reset` prints about the states it moved, under `verb`
/// ("Would move" for the preview, "Moved" for the summary).
pub fn state_move_report(a: &AuthoredStates, verb: &str) -> (r: Vec<String>)
    ensures
        Seq::new(r@.len(), |i: int| r@[i]@) == report_spec(*a, verb@),
{
    let mut out: Vec<String> = Vec::new();
    if a.moves.len() == 0 {
        out.push(String::from_str("No task had moved from its authored state."));
        assert(Seq::new(out@.len(), |k: int| out@[k]@) =~= report_head(*a, verb@));
    } else {
        let mut h = String::from_str(verb);
        push_str(&mut h, " ");
        let n = u64_to_string(a.moves.len() as u64);
        push_str(&mut h, n.as_str());
        push_str(&mut h, " task(s) back:");
        out.push(h);
        let mut i: usize = 0;
        while i < a.moves.len()
            invariant
                i <= a.moves@.len(),
                out@.len() == i + 1,
                out@[0]@ == verb@ + " "@ + decimal(a.moves@.len()) + " task(s) back:"@,
                forall|k: int| 1 <= k <= i ==> (#[trigger] out@[k])@ == move_line(a.moves@[k - 1]),
            decreases a.moves@.len() - i,
        {
            let m = &a.moves[i];
            let mut l = String::from_str("  Task ");
            push_str(&mut l, m.0.as_str());
            push_str(&mut l, ": ");
            push_str(&mut l, m.1.as_str());
            push_str(&mut l, " \u{2192} ");
            push_str(&mut l, m.2.as_str());
            out.push(l);
            proof {
                assert(out@[i + 1]@ == move_line(a.moves@[i as int]));
            }
            i += 1;
        }
        assert(Seq::new(out@.len(), |k: int| out@[k]@) =~= report_head(*a, verb@));
    }
    let ghost head = Seq::new(out@.len(), |k: int| out@[k]@);
    let base = out.len();
    if a.stranded.len() > 0 {
        let mut h = String::from_str("Nothing records where these ");
        let n = u64_to_string(a.stranded.len() as u64);
        push_str(&mut h, n.as_str());
        push_str(
            &mut h,
            " task(s) came from, so they were left as they stand, without the results and logs the rest of this reset removed:",
        );
        out.push(h);
        let mut i: usize = 0;
        while i < a.stranded.len()
            invariant
                i <= a.stranded@.len(),
                base == head.len(),
                out@.len() == base + i + 1,
                forall|k: int| 0 <= k < base ==> (#[trigger] out@[k])@ == head[k],
                out@[base as int]@ == stranded_heading(a.stranded@.len()),
                forall|k: int| base + 1 <= k <= base + i ==> (#[trigger] out@[k])@ == stranded_line(a.stranded@[k - base - 1]),
            decreases a.stranded@.len() - i,
        {
            let s = &a.stranded[i];
            let mut l = String::from_str("  Task ");
            push_str(&mut l, s.0.as_str());
            push_str(&mut l, ": ");
            push_str(&mut l, s.1.as_str());
            out.push(l);
            proof {
                assert(out@[base + i + 1]@ == stranded_line(a.stranded@[i as int]));
            }
            i += 1;
        }
        out.push(String::from_str("Edit their **State:** lines directly if that is not where they should be."));
        assert(Seq::new(out@.len(), |k: int| out@[k]@) =~= head + report_stranded(*a));
    } else {
        assert(Seq::new(out@.len(), |k: int| out@[k]@) =~= head + report_stranded(*a));
    }
    let ghost upto = Seq::new(out@.len(), |k: int| out@[k]@);
    assert(upto =~= head + report_stranded(*a));
    let base2 = out.len();
    let mut i: usize = 0;
    while i < a.undeclared.len()
        invariant
            i <= a.undeclared@.len(),
            base2 == upto.len(),
            out@.len() == base2 + i,
            forall|k: int| 0 <= k < base2 ==> (#[trigger] out@[k])@ == upto[k],
            forall|k: int| base2 <= k < base2 + i ==> (#[trigger] out@[k])@ == undeclared_line(a.undeclared@[k - base2]),
        decreases a.undeclared@.len() - i,
    {
        let u = &a.undeclared[i];
        let mut l = String::from_str("Task ");
        push_str(&mut l, u.0.as_str());
        push_str(&mut l, " started in '");
        push_str(&mut l, u.2.as_str());
        push_str(&mut l, "', which this state machine no longer declares; left in '");
        push_str(&mut l, u.1.as_str());
        push_str(&mut l, "'.");
        out.push(l);
        proof {
            assert(out@[base2 + i]@ == undeclared_line(a.undeclared@[i as int]));
        }
        i += 1;
    }
    assert(Seq::new(out@.len(), |k: int| out@[k]@) =~= upto + Seq::new(
        a.undeclared@.len(),
        |k: int| undeclared_line(a.undeclared@[k]),
    ));
    out
}

} // verus!
