//! `rhei release`: dropping a ticket's `**Assignee:**` line so abandoned
//! work can be picked up again, leaving every other line of the file, its
//! state, artifacts and ledger alone.
use vstd::prelude::*;
use crate::markdown::{heading_step, node_heading_outside_code};
use crate::text::{
    chars_of, has_prefix, join, join_strings, lines, push_char, push_str, starts_with, str_eq, str_lines, string_of,
};
use crate::ready::TaskFacts;

verus! {

/// The scan over the first `k` lines: in a code block, in the target
/// task, target seen, a line removed, and the lines kept.
pub open spec fn assignee_scan(ls: Seq<Seq<char>>, local_id: Seq<char>, k: int) -> (bool, bool, bool, bool, Seq<Seq<char>>)
    decreases k,
{
    if k <= 0 {
        (false, false, false, false, Seq::empty())
    } else {
        let st = assignee_scan(ls, local_id, k - 1);
        let line = ls[k - 1];
        let step = heading_step(line, st.0);
        let in_target = match step.1 {
            Some(h) => h.1 == local_id,
            None => st.1,
        };
        let found = match step.1 {
            Some(h) => st.2 || h.1 == local_id,
            None => st.2,
        };
        if !step.0 && in_target && has_prefix(line, "**Assignee:**"@) {
            (step.0, in_target, found, true, st.4)
        } else {
            (step.0, in_target, found, st.3, st.4.push(line))
        }
    }
}

/// A task's markdown without the `**Assignee:**` lines of the task whose
/// heading carries `local_id` (outside code blocks), the other lines joined
/// by `\n` with a final `\n` kept; whether the task's heading was found;
/// whether a line was dropped.
pub open spec fn without_assignee_spec(raw: Seq<char>, local_id: Seq<char>) -> (Seq<char>, bool, bool) {
    let ls = lines(raw);
    let st = assignee_scan(ls, local_id, ls.len() as int);
    (
        join(st.4, "\n"@) + if raw.len() > 0 && raw.last() == '\n' {
            "\n"@
        } else {
            Seq::empty()
        },
        st.2,
        st.3,
    )
}

/// One task's markdown without its `**Assignee:**` line, whether the task
/// was found, and whether there was a line to drop.
pub fn without_task_assignee(raw: &str, local_id: &str) -> (r: (String, bool, bool))
    ensures
        (r.0@, r.1, r.2) == without_assignee_spec(raw@, local_id@),
{
    let ls = str_lines(raw);
    let ghost lv = lines(raw@);
    let marker = chars_of("**Assignee:**");
    let mut out: Vec<String> = Vec::new();
    let mut in_code = false;
    let mut in_target = false;
    let mut found = false;
    let mut removed = false;
    let mut k: usize = 0;
    assert(Seq::new(out@.len(), |q: int| out@[q]@) =~= Seq::<Seq<char>>::empty());
    while k < ls.len()
        invariant
            ls@.len() == lv.len(),
            lv == lines(raw@),
            forall|q: int| 0 <= q < ls@.len() ==> (#[trigger] ls@[q])@ == lv[q],
            marker@ == "**Assignee:**"@,
            k <= ls@.len(),
            (in_code, in_target, found, removed, Seq::new(out@.len(), |q: int| out@[q]@)) == assignee_scan(
                lv,
                local_id@,
                k as int,
            ),
        decreases ls@.len() - k,
    {
        let line = string_of(ls[k].as_slice());
        match node_heading_outside_code(line.as_str(), &mut in_code) {
            Some((_, id)) => {
                in_target = str_eq(id.as_str(), local_id);
                found = found || in_target;
            },
            None => {},
        }
        if !in_code && in_target && starts_with(ls[k].as_slice(), marker.as_slice()) {
            removed = true;
        } else {
            let ghost before = Seq::new(out@.len(), |q: int| out@[q]@);
            out.push(line);
            assert(Seq::new(out@.len(), |q: int| out@[q]@) =~= before.push(lv[k as int]));
        }
        k += 1;
    }
    let mut output = join_strings(&out, "\n");
    proof {
        assert(out@.map_values(|p: String| p@) =~= Seq::new(out@.len(), |q: int| out@[q]@));
    }
    let v = chars_of(raw);
    if v.len() > 0 && v[v.len() - 1] == '\n' {
        push_char(&mut output, '\n');
        proof {
            reveal_strlit("\n");
        }
    }
    proof {
        reveal_strlit("\n");
    }
    (output, found, removed)
}

/// Why a claim could not be dropped from a task file.
#[derive(Debug, PartialEq)]
pub enum ReleaseError {
    /// The task's heading is not in the file.
    TaskNotFound,
    /// The task has no `**Assignee:**` line: the file changed since it was
    /// read.
    NoAssigneeLine,
}

/// The new text of a task file with the task's claim dropped, or why it
/// cannot be.
pub fn remove_task_assignee(raw: &str, local_id: &str) -> (r: Result<String, ReleaseError>)
    ensures
        match r {
            Ok(t) => without_assignee_spec(raw@, local_id@).1 && without_assignee_spec(raw@, local_id@).2
                && t@ == without_assignee_spec(raw@, local_id@).0,
            Err(ReleaseError::TaskNotFound) => !without_assignee_spec(raw@, local_id@).1,
            Err(ReleaseError::NoAssigneeLine) => without_assignee_spec(raw@, local_id@).1
                && !without_assignee_spec(raw@, local_id@).2,
        },
{
    let (output, found, removed) = without_task_assignee(raw, local_id);
    if !found {
        return Err(ReleaseError::TaskNotFound);
    }
    if !removed {
        return Err(ReleaseError::NoAssigneeLine);
    }
    Ok(output)
}


// ---------------------------------------------------------------------------
// What a release takes and says
// ---------------------------------------------------------------------------

/// Why `rhei release` refuses a request.
#[derive(Debug, PartialEq)]
pub enum ReleaseRequestError {
    /// Neither or both of a ticket and `--all`.
    TargetChoice,
    /// The ticket named is not in the plan.
    NotFound(String),
    /// The ticket named has no `**Assignee:**`.
    NoClaim(String),
}

impl ReleaseRequestError {
    /// The message and the hint the error is reported with (no hint for a
    /// ticket the plan does not hold: the id help goes under it).
    pub fn message(&self) -> (r: (String, Option<String>))
        ensures
            match self {
                ReleaseRequestError::TargetChoice => r.0@
                    == "`rhei release` takes either one ticket \u{2014} `rhei release <ticket-id>`, or `--task <id>` \u{2014} or `--all`, which sweeps every claimed ticket in scope"@
                    && r.1 is None,
                ReleaseRequestError::NotFound(id) => r.0@ == "task '"@ + id@ + "' not found in the plan"@ && r.1 is None,
                ReleaseRequestError::NoClaim(id) => r.0@ == "Task "@ + id@
                    + " holds no claim \u{2014} it has no **Assignee:** to release"@ && (r.1 matches Some(h) && h@
                    == "nothing to release. See who holds what with: rhei list <plan>"@),
            },
    {
        match self {
            ReleaseRequestError::TargetChoice => (
                String::from_str(
                    "`rhei release` takes either one ticket \u{2014} `rhei release <ticket-id>`, or `--task <id>` \u{2014} or `--all`, which sweeps every claimed ticket in scope",
                ),
                None,
            ),
            ReleaseRequestError::NotFound(id) => {
                let mut m = String::from_str("task '");
                push_str(&mut m, id.as_str());
                push_str(&mut m, "' not found in the plan");
                (m, None)
            },
            ReleaseRequestError::NoClaim(id) => {
                let mut m = String::from_str("Task ");
                push_str(&mut m, id.as_str());
                push_str(&mut m, " holds no claim \u{2014} it has no **Assignee:** to release");
                (m, Some(String::from_str("nothing to release. See who holds what with: rhei list <plan>")))
            },
        }
    }
}

/// `rhei release` takes one ticket or `--all`, not both and not neither.
pub fn check_release_request(has_ticket: bool, all: bool) -> (r: Result<(), ReleaseRequestError>)
    ensures
        r is Ok <==> has_ticket != all,
        r is Err ==> r == Err::<(), ReleaseRequestError>(ReleaseRequestError::TargetChoice),
{
    if has_ticket == all {
        Err(ReleaseRequestError::TargetChoice)
    } else {
        Ok(())
    }
}

/// The claim a named ticket holds: its assignee, refused when the plan has
/// no such ticket or it has none.
pub fn release_target_by_id(id: &str, found: Option<&TaskFacts>) -> (r: Result<String, ReleaseRequestError>)
    ensures
        match found {
            None => (r matches Err(ReleaseRequestError::NotFound(x)) && x@ == id@),
            Some(t) => match t.assignee {
                None => (r matches Err(ReleaseRequestError::NoClaim(x)) && x@ == id@),
                Some(a) => (r matches Ok(v) && v@ == a@),
            },
        },
{
    match found {
        None => Err(ReleaseRequestError::NotFound(String::from_str(id))),
        Some(t) => match &t.assignee {
            None => Err(ReleaseRequestError::NoClaim(String::from_str(id))),
            Some(a) => Ok(String::from_str(a.as_str())),
        },
    }
}

/// A ticket `--all` sweeps: claimed, not terminal (an assignee on a
/// finished ticket records who finished it), in scope.
pub open spec fn claimed(t: TaskFacts) -> bool {
    t.in_scope && !t.terminal && t.assignee is Some
}

/// The tickets among the first `k` that `--all` sweeps, in plan order.
pub open spec fn claimed_among(ts: Seq<TaskFacts>, k: int) -> Seq<int>
    decreases k,
{
    if k <= 0 {
        Seq::empty()
    } else if claimed(ts[k - 1]) {
        claimed_among(ts, k - 1).push(k - 1)
    } else {
        claimed_among(ts, k - 1)
    }
}

/// Every claimed, non-terminal ticket in scope, in plan order.
pub fn claimed_tickets(ts: &Vec<TaskFacts>) -> (r: Vec<usize>)
    ensures
        Seq::new(r@.len(), |i: int| r@[i] as int) == claimed_among(ts@, ts@.len() as int),
{
    let mut out: Vec<usize> = Vec::new();
    let mut i: usize = 0;
    while i < ts.len()
        invariant
            i <= ts@.len(),
            Seq::new(out@.len(), |k: int| out@[k] as int) == claimed_among(ts@, i as int),
        decreases ts@.len() - i,
    {
        let ghost before = Seq::new(out@.len(), |k: int| out@[k] as int);
        if ts[i].in_scope && !ts[i].terminal && ts[i].assignee.is_some() {
            out.push(i);
            assert(Seq::new(out@.len(), |k: int| out@[k] as int) =~= before.push(i as int));
        }
        i += 1;
    }
    out
}

/// A ticket a release drops the claim of, as the report names it.
#[derive(Debug, PartialEq)]
pub struct ReleaseTarget {
    pub id: String,
    pub assignee: String,
    /// Its state as written.
    pub state: String,
    /// Its state normalized under its machine.
    pub normalized_state: String,
    /// The state `rhei next` claims its kind of ticket from, when the
    /// machine names one.
    pub initial_state: Option<String>,
}

/// The lines for one released ticket: what was dropped, and, when it sits
/// past the state `rhei next` claims from, how to move it back.
pub open spec fn target_lines(t: ReleaseTarget, verb: Seq<char>) -> Seq<Seq<char>> {
    let head = seq![verb + " Task "@ + t.id@ + " (was assigned to "@ + t.assignee@ + ")"@];
    match t.initial_state {
        Some(i) => if t.normalized_state@ != i@ {
            head.push(
                "  note: still in '"@ + t.state@ + "'. `rhei next` claims from '"@ + i@
                    + "', so move it back with `rhei transition --task "@ + t.id@ + " --from "@ + t.state@ + " --to "@
                    + i@ + "` if it should be picked up again."@,
            )
        } else {
            head
        },
        None => head,
    }
}

/// The lines of the first `k` targets.
pub open spec fn targets_lines(ts: Seq<ReleaseTarget>, verb: Seq<char>, k: int) -> Seq<Seq<char>>
    decreases k,
{
    if k <= 0 {
        Seq::empty()
    } else {
        targets_lines(ts, verb, k - 1) + target_lines(ts[k - 1], verb)
    }
}

/// What `rhei release` prints: that there was nothing to release, or each
/// target (`Would release` in a dry run, `Released` otherwise), and, in a
/// dry run, that nothing changed.
pub open spec fn release_report_spec(ts: Seq<ReleaseTarget>, dry_run: bool) -> Seq<Seq<char>> {
    if ts.len() == 0 {
        seq!["No claimed tickets to release."@]
    } else {
        let verb = if dry_run {
            "Would release"@
        } else {
            "Released"@
        };
        targets_lines(ts, verb, ts.len() as int) + if dry_run {
            seq![Seq::empty(), "Dry run \u{2014} nothing was changed."@]
        } else {
            Seq::empty()
        }
    }
}

/// The lines `rhei release` prints for `targets`.
pub fn release_report(targets: &Vec<ReleaseTarget>, dry_run: bool) -> (r: Vec<String>)
    ensures
        Seq::new(r@.len(), |i: int| r@[i]@) == release_report_spec(targets@, dry_run),
{
    let mut out: Vec<String> = Vec::new();
    if targets.len() == 0 {
        out.push(String::from_str("No claimed tickets to release."));
        assert(Seq::new(out@.len(), |i: int| out@[i]@) =~= release_report_spec(targets@, dry_run));
        return out;
    }
    let verb = if dry_run {
        "Would release"
    } else {
        "Released"
    };
    let ghost vv = if dry_run {
        "Would release"@
    } else {
        "Released"@
    };
    let mut k: usize = 0;
    while k < targets.len()
        invariant
            k <= targets@.len(),
            verb@ == vv,
            Seq::new(out@.len(), |i: int| out@[i]@) == targets_lines(targets@, vv, k as int),
        decreases targets@.len() - k,
    {
        let t = &targets[k];
        let ghost before = Seq::new(out@.len(), |i: int| out@[i]@);
        let mut l = String::from_str(verb);
        push_str(&mut l, " Task ");
        push_str(&mut l, t.id.as_str());
        push_str(&mut l, " (was assigned to ");
        push_str(&mut l, t.assignee.as_str());
        push_str(&mut l, ")");
        out.push(l);
        let ghost mid = Seq::new(out@.len(), |i: int| out@[i]@);
        assert(mid =~= before.push(l@));
        match &t.initial_state {
            Some(i) => if !str_eq(t.normalized_state.as_str(), i.as_str()) {
                let mut n = String::from_str("  note: still in '");
                push_str(&mut n, t.state.as_str());
                push_str(&mut n, "'. `rhei next` claims from '");
                push_str(&mut n, i.as_str());
                push_str(&mut n, "', so move it back with `rhei transition --task ");
                push_str(&mut n, t.id.as_str());
                push_str(&mut n, " --from ");
                push_str(&mut n, t.state.as_str());
                push_str(&mut n, " --to ");
                push_str(&mut n, i.as_str());
                push_str(&mut n, "` if it should be picked up again.");
                out.push(n);
                assert(Seq::new(out@.len(), |x: int| out@[x]@) =~= mid.push(n@));
            },
            None => {},
        }
        assert(Seq::new(out@.len(), |x: int| out@[x]@) =~= before + target_lines(targets@[k as int], vv));
        k += 1;
    }
    if dry_run {
        let ghost before = Seq::new(out@.len(), |i: int| out@[i]@);
        out.push(String::new());
        out.push(String::from_str("Dry run \u{2014} nothing was changed."));
        assert(Seq::new(out@.len(), |x: int| out@[x]@) =~= before + seq![Seq::empty(), "Dry run \u{2014} nothing was changed."@]);
    } else {
        assert(Seq::new(out@.len(), |x: int| out@[x]@) =~= targets_lines(targets@, vv, targets@.len() as int) + Seq::empty());
    }
    out
}

} // verus!
