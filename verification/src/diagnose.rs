//! Why `rhei next` could hand nobody a ticket: the category the plan falls
//! into, in the order a worker cares about (nothing in scope, all done,
//! waiting on a human, in progress, held by a supervisor, mid-workflow,
//! blocked by prerequisites), and the explicit transitions a mid-workflow
//! ticket offers instead.
use vstd::prelude::*;
use crate::conditions::{applicable_spec, transition_rule_is_applicable, ParsedState, StateBudget};
use crate::machine::{leaves, rule_leaves, TransitionRule};
use crate::metadata::deep_opt;
use crate::ready::{
    any_open, any_open_descendant, capped, capped_list, first_blocking, first_blocking_prior, priors_done,
    TaskFacts,
};
use crate::text::{decimal, join, join_strings, push_str, u64_to_string};
use crate::yaml::{is_probe_key, Yaml};

verus! {

/// The groups a diagnosis counts tickets in.
#[derive(Debug, Clone, Copy, PartialEq, Eq, Structural)]
pub enum Category {
    /// In the `--rhei` scope.
    Scoped,
    /// In scope and not terminal.
    Open,
    /// Workable, gating, priors satisfied: waiting on a human.
    Gated,
    /// Workable, claimed, priors satisfied.
    InProgress,
    /// Open and held by a supervisor.
    Held,
    /// Workable, past its initial state, priors satisfied.
    MidWorkflow,
    /// Workable with an unsatisfied prior.
    Blocked,
}

/// In scope, open, with a closed subtree: work someone could be handed.
pub open spec fn workable(ts: Seq<TaskFacts>, i: int) -> bool {
    ts[i].in_scope && !ts[i].terminal && !any_open(ts, i)
}

pub open spec fn in_category(ts: Seq<TaskFacts>, i: int, c: Category) -> bool {
    let t = ts[i];
    match c {
        Category::Scoped => t.in_scope,
        Category::Open => t.in_scope && !t.terminal,
        Category::Gated => workable(ts, i) && t.gating && priors_done(ts, t),
        Category::InProgress => workable(ts, i) && !t.gating && t.assignee is Some && priors_done(ts, t),
        Category::Held => t.in_scope && !t.terminal && t.held_by is Some,
        Category::MidWorkflow => workable(ts, i) && !t.gating && !t.initial && priors_done(ts, t),
        Category::Blocked => workable(ts, i) && !priors_done(ts, t),
    }
}

/// The tickets among the first `k` in category `c`, in plan order.
pub open spec fn members(ts: Seq<TaskFacts>, c: Category, k: int) -> Seq<int>
    decreases k,
{
    if k <= 0 {
        Seq::empty()
    } else if in_category(ts, k - 1, c) {
        members(ts, c, k - 1).push(k - 1)
    } else {
        members(ts, c, k - 1)
    }
}

/// How a ticket is named in its category's list.
pub open spec fn item_label(ts: Seq<TaskFacts>, i: int, c: Category) -> Seq<char> {
    let t = ts[i];
    match c {
        Category::InProgress => "Task "@ + t.id@ + " ("@ + t.state@ + ", assignee "@ + match t.assignee {
            Some(a) => a@,
            None => "unknown"@,
        } + ")"@,
        Category::Held => "Task "@ + t.id@ + " held by supervisor Task "@ + match t.held_by {
            Some(s) => s@,
            None => Seq::empty(),
        } + " ("@ + t.holder_state@ + ")"@,
        Category::Blocked => match first_blocking(ts, t.priors@, t.priors@.len() as int) {
            Some(p) => "Task "@ + t.id@ + " waiting on "@ + p,
            None => "Task "@ + t.id@,
        },
        _ => "Task "@ + t.id@ + " ("@ + t.state@ + ")"@,
    }
}

pub open spec fn labels(ts: Seq<TaskFacts>, m: Seq<int>, c: Category) -> Seq<Seq<char>> {
    Seq::new(m.len(), |q: int| item_label(ts, m[q], c))
}

/// The diagnosis. `scope_label` names the `--rhei` scope when there is
/// one; `panta` says the plan is a Panta project, whose empty case points
/// at `hint`; `commands` are the transition commands of the first
/// mid-workflow ticket.
pub open spec fn diagnosis_spec(
    ts: Seq<TaskFacts>,
    scope_label: Option<Seq<char>>,
    panta: bool,
    hint: Seq<char>,
    commands: Seq<Seq<char>>,
) -> Seq<char> {
    let suffix = match scope_label {
        Some(l) => " in the --rhei scope ("@ + l + ")"@,
        None => Seq::empty(),
    };
    let n = ts.len() as int;
    let all = members(ts, Category::Scoped, n);
    let gated = members(ts, Category::Gated, n);
    let busy = members(ts, Category::InProgress, n);
    let held = members(ts, Category::Held, n);
    let mid = members(ts, Category::MidWorkflow, n);
    let blocked = members(ts, Category::Blocked, n);
    if all.len() == 0 {
        match scope_label {
            Some(_) => "no tickets are ready to claim"@ + suffix + " (no tickets in scope)"@,
            None => if panta {
                "no tickets are ready to claim \u{2014} the project has none yet: "@ + hint
            } else {
                "no tickets are ready to claim \u{2014} this rhei has none yet"@
            },
        }
    } else if members(ts, Category::Open, n).len() == 0 {
        match scope_label {
            Some(_) => "Scope complete. All "@ + decimal(all.len()) + " task(s)"@ + suffix
                + " are in terminal states."@,
            None => "Plan complete. All "@ + decimal(all.len()) + " task(s) are in terminal states."@,
        }
    } else if gated.len() > 0 {
        "Blocked: "@ + decimal(gated.len()) + " task(s) waiting on human action: "@ + capped(
            labels(ts, gated, Category::Gated),
        ) + "."@
    } else if busy.len() > 0 {
        "No tasks available to claim"@ + suffix + ". "@ + decimal(busy.len()) + " task(s) are currently in progress: "@
            + capped(labels(ts, busy, Category::InProgress)) + "."@
    } else if held.len() > 0 {
        "no tickets are ready to claim"@ + suffix + ": "@ + decimal(held.len()) + " ticket(s) held by a supervisor: "@
            + capped(labels(ts, held, Category::Held)) + "."@
    } else if mid.len() > 0 {
        "No tasks can be auto-claimed: Task "@ + ts[mid[0]].id@ + " is mid-workflow in state '"@ + ts[mid[0]].state@
            + "'. Pick one of its outgoing transitions explicitly.\n"@ + if commands.len() == 0 {
            "No outgoing transitions are currently applicable for this state."@
        } else {
            "Available transitions:\n"@ + join(commands, "\n"@)
        }
    } else if blocked.len() > 0 {
        "no tickets are ready to claim"@ + suffix + ": "@ + decimal(blocked.len())
            + " ticket(s) blocked by incomplete prerequisites: "@ + capped(labels(ts, blocked, Category::Blocked))
            + "."@
    } else {
        "no tickets are ready to claim"@ + suffix
    }
}

fn category_holds(ts: &Vec<TaskFacts>, i: usize, c: Category) -> (r: bool)
    requires
        i < ts@.len(),
    ensures
        r == in_category(ts@, i as int, c),
{
    let t = &ts[i];
    match c {
        Category::Scoped => t.in_scope,
        Category::Open => t.in_scope && !t.terminal,
        Category::Held => t.in_scope && !t.terminal && t.held_by.is_some(),
        _ => {
            if !(t.in_scope && !t.terminal) || any_open_descendant(ts, i) {
                return false;
            }
            let done = crate::ready::all_priors_done(ts, i);
            match c {
                Category::Gated => t.gating && done,
                Category::InProgress => !t.gating && t.assignee.is_some() && done,
                Category::MidWorkflow => !t.gating && !t.initial && done,
                _ => !done,
            }
        },
    }
}

/// The tickets in category `c`, in plan order.
pub fn select(ts: &Vec<TaskFacts>, c: Category) -> (r: Vec<usize>)
    ensures
        r@.len() == members(ts@, c, ts@.len() as int).len(),
        forall|q: int| 0 <= q < r@.len() ==> (#[trigger] r@[q]) as int == members(ts@, c, ts@.len() as int)[q],
        forall|q: int| 0 <= q < r@.len() ==> (#[trigger] r@[q]) < ts@.len(),
{
    let mut out: Vec<usize> = Vec::new();
    let mut i: usize = 0;
    while i < ts.len()
        invariant
            i <= ts@.len(),
            out@.len() == members(ts@, c, i as int).len(),
            forall|q: int| 0 <= q < out@.len() ==> (#[trigger] out@[q]) as int == members(ts@, c, i as int)[q],
            forall|q: int| 0 <= q < out@.len() ==> (#[trigger] out@[q]) < i,
        decreases ts@.len() - i,
    {
        if category_holds(ts, i, c) {
            out.push(i);
        }
        i += 1;
    }
    out
}

fn label(ts: &Vec<TaskFacts>, i: usize, c: Category) -> (r: String)
    requires
        i < ts@.len(),
    ensures
        r@ == item_label(ts@, i as int, c),
{
    let t = &ts[i];
    let mut out = String::from_str("Task ");
    push_str(&mut out, t.id.as_str());
    match c {
        Category::InProgress => {
            push_str(&mut out, " (");
            push_str(&mut out, t.state.as_str());
            push_str(&mut out, ", assignee ");
            match &t.assignee {
                Some(a) => push_str(&mut out, a.as_str()),
                None => push_str(&mut out, "unknown"),
            }
            push_str(&mut out, ")");
        },
        Category::Held => {
            push_str(&mut out, " held by supervisor Task ");
            match &t.held_by {
                Some(s) => push_str(&mut out, s.as_str()),
                None => {},
            }
            push_str(&mut out, " (");
            push_str(&mut out, t.holder_state.as_str());
            push_str(&mut out, ")");
        },
        Category::Blocked => {
            match first_blocking_prior(ts, i) {
                Some(p) => {
                    push_str(&mut out, " waiting on ");
                    push_str(&mut out, p.as_str());
                },
                None => {},
            }
        },
        _ => {
            push_str(&mut out, " (");
            push_str(&mut out, t.state.as_str());
            push_str(&mut out, ")");
        },
    }
    out
}

fn labelled(ts: &Vec<TaskFacts>, m: &Vec<usize>, c: Category) -> (r: String)
    requires
        forall|q: int| 0 <= q < m@.len() ==> (#[trigger] m@[q]) < ts@.len(),
    ensures
        r@ == capped(labels(ts@, Seq::new(m@.len(), |q: int| m@[q] as int), c)),
{
    let ghost mi = Seq::new(m@.len(), |q: int| m@[q] as int);
    let mut items: Vec<String> = Vec::new();
    let mut q: usize = 0;
    while q < m.len()
        invariant
            q <= m@.len(),
            mi == Seq::new(m@.len(), |q: int| m@[q] as int),
            forall|x: int| 0 <= x < m@.len() ==> (#[trigger] m@[x]) < ts@.len(),
            items@.len() == q,
            forall|x: int| 0 <= x < q ==> (#[trigger] items@[x])@ == item_label(ts@, m@[x] as int, c),
        decreases m@.len() - q,
    {
        items.push(label(ts, m[q], c));
        q += 1;
    }
    assert(Seq::new(items@.len(), |x: int| items@[x]@) =~= labels(ts@, mi, c));
    capped_list(&items)
}

/// The first ticket that is mid-workflow, whose transitions the diagnosis
/// lists.
pub fn first_mid_workflow_task(ts: &Vec<TaskFacts>) -> (r: Option<usize>)
    ensures
        match r {
            Some(i) => members(ts@, Category::MidWorkflow, ts@.len() as int).len() > 0 && i as int == members(
                ts@,
                Category::MidWorkflow,
                ts@.len() as int,
            )[0] && i < ts@.len(),
            None => members(ts@, Category::MidWorkflow, ts@.len() as int).len() == 0,
        },
{
    let mid = select(ts, Category::MidWorkflow);
    if mid.len() > 0 {
        Some(mid[0])
    } else {
        None
    }
}

/// The message `rhei next` gives when no ticket can be auto-claimed.
pub fn diagnose_no_claimable(
    ts: &Vec<TaskFacts>,
    scope_label: Option<&str>,
    panta: bool,
    hint: &str,
    commands: &Vec<String>,
) -> (r: String)
    ensures
        r@ == diagnosis_spec(
            ts@,
            match scope_label {
                Some(l) => Some(l@),
                None => None,
            },
            panta,
            hint@,
            Seq::new(commands@.len(), |q: int| commands@[q]@),
        ),
{
    let ghost n = ts@.len() as int;
    let mut suffix = String::new();
    match scope_label {
        Some(l) => {
            push_str(&mut suffix, " in the --rhei scope (");
            push_str(&mut suffix, l);
            push_str(&mut suffix, ")");
        },
        None => {},
    }
    let all = select(ts, Category::Scoped);
    if all.len() == 0 {
        return match scope_label {
            Some(_) => {
                let mut m = String::from_str("no tickets are ready to claim");
                push_str(&mut m, suffix.as_str());
                push_str(&mut m, " (no tickets in scope)");
                m
            },
            None => if panta {
                let mut m = String::from_str("no tickets are ready to claim \u{2014} the project has none yet: ");
                push_str(&mut m, hint);
                m
            } else {
                String::from_str("no tickets are ready to claim \u{2014} this rhei has none yet")
            },
        };
    }
    let open = select(ts, Category::Open);
    if open.len() == 0 {
        let count = u64_to_string(all.len() as u64);
        return match scope_label {
            Some(_) => {
                let mut m = String::from_str("Scope complete. All ");
                push_str(&mut m, count.as_str());
                push_str(&mut m, " task(s)");
                push_str(&mut m, suffix.as_str());
                push_str(&mut m, " are in terminal states.");
                m
            },
            None => {
                let mut m = String::from_str("Plan complete. All ");
                push_str(&mut m, count.as_str());
                push_str(&mut m, " task(s) are in terminal states.");
                m
            },
        };
    }
    let gated = select(ts, Category::Gated);
    if gated.len() > 0 {
        let mut m = String::from_str("Blocked: ");
        let count = u64_to_string(gated.len() as u64);
        push_str(&mut m, count.as_str());
        push_str(&mut m, " task(s) waiting on human action: ");
        let items = labelled(ts, &gated, Category::Gated);
        proof {
            assert(Seq::new(gated@.len(), |q: int| gated@[q] as int) =~= members(ts@, Category::Gated, n));
        }
        push_str(&mut m, items.as_str());
        push_str(&mut m, ".");
        return m;
    }
    let busy = select(ts, Category::InProgress);
    if busy.len() > 0 {
        let mut m = String::from_str("No tasks available to claim");
        push_str(&mut m, suffix.as_str());
        push_str(&mut m, ". ");
        let count = u64_to_string(busy.len() as u64);
        push_str(&mut m, count.as_str());
        push_str(&mut m, " task(s) are currently in progress: ");
        let items = labelled(ts, &busy, Category::InProgress);
        proof {
            assert(Seq::new(busy@.len(), |q: int| busy@[q] as int) =~= members(ts@, Category::InProgress, n));
        }
        push_str(&mut m, items.as_str());
        push_str(&mut m, ".");
        return m;
    }
    let held = select(ts, Category::Held);
    if held.len() > 0 {
        let mut m = String::from_str("no tickets are ready to claim");
        push_str(&mut m, suffix.as_str());
        push_str(&mut m, ": ");
        let count = u64_to_string(held.len() as u64);
        push_str(&mut m, count.as_str());
        push_str(&mut m, " ticket(s) held by a supervisor: ");
        let items = labelled(ts, &held, Category::Held);
        proof {
            assert(Seq::new(held@.len(), |q: int| held@[q] as int) =~= members(ts@, Category::Held, n));
        }
        push_str(&mut m, items.as_str());
        push_str(&mut m, ".");
        return m;
    }
    let mid = select(ts, Category::MidWorkflow);
    if mid.len() > 0 {
        let t = &ts[mid[0]];
        let mut m = String::from_str("No tasks can be auto-claimed: Task ");
        push_str(&mut m, t.id.as_str());
        push_str(&mut m, " is mid-workflow in state '");
        push_str(&mut m, t.state.as_str());
        push_str(&mut m, "'. Pick one of its outgoing transitions explicitly.\n");
        if commands.len() == 0 {
            push_str(&mut m, "No outgoing transitions are currently applicable for this state.");
        } else {
            push_str(&mut m, "Available transitions:\n");
            let joined = join_strings(commands, "\n");
            proof {
                assert(commands@.map_values(|p: String| p@) =~= Seq::new(commands@.len(), |q: int| commands@[q]@));
            }
            push_str(&mut m, joined.as_str());
        }
        return m;
    }
    let blocked = select(ts, Category::Blocked);
    if blocked.len() > 0 {
        let mut m = String::from_str("no tickets are ready to claim");
        push_str(&mut m, suffix.as_str());
        push_str(&mut m, ": ");
        let count = u64_to_string(blocked.len() as u64);
        push_str(&mut m, count.as_str());
        push_str(&mut m, " ticket(s) blocked by incomplete prerequisites: ");
        let items = labelled(ts, &blocked, Category::Blocked);
        proof {
            assert(Seq::new(blocked@.len(), |q: int| blocked@[q] as int) =~= members(ts@, Category::Blocked, n));
        }
        push_str(&mut m, items.as_str());
        push_str(&mut m, ".");
        return m;
    }
    let mut m = String::from_str("no tickets are ready to claim");
    push_str(&mut m, suffix.as_str());
    m
}

/// One command line per transition a mid-workflow ticket may take now.
pub open spec fn command_lines_spec(
    rules: Seq<TransitionRule>,
    allowed: Seq<bool>,
    quoted_to: Seq<Seq<char>>,
    states: Seq<StateBudget>,
    root: Option<crate::yaml::Entries>,
    task: crate::yaml::YamlView,
    state_name: Seq<char>,
    parsed: ParsedState,
    prefix: Seq<char>,
    k: int,
) -> Seq<Seq<char>>
    decreases k,
{
    if k <= 0 {
        Seq::empty()
    } else {
        let prev = command_lines_spec(rules, allowed, quoted_to, states, root, task, state_name, parsed, prefix, k - 1);
        if leaves(rules[k - 1], state_name) && allowed[k - 1] && applicable_spec(
            rules[k - 1],
            states,
            root,
            task,
            state_name,
            parsed,
        ) == Ok::<bool, Seq<char>>(true) {
            prev.push(prefix + quoted_to[k - 1])
        } else {
            prev
        }
    }
}

/// The start every command line shares: `  rhei[ --state-machine=<m>]
/// transition <plan> --task <id> --from=<from> --to=`.
pub open spec fn command_prefix(state_machine_arg: Option<Seq<char>>, plan_arg: Seq<char>, task_id: Seq<char>, from_arg: Seq<char>) -> Seq<char> {
    "  rhei"@ + match state_machine_arg {
        Some(m) => " --state-machine="@ + m,
        None => Seq::empty(),
    } + " transition "@ + plan_arg + " --task "@ + task_id + " --from="@ + from_arg + " --to="@
}

/// The explicit `rhei transition` commands a ticket in `state_name` may
/// run now: one per rule leaving the state that its profile admits
/// (`allowed`) and that applies. The arguments arrive shell-quoted, each
/// rule's target in `quoted_to`.
pub fn transition_command_lines(
    rules: &Vec<TransitionRule>,
    allowed: &Vec<bool>,
    quoted_to: &Vec<String>,
    states: &Vec<StateBudget>,
    metadata: Option<&Vec<(Yaml, Yaml)>>,
    task_key: &Yaml,
    state_name: &str,
    parsed: &ParsedState,
    task_id: &str,
    plan_arg: &str,
    state_machine_arg: Option<&str>,
    from_arg: &str,
) -> (r: Vec<String>)
    requires
        is_probe_key(task_key.deep()),
        allowed@.len() == rules@.len(),
        quoted_to@.len() == rules@.len(),
    ensures
        Seq::new(r@.len(), |q: int| r@[q]@) == command_lines_spec(
            rules@,
            allowed@,
            Seq::new(quoted_to@.len(), |q: int| quoted_to@[q]@),
            states@,
            deep_opt(metadata),
            task_key.deep(),
            state_name@,
            *parsed,
            command_prefix(
                match state_machine_arg {
                    Some(m) => Some(m@),
                    None => None,
                },
                plan_arg@,
                task_id@,
                from_arg@,
            ),
            rules@.len() as int,
        ),
{
    let mut prefix = String::from_str("  rhei");
    match state_machine_arg {
        Some(m) => {
            push_str(&mut prefix, " --state-machine=");
            push_str(&mut prefix, m);
        },
        None => {},
    }
    push_str(&mut prefix, " transition ");
    push_str(&mut prefix, plan_arg);
    push_str(&mut prefix, " --task ");
    push_str(&mut prefix, task_id);
    push_str(&mut prefix, " --from=");
    push_str(&mut prefix, from_arg);
    push_str(&mut prefix, " --to=");
    let ghost qt = Seq::new(quoted_to@.len(), |q: int| quoted_to@[q]@);
    let mut out: Vec<String> = Vec::new();
    let mut k: usize = 0;
    assert(Seq::new(out@.len(), |q: int| out@[q]@) =~= Seq::<Seq<char>>::empty());
    while k < rules.len()
        invariant
            k <= rules@.len(),
            allowed@.len() == rules@.len(),
            quoted_to@.len() == rules@.len(),
            qt == Seq::new(quoted_to@.len(), |q: int| quoted_to@[q]@),
            is_probe_key(task_key.deep()),
            prefix@ == command_prefix(
                match state_machine_arg {
                    Some(m) => Some(m@),
                    None => None,
                },
                plan_arg@,
                task_id@,
                from_arg@,
            ),
            Seq::new(out@.len(), |q: int| out@[q]@) == command_lines_spec(
                rules@,
                allowed@,
                qt,
                states@,
                deep_opt(metadata),
                task_key.deep(),
                state_name@,
                *parsed,
                prefix@,
                k as int,
            ),
        decreases rules@.len() - k,
    {
        let rule = &rules[k];
        if rule_leaves(rule, state_name) && allowed[k] {
            match transition_rule_is_applicable(rule, states, metadata, task_key, state_name, parsed) {
                Ok(true) => {
                    let mut line = String::from_str(prefix.as_str());
                    push_str(&mut line, quoted_to[k].as_str());
                    out.push(line);
                    assert(Seq::new(out@.len(), |q: int| out@[q]@) =~= command_lines_spec(
                        rules@,
                        allowed@,
                        qt,
                        states@,
                        deep_opt(metadata),
                        task_key.deep(),
                        state_name@,
                        *parsed,
                        prefix@,
                        k + 1,
                    ));
                },
                _ => {},
            }
        }
        k += 1;
    }
    out
}

} // verus!
