//! Which edge a ready ticket takes next: an exact `from` match first, else a
//! wildcard rule into a state that is not terminal (a wildcard into a
//! terminal state is an escape hatch such as cancellation, not progress);
//! and the guard that keeps `rhei run` from completing a manual-only ticket
//! of the built-in default machine on its own.
use vstd::prelude::*;
use crate::conditions::{
    applicable_spec, budget_index, budget_of, transition_rule_is_applicable, ParsedState, StateBudget,
};
use crate::machine::TransitionRule;
use crate::metadata::deep_opt;
use crate::text::{push_str, str_eq, u64_to_string};
use crate::yaml::{is_probe_key, Entries, Yaml, YamlView};

verus! {

/// A declared state that is terminal.
pub open spec fn terminal_target(states: Seq<StateBudget>, name: Seq<char>) -> bool {
    budget_of(states, name) matches Some(b) && b.terminal
}

/// The first index below `n` satisfying `f`.
pub open spec fn first_index(f: spec_fn(int) -> bool, n: int) -> Option<int>
    decreases n,
{
    if n <= 0 {
        None
    } else {
        match first_index(f, n - 1) {
            Some(i) => Some(i),
            None => if f(n - 1) {
                Some(n - 1)
            } else {
                None
            },
        }
    }
}

proof fn lemma_first_index_stays(f: spec_fn(int) -> bool, k: int, n: int)
    requires
        0 <= k <= n,
        first_index(f, k) is Some,
    ensures
        first_index(f, n) == first_index(f, k),
    decreases n - k,
{
    if n > k {
        lemma_first_index_stays(f, k, n - 1);
    }
}

/// A rule the scan stops at: eligible by its source (and, for a wildcard,
/// its target), admitted by the ticket's profile, and whose applicability
/// is anything but a plain no.
pub open spec fn stops_scan(
    rules: Seq<TransitionRule>,
    allowed: Seq<bool>,
    states: Seq<StateBudget>,
    root: Option<Entries>,
    task: YamlView,
    current: Seq<char>,
    parsed: ParsedState,
    wildcard: bool,
    k: int,
) -> bool {
    &&& if wildcard {
        rules[k].from@ == "*"@ && !terminal_target(states, rules[k].to@)
    } else {
        rules[k].from@ == current
    }
    &&& allowed[k]
    &&& applicable_spec(rules[k], states, root, task, current, parsed) != Ok::<bool, Seq<char>>(false)
}

/// The outcome at the rule a scan stopped at: its target, or the error its
/// condition raised.
pub open spec fn outcome_at(
    rules: Seq<TransitionRule>,
    states: Seq<StateBudget>,
    root: Option<Entries>,
    task: YamlView,
    current: Seq<char>,
    parsed: ParsedState,
    k: int,
) -> Result<Option<Seq<char>>, Seq<char>> {
    match applicable_spec(rules[k], states, root, task, current, parsed) {
        Ok(_) => Ok(Some(rules[k].to@)),
        Err(e) => Err(e),
    }
}

/// The next forward transition: the exact scan, then the wildcard scan.
pub open spec fn next_transition_spec(
    rules: Seq<TransitionRule>,
    allowed: Seq<bool>,
    states: Seq<StateBudget>,
    root: Option<Entries>,
    task: YamlView,
    current: Seq<char>,
    parsed: ParsedState,
) -> Result<Option<Seq<char>>, Seq<char>> {
    let n = rules.len() as int;
    match first_index(|k: int| stops_scan(rules, allowed, states, root, task, current, parsed, false, k), n) {
        Some(k) => outcome_at(rules, states, root, task, current, parsed, k),
        None => match first_index(
            |k: int| stops_scan(rules, allowed, states, root, task, current, parsed, true, k),
            n,
        ) {
            Some(k) => outcome_at(rules, states, root, task, current, parsed, k),
            None => Ok(None),
        },
    }
}

fn is_terminal_state(states: &Vec<StateBudget>, name: &str) -> (r: bool)
    ensures
        r == terminal_target(states@, name@),
{
    match budget_index(states, name) {
        Some(i) => states[i].terminal,
        None => false,
    }
}

/// One scan over the rules: exact source matches, or wildcards into states
/// that are not terminal.
fn scan(
    rules: &Vec<TransitionRule>,
    allowed: &Vec<bool>,
    states: &Vec<StateBudget>,
    metadata: Option<&Vec<(Yaml, Yaml)>>,
    task_key: &Yaml,
    current_state: &str,
    parsed: &ParsedState,
    wildcard: bool,
) -> (r: Option<Result<String, String>>)
    requires
        is_probe_key(task_key.deep()),
        allowed@.len() == rules@.len(),
    ensures
        match first_index(
            |k: int|
                stops_scan(
                    rules@,
                    allowed@,
                    states@,
                    deep_opt(metadata),
                    task_key.deep(),
                    current_state@,
                    *parsed,
                    wildcard,
                    k,
                ),
            rules@.len() as int,
        ) {
            Some(k) => match r {
                Some(Ok(t)) => outcome_at(rules@, states@, deep_opt(metadata), task_key.deep(), current_state@, *parsed, k)
                    == Ok::<Option<Seq<char>>, Seq<char>>(Some(t@)),
                Some(Err(e)) => outcome_at(rules@, states@, deep_opt(metadata), task_key.deep(), current_state@, *parsed, k)
                    == Err::<Option<Seq<char>>, Seq<char>>(e@),
                None => false,
            },
            None => r is None,
        },
{
    let ghost f = |k: int|
        stops_scan(rules@, allowed@, states@, deep_opt(metadata), task_key.deep(), current_state@, *parsed, wildcard, k);
    let mut k: usize = 0;
    while k < rules.len()
        invariant
            k <= rules@.len(),
            allowed@.len() == rules@.len(),
            is_probe_key(task_key.deep()),
            f == (|k: int|
                stops_scan(
                    rules@,
                    allowed@,
                    states@,
                    deep_opt(metadata),
                    task_key.deep(),
                    current_state@,
                    *parsed,
                    wildcard,
                    k,
                )),
            first_index(f, k as int) is None,
        decreases rules@.len() - k,
    {
        let rule = &rules[k];
        let eligible = if wildcard {
            str_eq(rule.from.as_str(), "*") && !is_terminal_state(states, rule.to.as_str())
        } else {
            str_eq(rule.from.as_str(), current_state)
        };
        if eligible && allowed[k] {
            match transition_rule_is_applicable(rule, states, metadata, task_key, current_state, parsed) {
                Ok(false) => {},
                Ok(true) => {
                    proof {
                        assert(f(k as int));
                        lemma_first_index_stays(f, k + 1, rules@.len() as int);
                    }
                    return Some(Ok(String::from_str(rule.to.as_str())));
                },
                Err(e) => {
                    proof {
                        assert(f(k as int));
                        lemma_first_index_stays(f, k + 1, rules@.len() as int);
                    }
                    return Some(Err(e));
                },
            }
        }
        assert(!f(k as int));
        k += 1;
    }
    None
}

/// The next forward transition of a ticket in `current_state`. `allowed[k]`
/// says whether the ticket's profile admits the target of `rules[k]`. An
/// error raised by a condition on the way ends the search with that error.
pub fn find_next_transition(
    rules: &Vec<TransitionRule>,
    allowed: &Vec<bool>,
    states: &Vec<StateBudget>,
    metadata: Option<&Vec<(Yaml, Yaml)>>,
    task_key: &Yaml,
    current_state: &str,
    parsed: &ParsedState,
) -> (r: Result<Option<String>, String>)
    requires
        is_probe_key(task_key.deep()),
        allowed@.len() == rules@.len(),
    ensures
        match r {
            Ok(Some(t)) => next_transition_spec(
                rules@,
                allowed@,
                states@,
                deep_opt(metadata),
                task_key.deep(),
                current_state@,
                *parsed,
            ) == Ok::<Option<Seq<char>>, Seq<char>>(Some(t@)),
            Ok(None) => next_transition_spec(
                rules@,
                allowed@,
                states@,
                deep_opt(metadata),
                task_key.deep(),
                current_state@,
                *parsed,
            ) == Ok::<Option<Seq<char>>, Seq<char>>(None),
            Err(e) => next_transition_spec(
                rules@,
                allowed@,
                states@,
                deep_opt(metadata),
                task_key.deep(),
                current_state@,
                *parsed,
            ) == Err::<Option<Seq<char>>, Seq<char>>(e@),
        },
{
    match scan(rules, allowed, states, metadata, task_key, current_state, parsed, false) {
        Some(Ok(t)) => {
            return Ok(Some(t));
        },
        Some(Err(e)) => {
            return Err(e);
        },
        None => {},
    }
    match scan(rules, allowed, states, metadata, task_key, current_state, parsed, true) {
        Some(Ok(t)) => Ok(Some(t)),
        Some(Err(e)) => Err(e),
        None => Ok(None),
    }
}

/// Whether the next forward transition from the initial state leads
/// somewhere that is not terminal.
pub fn initial_state_has_non_terminal_forward_transition(
    rules: &Vec<TransitionRule>,
    allowed: &Vec<bool>,
    states: &Vec<StateBudget>,
    metadata: Option<&Vec<(Yaml, Yaml)>>,
    task_key: &Yaml,
    current_state: &str,
    parsed: &ParsedState,
) -> (r: Result<bool, String>)
    requires
        is_probe_key(task_key.deep()),
        allowed@.len() == rules@.len(),
    ensures
        match next_transition_spec(
            rules@,
            allowed@,
            states@,
            deep_opt(metadata),
            task_key.deep(),
            current_state@,
            *parsed,
        ) {
            Ok(Some(t)) => r == Ok::<bool, String>(!terminal_target(states@, t)),
            Ok(None) => r == Ok::<bool, String>(false),
            Err(e) => r matches Err(m) && m@ == e,
        },
{
    match find_next_transition(rules, allowed, states, metadata, task_key, current_state, parsed) {
        Ok(Some(t)) => Ok(!is_terminal_state(states, t.as_str())),
        Ok(None) => Ok(false),
        Err(e) => Err(e),
    }
}

/// The number of rules among the first `k` from `pending` to `completed`.
pub open spec fn pending_to_completed(rules: Seq<TransitionRule>, k: int) -> nat
    decreases k,
{
    if k <= 0 {
        0
    } else {
        pending_to_completed(rules, k - 1) + if rules[k - 1].from@ == "pending"@ && rules[k - 1].to@ == "completed"@ {
            1nat
        } else {
            0nat
        }
    }
}

/// The built-in default machine: `rhei`, with just `pending` and a terminal
/// `completed`, joined by one rule.
pub open spec fn builtin_manual_spec(name: Seq<char>, states: Seq<StateBudget>, rules: Seq<TransitionRule>) -> bool {
    &&& name == "rhei"@
    &&& states.len() == 2
    &&& budget_of(states, "pending"@) is Some
    &&& terminal_target(states, "completed"@)
    &&& pending_to_completed(rules, rules.len() as int) == 1
}

/// Whether the machine is the built-in default manual machine.
pub fn is_builtin_simple_manual_machine(name: &str, states: &Vec<StateBudget>, rules: &Vec<TransitionRule>) -> (r: bool)
    ensures
        r == builtin_manual_spec(name@, states@, rules@),
{
    if !str_eq(name, "rhei") || states.len() != 2 {
        return false;
    }
    if budget_index(states, "pending").is_none() || !is_terminal_state(states, "completed") {
        return false;
    }
    let mut count: usize = 0;
    let mut k: usize = 0;
    while k < rules.len()
        invariant
            k <= rules@.len(),
            count == pending_to_completed(rules@, k as int),
            count <= k,
        decreases rules@.len() - k,
    {
        if str_eq(rules[k].from.as_str(), "pending") && str_eq(rules[k].to.as_str(), "completed") {
            count += 1;
        }
        k += 1;
    }
    count == 1
}

/// Whether a state runs something on its own: a program, an agent, a
/// model, a target, or a fan-out over models or targets.
pub fn state_declares_autonomous_execution(
    program: bool,
    agent: bool,
    model: bool,
    target: bool,
    all_models: usize,
    all_targets: usize,
) -> (r: bool)
    ensures
        r == (program || agent || model || target || all_models > 0 || all_targets > 0),
{
    program || agent || model || target || all_models > 0 || all_targets > 0
}

/// The terminal state a manual-only ticket would jump to: on the built-in
/// default machine, in its initial state, a state that runs nothing on its
/// own, whose next forward transition is terminal. `rhei run` must leave
/// such a ticket to a human.
pub fn manual_initial_terminal_transition(
    machine_name: &str,
    rules: &Vec<TransitionRule>,
    allowed: &Vec<bool>,
    states: &Vec<StateBudget>,
    metadata: Option<&Vec<(Yaml, Yaml)>>,
    task_key: &Yaml,
    current_state: &str,
    parsed: &ParsedState,
    in_initial_state: bool,
    autonomous: bool,
) -> (r: Result<Option<String>, String>)
    requires
        is_probe_key(task_key.deep()),
        allowed@.len() == rules@.len(),
    ensures
        !(builtin_manual_spec(machine_name@, states@, rules@) && in_initial_state && budget_of(
            states@,
            current_state@,
        ) is Some && !autonomous) ==> r == Ok::<Option<String>, String>(None),
        builtin_manual_spec(machine_name@, states@, rules@) && in_initial_state && budget_of(states@, current_state@)
            is Some && !autonomous ==> match next_transition_spec(
            rules@,
            allowed@,
            states@,
            deep_opt(metadata),
            task_key.deep(),
            current_state@,
            *parsed,
        ) {
            Ok(Some(t)) => if terminal_target(states@, t) {
                r matches Ok(Some(x)) && x@ == t
            } else {
                r == Ok::<Option<String>, String>(None)
            },
            Ok(None) => r == Ok::<Option<String>, String>(None),
            Err(e) => r matches Err(m) && m@ == e,
        },
{
    if !is_builtin_simple_manual_machine(machine_name, states, rules) || !in_initial_state {
        return Ok(None);
    }
    if budget_index(states, current_state).is_none() || autonomous {
        return Ok(None);
    }
    match find_next_transition(rules, allowed, states, metadata, task_key, current_state, parsed) {
        Ok(Some(t)) => if is_terminal_state(states, t.as_str()) {
            Ok(Some(t))
        } else {
            Ok(None)
        },
        Ok(None) => Ok(None),
        Err(e) => Err(e),
    }
}

/// The error an auto-advance ends with when a polling state has used up
/// its attempts and no edge has become applicable: `None` unless the state
/// polls and its recorded visits reached `maxAttempts`.
pub fn poll_exhausted_error(task_id: &str, current_state: &str, poll_max_attempts: Option<u32>, visits: u64) -> (r: Option<
    String,
>)
    ensures
        match poll_max_attempts {
            Some(m) => if visits >= m {
                r matches Some(e) && e@ == "polling exhausted with no matching non-self-loop transition for Task "@
                    + task_id@ + " in state '"@ + current_state@ + "'"@
            } else {
                r is None
            },
            None => r is None,
        },
{
    match poll_max_attempts {
        Some(m) => if visits >= m as u64 {
            let mut e = String::from_str("polling exhausted with no matching non-self-loop transition for Task ");
            push_str(&mut e, task_id);
            push_str(&mut e, " in state '");
            push_str(&mut e, current_state);
            push_str(&mut e, "'");
            Some(e)
        } else {
            None
        },
        None => None,
    }
}

} // verus!
