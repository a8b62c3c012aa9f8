//! Whether a declared transition may fire now: its visit budget (how often
//! the target state may be entered, or how often a polling state may retry)
//! and its condition, `<lhs> <op> <rhs>` over integers, visit counts, the
//! state's visit limit and numbers from the task's metadata.
use vstd::prelude::*;
use crate::machine::{leaves, rule_leaves, TransitionRule};
use crate::metadata::{
    deep_opt, insert_state_value, key_metadata, key_tasks, key_visits, next_visit, root_copy, root_or_empty,
    stored_visits, sub_mapping, task_metadata_number, task_number_spec, task_visit_count, visit_count_spec,
    yaml_value_to_u64,
};
use crate::text::{chars_of, decimal, parse_i64, parse_i64_spec, push_str, split_whitespace, str_eq, u64_to_string, words};
use crate::yaml::{
    child_or_empty, copy_entries, deep_entries, get, get_value, insert, is_probe_key, lemma_get_insert,
    lemma_insert_twice, lemma_mapping_deep, put_child, str_key, take_child, untag, Entries, Yaml, YamlView,
};

verus! {

/// What a state machine declares about one state: whether it is terminal,
/// and its budget.
#[derive(Debug, PartialEq)]
pub struct StateBudget {
    pub name: String,
    pub terminal: bool,
    /// `visits:`, the most times the state may be entered.
    pub visits: Option<u32>,
    /// `poll.maxAttempts`, for a polling state.
    pub poll_max_attempts: Option<u32>,
}

/// A raw `**State:**` value as the machine parses it: the state, and the
/// visit a `-N` suffix records.
#[derive(Debug, PartialEq)]
pub struct ParsedState {
    pub state: String,
    pub visit: Option<u32>,
}

/// The budget of the state named `name` (the first so named).
pub open spec fn budget_of(states: Seq<StateBudget>, name: Seq<char>) -> Option<StateBudget>
    decreases states.len(),
{
    if states.len() == 0 {
        None
    } else {
        match budget_of(states.drop_last(), name) {
            Some(b) => Some(b),
            None => if states.last().name@ == name {
                Some(states.last())
            } else {
                None
            },
        }
    }
}

/// The state's visit limit, if it declares one.
pub open spec fn visit_limit(states: Seq<StateBudget>, name: Seq<char>) -> Option<u64> {
    match budget_of(states, name) {
        Some(b) => match b.visits {
            Some(v) => Some(v as u64),
            None => None,
        },
        None => None,
    }
}

pub(crate) fn budget_index(states: &Vec<StateBudget>, name: &str) -> (r: Option<usize>)
    ensures
        match r {
            Some(i) => i < states@.len() && budget_of(states@, name@) == Some(states@[i as int]),
            None => budget_of(states@, name@) is None,
        },
{
    let mut i: usize = 0;
    assert(states@.take(0) =~= Seq::<StateBudget>::empty());
    while i < states.len()
        invariant
            i <= states@.len(),
            budget_of(states@.take(i as int), name@) is None,
        decreases states@.len() - i,
    {
        assert(states@.take(i + 1).drop_last() =~= states@.take(i as int));
        if str_eq(states[i].name.as_str(), name) {
            proof {
                lemma_budget_prefix(states@, name@, i + 1);
            }
            return Some(i);
        }
        i += 1;
    }
    assert(states@.take(states@.len() as int) =~= states@);
    None
}

proof fn lemma_budget_prefix(states: Seq<StateBudget>, name: Seq<char>, k: int)
    requires
        0 <= k <= states.len(),
        budget_of(states.take(k), name) is Some,
    ensures
        budget_of(states, name) == budget_of(states.take(k), name),
    decreases states.len() - k,
{
    if k < states.len() {
        assert(states.take(k + 1).drop_last() =~= states.take(k));
        assert(budget_of(states.take(k + 1), name) == budget_of(states.take(k), name));
        lemma_budget_prefix(states, name, k + 1);
    } else {
        assert(states.take(k) =~= states);
    }
}

/// The visit limit `name` declares.
pub fn state_visit_limit(states: &Vec<StateBudget>, name: &str) -> (r: Option<u64>)
    ensures
        r == visit_limit(states@, name@),
{
    match budget_index(states, name) {
        Some(i) => match states[i].visits {
            Some(v) => Some(v as u64),
            None => None,
        },
        None => None,
    }
}

/// The visit a raw state value records for `expected`: its `-N` suffix (1
/// without one), counted only when the value is `expected` and that state
/// declares a visit limit.
pub open spec fn raw_visit_spec(parsed: ParsedState, states: Seq<StateBudget>, expected: Seq<char>) -> u64 {
    if parsed.state@ != expected || visit_limit(states, expected) is None {
        0
    } else {
        match parsed.visit {
            Some(v) => v as u64,
            None => 1,
        }
    }
}

/// The visit count a raw `**State:**` value records for `expected`.
pub fn raw_state_visit_count(parsed: &ParsedState, states: &Vec<StateBudget>, expected: &str) -> (r: u64)
    ensures
        r == raw_visit_spec(*parsed, states@, expected@),
{
    if !str_eq(parsed.state.as_str(), expected) || state_visit_limit(states, expected).is_none() {
        return 0;
    }
    match parsed.visit {
        Some(v) => v as u64,
        None => 1,
    }
}

/// A state as a `**State:**` line writes it: with a `-N` visit suffix when
/// the state counts visits and this is a later one.
pub open spec fn state_value_spec(state: Seq<char>, visit: Option<u64>, states: Seq<StateBudget>) -> Seq<char> {
    match visit {
        Some(c) => if c > 1 && visit_limit(states, state) is Some {
            state + "-"@ + decimal(c as nat)
        } else {
            state
        },
        None => state,
    }
}

/// Format a state with its visit count for the plan.
pub fn format_task_state_value(state_name: &str, visit_count: Option<u64>, states: &Vec<StateBudget>) -> (r: String)
    ensures
        r@ == state_value_spec(state_name@, visit_count, states@),
{
    let mut out = String::from_str(state_name);
    match visit_count {
        Some(c) => {
            if c > 1 && state_visit_limit(states, state_name).is_some() {
                push_str(&mut out, "-");
                let d = u64_to_string(c);
                push_str(&mut out, d.as_str());
            }
        },
        None => {},
    }
    out
}

/// The current visit of the task's current state: the larger of what the
/// metadata and the raw value record; 1 for a state that counts visits and
/// has none recorded; else 0.
pub open spec fn current_visit_spec(
    root: Option<Entries>,
    task: YamlView,
    current: Seq<char>,
    parsed: ParsedState,
    states: Seq<StateBudget>,
) -> u64 {
    let a = visit_count_spec(root, task, current);
    let b = raw_visit_spec(parsed, states, current);
    let c = if a >= b {
        a
    } else {
        b
    };
    if c > 0 {
        c
    } else if visit_limit(states, current) is Some {
        1
    } else {
        0
    }
}

/// The visit the task is on in its current state.
pub fn current_state_visit_count(
    metadata: Option<&Vec<(Yaml, Yaml)>>,
    task_key: &Yaml,
    current_state: &str,
    parsed: &ParsedState,
    states: &Vec<StateBudget>,
) -> (r: u64)
    requires
        is_probe_key(task_key.deep()),
    ensures
        r == current_visit_spec(deep_opt(metadata), task_key.deep(), current_state@, *parsed, states@),
{
    let a = task_visit_count(metadata, task_key, current_state);
    let b = raw_state_visit_count(parsed, states, current_state);
    let c = if a >= b {
        a
    } else {
        b
    };
    if c > 0 {
        c
    } else if state_visit_limit(states, current_state).is_some() {
        1
    } else {
        0
    }
}

/// A condition operand: an integer literal; `visitCount` (or
/// `visit_count`), the current visit; `visits`, the current state's visit
/// limit; or else a number in the task's metadata.
pub open spec fn operand_spec(
    token: Seq<char>,
    root: Option<Entries>,
    task: YamlView,
    current: Seq<char>,
    parsed: ParsedState,
    states: Seq<StateBudget>,
) -> Result<i64, Seq<char>> {
    match parse_i64_spec(token) {
        Some(v) => Ok(v),
        None => if token == "visitCount"@ || token == "visit_count"@ {
            Ok(current_visit_spec(root, task, current, parsed, states) as i64)
        } else if token == "visits"@ {
            match visit_limit(states, current) {
                Some(l) => Ok(l as i64),
                None => Err("state '"@ + current + "' does not declare a visit limit"@),
            }
        } else {
            match task_number_spec(root, task, token) {
                Some(n) => Ok(n as i64),
                None => Err("condition operand '"@ + token + "' is not available in task metadata"@),
            }
        },
    }
}

/// Resolve one operand of a condition.
pub fn resolve_condition_operand(
    token: &str,
    metadata: Option<&Vec<(Yaml, Yaml)>>,
    task_key: &Yaml,
    current_state: &str,
    parsed: &ParsedState,
    states: &Vec<StateBudget>,
) -> (r: Result<i64, String>)
    requires
        is_probe_key(task_key.deep()),
    ensures
        match r {
            Ok(v) => operand_spec(token@, deep_opt(metadata), task_key.deep(), current_state@, *parsed, states@)
                == Ok::<i64, Seq<char>>(v),
            Err(m) => operand_spec(token@, deep_opt(metadata), task_key.deep(), current_state@, *parsed, states@)
                == Err::<i64, Seq<char>>(m@),
        },
{
    let tv = chars_of(token);
    if let Some(v) = parse_i64(tv.as_slice()) {
        return Ok(v);
    }
    if str_eq(token, "visitCount") || str_eq(token, "visit_count") {
        let c = current_state_visit_count(metadata, task_key, current_state, parsed, states);
        return Ok(c as i64);
    }
    if str_eq(token, "visits") {
        return match state_visit_limit(states, current_state) {
            Some(l) => Ok(l as i64),
            None => {
                let mut m = String::from_str("state '");
                push_str(&mut m, current_state);
                push_str(&mut m, "' does not declare a visit limit");
                Err(m)
            },
        };
    }
    match task_metadata_number(metadata, task_key, token) {
        Some(n) => Ok(n as i64),
        None => {
            let mut m = String::from_str("condition operand '");
            push_str(&mut m, token);
            push_str(&mut m, "' is not available in task metadata");
            Err(m)
        },
    }
}

/// `lhs op rhs` for one of the six comparison operators.
pub open spec fn compare_spec(op: Seq<char>, l: i64, r: i64, condition: Seq<char>) -> Result<bool, Seq<char>> {
    if op == "<"@ {
        Ok(l < r)
    } else if op == "<="@ {
        Ok(l <= r)
    } else if op == ">"@ {
        Ok(l > r)
    } else if op == ">="@ {
        Ok(l >= r)
    } else if op == "=="@ {
        Ok(l == r)
    } else if op == "!="@ {
        Ok(l != r)
    } else {
        Err("unsupported operator '"@ + op + "' in transition condition '"@ + condition + "'"@)
    }
}

/// A condition is three words, `<lhs> <op> <rhs>`; the operands are
/// resolved left to right, then compared.
pub open spec fn evaluate_spec(
    condition: Seq<char>,
    root: Option<Entries>,
    task: YamlView,
    current: Seq<char>,
    parsed: ParsedState,
    states: Seq<StateBudget>,
) -> Result<bool, Seq<char>> {
    let parts = words(condition);
    if parts.len() != 3 {
        Err("unsupported transition condition '"@ + condition + "'; expected '<lhs> <op> <rhs>'"@)
    } else {
        match operand_spec(parts[0], root, task, current, parsed, states) {
            Err(e) => Err(e),
            Ok(l) => match operand_spec(parts[2], root, task, current, parsed, states) {
                Err(e) => Err(e),
                Ok(r) => compare_spec(parts[1], l, r, condition),
            },
        }
    }
}

fn compare(op: &Vec<char>, l: i64, r: i64, condition: &str) -> (res: Result<bool, String>)
    ensures
        match res {
            Ok(b) => compare_spec(op@, l, r, condition@) == Ok::<bool, Seq<char>>(b),
            Err(m) => compare_spec(op@, l, r, condition@) == Err::<bool, Seq<char>>(m@),
        },
{
    let lt = chars_of("<");
    let le = chars_of("<=");
    let gt = chars_of(">");
    let ge = chars_of(">=");
    let eq = chars_of("==");
    let ne = chars_of("!=");
    if crate::text::chars_eq(op.as_slice(), lt.as_slice()) {
        Ok(l < r)
    } else if crate::text::chars_eq(op.as_slice(), le.as_slice()) {
        Ok(l <= r)
    } else if crate::text::chars_eq(op.as_slice(), gt.as_slice()) {
        Ok(l > r)
    } else if crate::text::chars_eq(op.as_slice(), ge.as_slice()) {
        Ok(l >= r)
    } else if crate::text::chars_eq(op.as_slice(), eq.as_slice()) {
        Ok(l == r)
    } else if crate::text::chars_eq(op.as_slice(), ne.as_slice()) {
        Ok(l != r)
    } else {
        let mut m = String::from_str("unsupported operator '");
        let o = crate::text::string_of(op.as_slice());
        push_str(&mut m, o.as_str());
        push_str(&mut m, "' in transition condition '");
        push_str(&mut m, condition);
        push_str(&mut m, "'");
        Err(m)
    }
}

/// Evaluate a transition condition.
pub fn evaluate_transition_condition(
    condition: &str,
    metadata: Option<&Vec<(Yaml, Yaml)>>,
    task_key: &Yaml,
    current_state: &str,
    parsed: &ParsedState,
    states: &Vec<StateBudget>,
) -> (r: Result<bool, String>)
    requires
        is_probe_key(task_key.deep()),
    ensures
        match r {
            Ok(b) => evaluate_spec(condition@, deep_opt(metadata), task_key.deep(), current_state@, *parsed, states@)
                == Ok::<bool, Seq<char>>(b),
            Err(m) => evaluate_spec(condition@, deep_opt(metadata), task_key.deep(), current_state@, *parsed, states@)
                == Err::<bool, Seq<char>>(m@),
        },
{
    let cv = chars_of(condition);
    let parts = split_whitespace(cv.as_slice());
    if parts.len() != 3 {
        let mut m = String::from_str("unsupported transition condition '");
        push_str(&mut m, condition);
        push_str(&mut m, "'; expected '<lhs> <op> <rhs>'");
        return Err(m);
    }
    let lhs_text = crate::text::string_of(parts[0].as_slice());
    let lhs = match resolve_condition_operand(lhs_text.as_str(), metadata, task_key, current_state, parsed, states) {
        Ok(v) => v,
        Err(e) => {
            return Err(e);
        },
    };
    let rhs_text = crate::text::string_of(parts[2].as_slice());
    let rhs = match resolve_condition_operand(rhs_text.as_str(), metadata, task_key, current_state, parsed, states) {
        Ok(v) => v,
        Err(e) => {
            return Err(e);
        },
    };
    compare(&parts[1], lhs, rhs, condition)
}

/// Whether `to` may be entered again: a polling state retrying itself stays
/// under its `maxAttempts`; otherwise a state with a visit limit is entered
/// fewer times than the limit (counting the raw value's own visit when the
/// task is already there); a state without one always may be.
pub open spec fn reentry_spec(
    states: Seq<StateBudget>,
    root: Option<Entries>,
    task: YamlView,
    current: Seq<char>,
    parsed: ParsedState,
    to: Seq<char>,
) -> bool {
    let poll = if current == to {
        match budget_of(states, current) {
            Some(b) => b.poll_max_attempts,
            None => None,
        }
    } else {
        None
    };
    match poll {
        Some(max_attempts) => visit_count_spec(root, task, current) + 1 < max_attempts,
        None => match visit_limit(states, to) {
            None => true,
            Some(limit) => {
                let recorded = visit_count_spec(root, task, to);
                let raw = raw_visit_spec(parsed, states, to);
                let c = if current == to && raw > recorded {
                    raw
                } else {
                    recorded
                };
                c < limit
            },
        },
    }
}

/// Whether the visit budget lets the task enter `to_state`.
pub fn loop_reentry_allowed(
    states: &Vec<StateBudget>,
    metadata: Option<&Vec<(Yaml, Yaml)>>,
    task_key: &Yaml,
    current_state: &str,
    parsed: &ParsedState,
    to_state: &str,
) -> (r: bool)
    requires
        is_probe_key(task_key.deep()),
    ensures
        r == reentry_spec(states@, deep_opt(metadata), task_key.deep(), current_state@, *parsed, to_state@),
{
    let same = str_eq(current_state, to_state);
    if same {
        if let Some(i) = budget_index(states, current_state) {
            if let Some(max_attempts) = states[i].poll_max_attempts {
                let current = task_visit_count(metadata, task_key, current_state);
                return current < max_attempts as u64 && current + 1 < max_attempts as u64;
            }
        }
    }
    let limit = match state_visit_limit(states, to_state) {
        None => {
            return true;
        },
        Some(l) => l,
    };
    let recorded = task_visit_count(metadata, task_key, to_state);
    let c = if same {
        let raw = raw_state_visit_count(parsed, states, to_state);
        if raw > recorded {
            raw
        } else {
            recorded
        }
    } else {
        recorded
    };
    c < limit
}

/// Whether a rule may fire now: within its visit budget, and with its
/// condition (if any) holding.
pub open spec fn applicable_spec(
    rule: TransitionRule,
    states: Seq<StateBudget>,
    root: Option<Entries>,
    task: YamlView,
    current: Seq<char>,
    parsed: ParsedState,
) -> Result<bool, Seq<char>> {
    if !reentry_spec(states, root, task, current, parsed, rule.to@) {
        Ok(false)
    } else {
        match rule.condition {
            Some(c) => evaluate_spec(c@, root, task, current, parsed, states),
            None => Ok(true),
        }
    }
}

/// Whether a declared transition is applicable now.
pub fn transition_rule_is_applicable(
    rule: &TransitionRule,
    states: &Vec<StateBudget>,
    metadata: Option<&Vec<(Yaml, Yaml)>>,
    task_key: &Yaml,
    current_state: &str,
    parsed: &ParsedState,
) -> (r: Result<bool, String>)
    requires
        is_probe_key(task_key.deep()),
    ensures
        match r {
            Ok(b) => applicable_spec(*rule, states@, deep_opt(metadata), task_key.deep(), current_state@, *parsed)
                == Ok::<bool, Seq<char>>(b),
            Err(m) => applicable_spec(*rule, states@, deep_opt(metadata), task_key.deep(), current_state@, *parsed)
                == Err::<bool, Seq<char>>(m@),
        },
{
    if !loop_reentry_allowed(states, metadata, task_key, current_state, parsed, rule.to.as_str()) {
        return Ok(false);
    }
    match &rule.condition {
        Some(c) => evaluate_transition_condition(c.as_str(), metadata, task_key, current_state, parsed, states),
        None => Ok(true),
    }
}

/// Why a transition that is not applicable is blocked, in prose.
pub open spec fn blocked_spec(
    rule: TransitionRule,
    states: Seq<StateBudget>,
    root: Option<Entries>,
    task: YamlView,
    current: Seq<char>,
    parsed: ParsedState,
) -> Seq<char> {
    if !reentry_spec(states, root, task, current, parsed, rule.to@) {
        "visit budget for state '"@ + current + "' is exhausted"@
    } else {
        match rule.condition {
            Some(c) => "condition `"@ + c@ + "` evaluated to false"@,
            None => "transition is not currently applicable"@,
        }
    }
}

/// Explain why a declared transition is blocked.
pub fn describe_blocked_transition(
    rule: &TransitionRule,
    states: &Vec<StateBudget>,
    metadata: Option<&Vec<(Yaml, Yaml)>>,
    task_key: &Yaml,
    current_state: &str,
    parsed: &ParsedState,
) -> (r: String)
    requires
        is_probe_key(task_key.deep()),
    ensures
        r@ == blocked_spec(*rule, states@, deep_opt(metadata), task_key.deep(), current_state@, *parsed),
{
    if !loop_reentry_allowed(states, metadata, task_key, current_state, parsed, rule.to.as_str()) {
        let mut m = String::from_str("visit budget for state '");
        push_str(&mut m, current_state);
        push_str(&mut m, "' is exhausted");
        return m;
    }
    match &rule.condition {
        Some(c) => {
            let mut m = String::from_str("condition `");
            push_str(&mut m, c.as_str());
            push_str(&mut m, "` evaluated to false");
            m
        },
        None => String::from_str("transition is not currently applicable"),
    }
}

/// The targets of the first `k` rules that leave `from` and may fire now,
/// each once, in rule order.
pub open spec fn alternatives_spec(
    rules: Seq<TransitionRule>,
    states: Seq<StateBudget>,
    root: Option<Entries>,
    task: YamlView,
    from: Seq<char>,
    parsed: ParsedState,
    k: int,
) -> Seq<Seq<char>>
    decreases k,
{
    if k <= 0 {
        Seq::empty()
    } else {
        let prev = alternatives_spec(rules, states, root, task, from, parsed, k - 1);
        let r = rules[k - 1];
        if leaves(r, from) && applicable_spec(r, states, root, task, from, parsed) == Ok::<bool, Seq<char>>(true)
            && !prev.contains(r.to@) {
            prev.push(r.to@)
        } else {
            prev
        }
    }
}

/// Every state offered as an alternative is the target of a rule that
/// leaves `from` and may fire now, and none is offered twice.
pub proof fn lemma_alternatives_sound(
    rules: Seq<TransitionRule>,
    states: Seq<StateBudget>,
    root: Option<Entries>,
    task: YamlView,
    from: Seq<char>,
    parsed: ParsedState,
    k: int,
)
    requires
        0 <= k <= rules.len(),
    ensures
        forall|i: int|
            0 <= i < alternatives_spec(rules, states, root, task, from, parsed, k).len() ==> exists|j: int|
                0 <= j < k && leaves(rules[j], from) && applicable_spec(rules[j], states, root, task, from, parsed)
                    == Ok::<bool, Seq<char>>(true) && #[trigger] alternatives_spec(
                    rules,
                    states,
                    root,
                    task,
                    from,
                    parsed,
                    k,
                )[i] == rules[j].to@,
        forall|i: int, j: int|
            0 <= i < j < alternatives_spec(rules, states, root, task, from, parsed, k).len() ==> alternatives_spec(
                rules,
                states,
                root,
                task,
                from,
                parsed,
                k,
            )[i] != alternatives_spec(rules, states, root, task, from, parsed, k)[j],
    decreases k,
{
    if k > 0 {
        lemma_alternatives_sound(rules, states, root, task, from, parsed, k - 1);
        let prev = alternatives_spec(rules, states, root, task, from, parsed, k - 1);
        let cur = alternatives_spec(rules, states, root, task, from, parsed, k);
        assert forall|i: int| 0 <= i < cur.len() implies exists|j: int|
            0 <= j < k && leaves(rules[j], from) && applicable_spec(rules[j], states, root, task, from, parsed)
                == Ok::<bool, Seq<char>>(true) && #[trigger] cur[i] == rules[j].to@ by {
            if i < prev.len() {
                assert(cur[i] == prev[i]);
                let j = choose|j: int|
                    0 <= j < k - 1 && leaves(rules[j], from) && applicable_spec(rules[j], states, root, task, from, parsed)
                        == Ok::<bool, Seq<char>>(true) && #[trigger] prev[i] == rules[j].to@;
                assert(0 <= j < k);
            } else {
                assert(cur[i] == rules[k - 1].to@);
            }
        }
        assert forall|i: int, j: int| 0 <= i < j < cur.len() implies cur[i] != cur[j] by {
            if j >= prev.len() {
                assert(!prev.contains(rules[k - 1].to@));
                assert(cur[i] == prev[i]);
            } else {
                assert(cur[i] == prev[i] && cur[j] == prev[j]);
            }
        }
    }
}

fn contains_text(v: &Vec<String>, s: &str) -> (r: bool)
    ensures
        r == Seq::new(v@.len(), |i: int| v@[i]@).contains(s@),
{
    let ghost sv = Seq::new(v@.len(), |i: int| v@[i]@);
    let mut i: usize = 0;
    while i < v.len()
        invariant
            sv == Seq::new(v@.len(), |i: int| v@[i]@),
            i <= v@.len(),
            forall|q: int| 0 <= q < i ==> sv[q] != s@,
        decreases v@.len() - i,
    {
        if str_eq(v[i].as_str(), s) {
            assert(sv[i as int] == s@);
            return true;
        }
        i += 1;
    }
    false
}

/// The states reachable from `from` whose transition may fire now, for an
/// actionable message when the one asked for is blocked.
pub fn applicable_alternatives(
    rules: &Vec<TransitionRule>,
    states: &Vec<StateBudget>,
    metadata: Option<&Vec<(Yaml, Yaml)>>,
    task_key: &Yaml,
    from: &str,
    parsed: &ParsedState,
) -> (r: Vec<String>)
    requires
        is_probe_key(task_key.deep()),
    ensures
        Seq::new(r@.len(), |i: int| r@[i]@) == alternatives_spec(
            rules@,
            states@,
            deep_opt(metadata),
            task_key.deep(),
            from@,
            *parsed,
            rules@.len() as int,
        ),
{
    let ghost root = deep_opt(metadata);
    let ghost task = task_key.deep();
    let mut out: Vec<String> = Vec::new();
    let mut k: usize = 0;
    assert(Seq::new(out@.len(), |i: int| out@[i]@) =~= Seq::<Seq<char>>::empty());
    while k < rules.len()
        invariant
            k <= rules@.len(),
            is_probe_key(task_key.deep()),
            root == deep_opt(metadata),
            task == task_key.deep(),
            Seq::new(out@.len(), |i: int| out@[i]@) == alternatives_spec(
                rules@,
                states@,
                root,
                task,
                from@,
                *parsed,
                k as int,
            ),
        decreases rules@.len() - k,
    {
        let rule = &rules[k];
        if rule_leaves(rule, from) {
            match transition_rule_is_applicable(rule, states, metadata, task_key, from, parsed) {
                Ok(true) => {
                    if !contains_text(&out, rule.to.as_str()) {
                        let ghost before = out@;
                        out.push(String::from_str(rule.to.as_str()));
                        assert(Seq::new(out@.len(), |i: int| out@[i]@) =~= Seq::new(
                            before.len(),
                            |i: int| before[i]@,
                        ).push(rule.to@));
                    }
                },
                _ => {},
            }
        }
        k += 1;
    }
    out
}


// ---------------------------------------------------------------------------
// Exit-code edges of a program state
// ---------------------------------------------------------------------------

/// `Number::as_i64`.
pub open spec fn number_as_i64(v: YamlView) -> Option<i64> {
    match v {
        YamlView::PosInt(n) => if n <= i64::MAX {
            Some(n as i64)
        } else {
            None
        },
        YamlView::NegInt(n) => Some(n),
        _ => None,
    }
}

/// Whether an `exitCode:` matches `code`: a number equal to it, a list
/// holding it (items read through tags), or `nonzero` for a non-zero code.
pub open spec fn exit_code_matches(ec: Option<YamlView>, code: i32) -> bool {
    match ec {
        Some(YamlView::PosInt(n)) => number_as_i64(YamlView::PosInt(n)) == Some(code as i64),
        Some(YamlView::NegInt(n)) => n == code as i64,
        Some(YamlView::List(items)) => exists|k: int|
            0 <= k < items.len() && number_as_i64(untag(#[trigger] items[k])) == Some(code as i64),
        Some(YamlView::Str(s)) => s == "nonzero"@ && code != 0,
        _ => false,
    }
}

/// An `exitCode:` naming exact codes: a number or a list.
pub open spec fn exit_code_exact(ec: Option<YamlView>) -> bool {
    ec matches Some(v) && (v is PosInt || v is NegInt || v is Float || v is List)
}

/// An `exitCode: nonzero`.
pub open spec fn exit_code_nonzero(ec: Option<YamlView>) -> bool {
    ec matches Some(YamlView::Str(s)) && s == "nonzero"@
}

pub open spec fn opt_deep(v: Option<Yaml>) -> Option<YamlView> {
    match v {
        Some(x) => Some(x.deep()),
        None => None,
    }
}

fn untagged(v: &Yaml) -> (r: &Yaml)
    ensures
        r.deep() == untag(v.deep()),
    decreases v,
{
    match v {
        Yaml::Tagged(_, b) => untagged(b),
        _ => v,
    }
}

fn as_i64_exec(v: &Yaml) -> (r: Option<i64>)
    ensures
        r == number_as_i64(v.deep()),
{
    match v {
        Yaml::PosInt(n) => if *n <= 0x7fff_ffff_ffff_ffffu64 {
            Some(*n as i64)
        } else {
            None
        },
        Yaml::NegInt(n) => Some(*n),
        _ => None,
    }
}

/// Whether a rule's `exitCode:` matches the code a program exited with.
pub fn transition_matches_exit_code(rule: &TransitionRule, exit_code: i32) -> (r: bool)
    ensures
        r == exit_code_matches(opt_deep(rule.exit_code), exit_code),
{
    match &rule.exit_code {
        Some(Yaml::PosInt(n)) => as_i64_exec(&Yaml::PosInt(*n)) == Some(exit_code as i64),
        Some(Yaml::NegInt(n)) => *n == exit_code as i64,
        Some(Yaml::List(items)) => {
            proof {
                crate::yaml::lemma_list_deep(*items);
            }
            let ghost d = crate::yaml::deep_items(items@);
            assert(opt_deep(rule.exit_code) == Some(YamlView::List(d)));
            let mut k: usize = 0;
            while k < items.len()
                invariant
                    d == crate::yaml::deep_items(items@),
                    opt_deep(rule.exit_code) == Some(YamlView::List(d)),
                    d.len() == items@.len(),
                    k <= items@.len(),
                    forall|q: int| 0 <= q < k ==> number_as_i64(untag(#[trigger] d[q])) != Some(exit_code as i64),
                decreases items@.len() - k,
            {
                assert(d[k as int] == items@[k as int].deep());
                let u = untagged(&items[k]);
                if as_i64_exec(u) == Some(exit_code as i64) {
                    assert(number_as_i64(untag(d[k as int])) == Some(exit_code as i64));
                    return true;
                }
                k += 1;
            }
            false
        },
        Some(Yaml::Str(s)) => str_eq(s.as_str(), "nonzero") && exit_code != 0,
        _ => false,
    }
}

fn exact_exit_code(rule: &TransitionRule) -> (r: bool)
    ensures
        r == exit_code_exact(opt_deep(rule.exit_code)),
{
    match &rule.exit_code {
        Some(Yaml::PosInt(_)) | Some(Yaml::NegInt(_)) | Some(Yaml::Float(_)) | Some(Yaml::List(_)) => true,
        _ => false,
    }
}

fn nonzero_exit_code(rule: &TransitionRule) -> (r: bool)
    ensures
        r == exit_code_nonzero(opt_deep(rule.exit_code)),
{
    match &rule.exit_code {
        Some(Yaml::Str(s)) => str_eq(s.as_str(), "nonzero"),
        _ => false,
    }
}

/// A rule out of `current` (by name, not `*`) that names the exit code
/// exactly and may fire.
pub open spec fn exact_exit_edge(
    r: TransitionRule,
    states: Seq<StateBudget>,
    root: Option<Entries>,
    task: YamlView,
    current: Seq<char>,
    parsed: ParsedState,
    code: i32,
) -> bool {
    &&& r.from@ == current
    &&& exit_code_exact(opt_deep(r.exit_code))
    &&& exit_code_matches(opt_deep(r.exit_code), code)
    &&& applicable_spec(r, states, root, task, current, parsed) == Ok::<bool, Seq<char>>(true)
}

/// A rule the exit may take: out of `current` by name, with no `exitCode:`
/// or one that matches, not a `nonzero` catch-all when an exact match
/// applies, and applicable.
pub open spec fn exit_edge(
    r: TransitionRule,
    states: Seq<StateBudget>,
    root: Option<Entries>,
    task: YamlView,
    current: Seq<char>,
    parsed: ParsedState,
    code: i32,
    exact_exists: bool,
) -> bool {
    &&& r.from@ == current
    &&& (r.exit_code is None || exit_code_matches(opt_deep(r.exit_code), code))
    &&& !(exact_exists && exit_code_nonzero(opt_deep(r.exit_code)))
    &&& applicable_spec(r, states, root, task, current, parsed) == Ok::<bool, Seq<char>>(true)
}

/// The edge a program's exit takes: the first rule in declaration order
/// that [`exit_edge`] admits, an exact non-zero match outranking a
/// `nonzero` catch-all declared before it.
pub open spec fn program_exit_spec(
    rules: Seq<TransitionRule>,
    states: Seq<StateBudget>,
    root: Option<Entries>,
    task: YamlView,
    current: Seq<char>,
    parsed: ParsedState,
    code: i32,
) -> Option<Seq<char>> {
    let exact_exists = code != 0 && exists|i: int|
        0 <= i < rules.len() && exact_exit_edge(#[trigger] rules[i], states, root, task, current, parsed, code);
    match crate::machine::first_rule(
        rules,
        |r: TransitionRule| exit_edge(r, states, root, task, current, parsed, code, exact_exists),
        rules.len() as int,
    ) {
        Some(i) => Some(rules[i].to@),
        None => None,
    }
}

/// Whether a rule applies now, an error counting as not.
fn applies(
    rule: &TransitionRule,
    states: &Vec<StateBudget>,
    metadata: Option<&Vec<(Yaml, Yaml)>>,
    task_key: &Yaml,
    current_state: &str,
    parsed: &ParsedState,
) -> (r: bool)
    requires
        is_probe_key(task_key.deep()),
    ensures
        r == (applicable_spec(*rule, states@, deep_opt(metadata), task_key.deep(), current_state@, *parsed)
            == Ok::<bool, Seq<char>>(true)),
{
    match transition_rule_is_applicable(rule, states, metadata, task_key, current_state, parsed) {
        Ok(b) => b,
        Err(_) => false,
    }
}

/// The state a program's exit moves its ticket to, if any rule takes it.
pub fn find_program_exit_transition(
    rules: &Vec<TransitionRule>,
    states: &Vec<StateBudget>,
    metadata: Option<&Vec<(Yaml, Yaml)>>,
    task_key: &Yaml,
    current_state: &str,
    parsed: &ParsedState,
    exit_code: i32,
) -> (r: Option<String>)
    requires
        is_probe_key(task_key.deep()),
    ensures
        match r {
            Some(t) => program_exit_spec(
                rules@,
                states@,
                deep_opt(metadata),
                task_key.deep(),
                current_state@,
                *parsed,
                exit_code,
            ) == Some(t@),
            None => program_exit_spec(
                rules@,
                states@,
                deep_opt(metadata),
                task_key.deep(),
                current_state@,
                *parsed,
                exit_code,
            ) is None,
        },
{
    let ghost root = deep_opt(metadata);
    let ghost task = task_key.deep();
    let mut exact_exists = false;
    if exit_code != 0 {
        let mut k: usize = 0;
        while k < rules.len()
            invariant
                k <= rules@.len(),
                is_probe_key(task_key.deep()),
                root == deep_opt(metadata),
                task == task_key.deep(),
                exact_exists == exists|i: int|
                    0 <= i < k && exact_exit_edge(#[trigger] rules@[i], states@, root, task, current_state@, *parsed, exit_code),
            decreases rules@.len() - k,
        {
            let rule = &rules[k];
            if !exact_exists && str_eq(rule.from.as_str(), current_state) && exact_exit_code(rule)
                && transition_matches_exit_code(rule, exit_code) && applies(
                rule,
                states,
                metadata,
                task_key,
                current_state,
                parsed,
            ) {
                exact_exists = true;
            }
            proof {
                if !exact_exists {
                    assert(!exact_exit_edge(rules@[k as int], states@, root, task, current_state@, *parsed, exit_code));
                }
            }
            k += 1;
        }
    }
    let ghost p = |r: TransitionRule| exit_edge(r, states@, root, task, current_state@, *parsed, exit_code, exact_exists);
    let mut k: usize = 0;
    while k < rules.len()
        invariant
            k <= rules@.len(),
            is_probe_key(task_key.deep()),
            root == deep_opt(metadata),
            task == task_key.deep(),
            exact_exists == (exit_code != 0 && exists|i: int|
                0 <= i < rules@.len() && exact_exit_edge(#[trigger] rules@[i], states@, root, task, current_state@, *parsed, exit_code)),
            p == (|r: TransitionRule| exit_edge(r, states@, root, task, current_state@, *parsed, exit_code, exact_exists)),
            crate::machine::first_rule(rules@, p, k as int) is None,
        decreases rules@.len() - k,
    {
        let rule = &rules[k];
        let takes = str_eq(rule.from.as_str(), current_state)
            && (rule.exit_code.is_none() || transition_matches_exit_code(rule, exit_code))
            && !(exact_exists && nonzero_exit_code(rule))
            && applies(rule, states, metadata, task_key, current_state, parsed);
        if takes {
            assert(p(rules@[k as int]));
            proof {
                crate::machine::lemma_first_rule_stays(rules@, p, k + 1, rules@.len() as int);
            }
            return Some(String::from_str(rule.to.as_str()));
        }
        assert(!p(rules@[k as int]));
        k += 1;
    }
    None
}


// ---------------------------------------------------------------------------
// Recording visits
// ---------------------------------------------------------------------------

/// The frontmatter with `metadata.tasks.<task>.stateVisits.<state>` set to
/// `v`, any missing (or non-mapping) level on the way made a new mapping.
pub open spec fn set_visits_spec(root: Entries, task: YamlView, state: Seq<char>, v: u64) -> Entries {
    let md = child_or_empty(root, key_metadata());
    let tasks = child_or_empty(md, key_tasks());
    let te = child_or_empty(tasks, task);
    let sv = child_or_empty(te, key_visits());
    let sv2 = insert(sv, YamlView::Str(state), YamlView::PosInt(v));
    let te2 = insert(te, key_visits(), YamlView::Mapping(sv2));
    let tasks2 = insert(tasks, task, YamlView::Mapping(te2));
    let md2 = insert(md, key_tasks(), YamlView::Mapping(tasks2));
    insert(root, key_metadata(), YamlView::Mapping(md2))
}

fn set_visits(root: &mut Vec<(Yaml, Yaml)>, task_key: &Yaml, state_name: &str, v: u64)
    requires
        is_probe_key(task_key.deep()),
    ensures
        deep_entries(final(root)@) == set_visits_spec(deep_entries(old(root)@), task_key.deep(), state_name@, v),
{
    let ghost r0 = deep_entries(root@);
    let ghost task = task_key.deep();
    let km = str_key("metadata");
    let kt = str_key("tasks");
    let kv = str_key("stateVisits");
    let mut md = take_child(root, &km);
    let mut tasks = take_child(&mut md, &kt);
    let mut te = take_child(&mut tasks, task_key);
    let mut visits = take_child(&mut te, &kv);
    insert_state_value(&mut visits, state_name, Yaml::PosInt(v));
    put_child(&mut te, &kv, visits);
    put_child(&mut tasks, task_key, te);
    put_child(&mut md, &kt, tasks);
    put_child(root, &km, md);
    proof {
        let md0 = child_or_empty(r0, key_metadata());
        let tasks0 = child_or_empty(md0, key_tasks());
        let te0 = child_or_empty(tasks0, task);
        let sv0 = child_or_empty(te0, key_visits());
        let sv2 = insert(sv0, YamlView::Str(state_name@), YamlView::PosInt(v));
        lemma_insert_twice(te0, key_visits(), YamlView::Null, YamlView::Mapping(sv2));
        let te2 = insert(te0, key_visits(), YamlView::Mapping(sv2));
        lemma_insert_twice(tasks0, task, YamlView::Null, YamlView::Mapping(te2));
        let tasks2 = insert(tasks0, task, YamlView::Mapping(te2));
        lemma_insert_twice(md0, key_tasks(), YamlView::Null, YamlView::Mapping(tasks2));
        let md2 = insert(md0, key_tasks(), YamlView::Mapping(tasks2));
        lemma_insert_twice(r0, key_metadata(), YamlView::Null, YamlView::Mapping(md2));
    }
}

/// Entering `to` counts one more visit to it, for a state with a visit
/// limit; `None` (nothing to record) for a state without one.
pub open spec fn transition_visits_spec(
    existing: Option<Entries>,
    task: YamlView,
    to: Seq<char>,
    states: Seq<StateBudget>,
) -> Option<Entries> {
    if visit_limit(states, to) is None {
        None
    } else {
        let root = match existing {
            Some(e) => e,
            None => Seq::empty(),
        };
        Some(set_visits_spec(root, task, to, next_visit(stored_visits(root, task, to)) as u64))
    }
}

/// The metadata after a transition into `to_state`.
pub fn update_metadata_for_transition(
    existing: Option<&Vec<(Yaml, Yaml)>>,
    task_key: &Yaml,
    to_state: &str,
    states: &Vec<StateBudget>,
) -> (r: Option<Vec<(Yaml, Yaml)>>)
    requires
        is_probe_key(task_key.deep()),
        stored_visits(root_or_empty(existing), task_key.deep(), to_state@) != Some(u64::MAX),
    ensures
        deep_opt_vec(r) == transition_visits_spec(deep_opt(existing), task_key.deep(), to_state@, states@),
{
    if state_visit_limit(states, to_state).is_none() {
        return None;
    }
    let mut root = root_copy(existing);
    let ghost r0 = deep_entries(root@);
    let km = str_key("metadata");
    let kt = str_key("tasks");
    let kv = str_key("stateVisits");
    let md = get_mapping(&root, &km);
    let tasks = get_mapping_opt(md, &kt);
    let te = get_mapping_opt(tasks, task_key);
    let sv = get_mapping_opt(te, &kv);
    let ks = str_key(to_state);
    let recorded: Option<u64> = match sv {
        Some(m) => match get_value(m, &ks) {
            Some(v) => yaml_value_to_u64(v),
            None => None,
        },
        None => None,
    };
    assert(recorded == stored_visits(r0, task_key.deep(), to_state@));
    let next: u64 = match recorded {
        Some(n) => (if n < 1 {
            1
        } else {
            n
        }) + 1,
        None => 1,
    };
    set_visits(&mut root, task_key, to_state, next);
    Some(root)
}

pub open spec fn deep_opt_vec(r: Option<Vec<(Yaml, Yaml)>>) -> Option<Entries> {
    match r {
        Some(v) => Some(deep_entries(v@)),
        None => None,
    }
}

/// The plain mapping under `k`, as the write path walks it.
fn get_mapping<'a>(m: &'a Vec<(Yaml, Yaml)>, k: &Yaml) -> (r: Option<&'a Vec<(Yaml, Yaml)>>)
    requires
        is_probe_key(k.deep()),
    ensures
        match r {
            Some(c) => get(deep_entries(m@), k.deep()) == Some(YamlView::Mapping(deep_entries(c@))),
            None => !(get(deep_entries(m@), k.deep()) matches Some(YamlView::Mapping(_))),
        },
{
    match get_value(m, k) {
        Some(Yaml::Mapping(c)) => {
            proof {
                lemma_mapping_deep(*c);
            }
            Some(c)
        },
        _ => None,
    }
}

fn get_mapping_opt<'a>(m: Option<&'a Vec<(Yaml, Yaml)>>, k: &Yaml) -> (r: Option<&'a Vec<(Yaml, Yaml)>>)
    requires
        is_probe_key(k.deep()),
    ensures
        match m {
            Some(e) => match r {
                Some(c) => get(deep_entries(e@), k.deep()) == Some(YamlView::Mapping(deep_entries(c@))),
                None => !(get(deep_entries(e@), k.deep()) matches Some(YamlView::Mapping(_))),
            },
            None => r is None,
        },
{
    match m {
        Some(e) => get_mapping(e, k),
        None => None,
    }
}

/// Record the current visit of the current state when the metadata does
/// not already hold it: `None` for a state without a visit limit, the
/// metadata as it was when it already agrees.
pub open spec fn ensure_current_spec(
    existing: Option<Entries>,
    task: YamlView,
    current: Seq<char>,
    parsed: ParsedState,
    states: Seq<StateBudget>,
) -> Option<Entries> {
    if visit_limit(states, current) is None {
        None
    } else {
        let c = current_visit_spec(existing, task, current, parsed, states);
        if c == visit_count_spec(existing, task, current) {
            existing
        } else {
            let root = match existing {
                Some(e) => e,
                None => Seq::empty(),
            };
            Some(set_visits_spec(root, task, current, c))
        }
    }
}

/// Make the metadata record the visit the task is on.
pub fn ensure_current_state_visit_count(
    existing: Option<&Vec<(Yaml, Yaml)>>,
    task_key: &Yaml,
    current_state: &str,
    parsed: &ParsedState,
    states: &Vec<StateBudget>,
) -> (r: Option<Vec<(Yaml, Yaml)>>)
    requires
        is_probe_key(task_key.deep()),
    ensures
        deep_opt_vec(r) == ensure_current_spec(deep_opt(existing), task_key.deep(), current_state@, *parsed, states@),
{
    if state_visit_limit(states, current_state).is_none() {
        return None;
    }
    let current = current_state_visit_count(existing, task_key, current_state, parsed, states);
    if current == task_visit_count(existing, task_key, current_state) {
        return match existing {
            Some(e) => Some(copy_entries(e)),
            None => None,
        };
    }
    let mut root = root_copy(existing);
    set_visits(&mut root, task_key, current_state, current);
    Some(root)
}

/// A transition into a state with a visit limit records one more visit,
/// and the next read of the count sees it.
pub proof fn lemma_transition_counts_visit(root: Entries, task: YamlView, to: Seq<char>, states: Seq<StateBudget>)
    requires
        visit_limit(states, to) is Some,
        stored_visits(root, task, to) != Some(u64::MAX),
    ensures
        transition_visits_spec(Some(root), task, to, states) matches Some(r) && visit_count_spec(Some(r), task, to)
            == next_visit(stored_visits(root, task, to)),
{
    let v = next_visit(stored_visits(root, task, to)) as u64;
    lemma_visits_read_back(root, task, to, v);
}

/// Once the current visit is ensured, the metadata reads it back.
pub proof fn lemma_ensured_visit_reads_back(
    existing: Option<Entries>,
    task: YamlView,
    current: Seq<char>,
    parsed: ParsedState,
    states: Seq<StateBudget>,
)
    requires
        visit_limit(states, current) is Some,
    ensures
        visit_count_spec(ensure_current_spec(existing, task, current, parsed, states), task, current)
            == current_visit_spec(existing, task, current, parsed, states),
{
    let c = current_visit_spec(existing, task, current, parsed, states);
    if c != visit_count_spec(existing, task, current) {
        let root = match existing {
            Some(e) => e,
            None => Seq::empty(),
        };
        lemma_visits_read_back(root, task, current, c);
    }
}

proof fn lemma_visits_read_back(root: Entries, task: YamlView, state: Seq<char>, v: u64)
    requires
        v >= 1,
    ensures
        visit_count_spec(Some(set_visits_spec(root, task, state, v)), task, state) == v,
{
    let md = child_or_empty(root, key_metadata());
    let tasks = child_or_empty(md, key_tasks());
    let te = child_or_empty(tasks, task);
    let sv = child_or_empty(te, key_visits());
    let sv2 = insert(sv, YamlView::Str(state), YamlView::PosInt(v));
    let te2 = insert(te, key_visits(), YamlView::Mapping(sv2));
    let tasks2 = insert(tasks, task, YamlView::Mapping(te2));
    let md2 = insert(md, key_tasks(), YamlView::Mapping(tasks2));
    let r = insert(root, key_metadata(), YamlView::Mapping(md2));
    lemma_get_insert(root, key_metadata(), YamlView::Mapping(md2));
    lemma_get_insert(md, key_tasks(), YamlView::Mapping(tasks2));
    lemma_get_insert(tasks, task, YamlView::Mapping(te2));
    lemma_get_insert(te, key_visits(), YamlView::Mapping(sv2));
    lemma_get_insert(sv, YamlView::Str(state), YamlView::PosInt(v));
    assert(sub_mapping(Some(r), key_metadata()) == Some(md2));
    assert(sub_mapping(Some(md2), key_tasks()) == Some(tasks2));
    assert(sub_mapping(Some(tasks2), task) == Some(te2));
    assert(sub_mapping(Some(te2), key_visits()) == Some(sv2));
}

} // verus!
