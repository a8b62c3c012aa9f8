//! The transitions of a state machine as the run reads them: which edge a
//! timeout or unavailable tooling fires, which edges a prompt lists, and
//! whether a supervising state has an edge that finishes its task once the
//! subtree closes.
use vstd::prelude::*;
use crate::text::{contains_infix, chars_of, has_infix, push_str, str_eq};
use crate::yaml::{as_str, deep_items, Yaml, YamlView};

verus! {

/// One declared transition.
#[derive(Debug, PartialEq)]
pub struct TransitionRule {
    /// The source state, or `*` for any.
    pub from: String,
    pub to: String,
    pub condition: Option<String>,
    /// A declared timeout (the edge a watchdog kill takes).
    pub timeout: Option<String>,
    /// `mcpUnavailable:` — `true`, or the MCP servers it fires for.
    pub mcp_unavailable: Option<Yaml>,
    /// `skillUnavailable:` — `true`, or the skills it fires for.
    pub skill_unavailable: Option<Yaml>,
    /// `exitCode:` — a code, a list of codes, or `nonzero`.
    pub exit_code: Option<Yaml>,
}

/// One declared state.
#[derive(Debug, PartialEq)]
pub struct StateInfo {
    pub name: String,
    pub terminal: bool,
    /// A cancellation state (a terminal that is not a success).
    pub cancelled: bool,
}

/// Whether a rule leaves `state`: its source is the state or `*`.
pub open spec fn leaves(r: TransitionRule, state: Seq<char>) -> bool {
    r.from@ == state || r.from@ == "*"@
}

/// The first index among the first `k` rules satisfying `p`.
pub open spec fn first_rule(rules: Seq<TransitionRule>, p: spec_fn(TransitionRule) -> bool, k: int) -> Option<int>
    decreases k,
{
    if k <= 0 {
        None
    } else {
        match first_rule(rules, p, k - 1) {
            Some(i) => Some(i),
            None => if p(rules[k - 1]) {
                Some(k - 1)
            } else {
                None
            },
        }
    }
}

pub(crate) proof fn lemma_first_rule_stays(rules: Seq<TransitionRule>, p: spec_fn(TransitionRule) -> bool, k: int, n: int)
    requires
        0 <= k <= n,
        first_rule(rules, p, k) is Some,
    ensures
        first_rule(rules, p, n) == first_rule(rules, p, k),
    decreases n - k,
{
    if n > k {
        lemma_first_rule_stays(rules, p, k, n - 1);
    }
}

proof fn lemma_first_rule_bounds(rules: Seq<TransitionRule>, p: spec_fn(TransitionRule) -> bool, k: int)
    ensures
        first_rule(rules, p, k) matches Some(i) ==> 0 <= i < k && p(rules[i]),
    decreases k,
{
    if k > 0 {
        lemma_first_rule_bounds(rules, p, k - 1);
    }
}

pub(crate) fn rule_leaves(r: &TransitionRule, state: &str) -> (b: bool)
    ensures
        b == leaves(*r, state@),
{
    str_eq(r.from.as_str(), state) || str_eq(r.from.as_str(), "*")
}

// ---------------------------------------------------------------------------
// Timeout
// ---------------------------------------------------------------------------

pub open spec fn timeout_edge(state: Seq<char>) -> spec_fn(TransitionRule) -> bool {
    |r: TransitionRule| leaves(r, state) && r.timeout is Some
}

/// A rule a timeout into `to` could have taken from `state`.
pub open spec fn timeout_edge_to(state: Seq<char>, to: Seq<char>) -> spec_fn(TransitionRule) -> bool {
    |r: TransitionRule| leaves(r, state) && r.timeout is Some && r.to@ == to
}

/// The timeout the first rule from `from_state` into `to_state` declares.
fn declared_timeout(rules: &Vec<TransitionRule>, from_state: &str, to_state: &str) -> (r: Option<String>)
    ensures
        match first_rule(rules@, timeout_edge_to(from_state@, to_state@), rules@.len() as int) {
            Some(i) => r matches Some(t) && rules@[i].timeout matches Some(d) && t@ == d@,
            None => r is None,
        },
{
    let ghost p = timeout_edge_to(from_state@, to_state@);
    let mut k: usize = 0;
    while k < rules.len()
        invariant
            p == timeout_edge_to(from_state@, to_state@),
            k <= rules@.len(),
            first_rule(rules@, p, k as int) is None,
        decreases rules@.len() - k,
    {
        let r = &rules[k];
        if rule_leaves(r, from_state) && str_eq(r.to.as_str(), to_state) {
            match &r.timeout {
                Some(t) => {
                    proof {
                        assert(p(rules@[k as int]));
                        assert(first_rule(rules@, p, k + 1) == Some(k as int));
                        lemma_first_rule_stays(rules@, p, k + 1, rules@.len() as int);
                    }
                    return Some(String::from_str(t.as_str()));
                },
                None => {},
            }
        }
        k += 1;
    }
    None
}

/// How a fired timeout is labelled: the worker's own timeout as the run
/// formatted it (`formatted`), else the timeout the first matching rule
/// declares, else nothing.
pub fn timeout_label(rules: &Vec<TransitionRule>, from_state: &str, to_state: &str, formatted: Option<String>) -> (r: String)
    ensures
        r@ == match formatted {
            Some(f) => f@,
            None => match first_rule(rules@, timeout_edge_to(from_state@, to_state@), rules@.len() as int) {
                Some(i) => rules@[i].timeout->0@,
                None => Seq::empty(),
            },
        },
{
    match formatted {
        Some(f) => f,
        None => match declared_timeout(rules, from_state, to_state) {
            Some(t) => t,
            None => String::new(),
        },
    }
}

/// The state a timeout takes a task in `from_state` to: the target of the
/// first rule leaving it that declares a timeout.
pub fn find_timeout_transition(rules: &Vec<TransitionRule>, from_state: &str) -> (r: Option<String>)
    ensures
        match first_rule(rules@, timeout_edge(from_state@), rules@.len() as int) {
            Some(i) => r matches Some(t) && t@ == rules@[i].to@,
            None => r is None,
        },
{
    let ghost p = timeout_edge(from_state@);
    let mut k: usize = 0;
    while k < rules.len()
        invariant
            p == timeout_edge(from_state@),
            k <= rules@.len(),
            first_rule(rules@, p, k as int) is None,
        decreases rules@.len() - k,
    {
        if rule_leaves(&rules[k], from_state) && rules[k].timeout.is_some() {
            proof {
                lemma_first_rule_stays(rules@, p, k + 1, rules@.len() as int);
            }
            return Some(String::from_str(rules[k].to.as_str()));
        }
        k += 1;
    }
    None
}

// ---------------------------------------------------------------------------
// Unavailable tooling
// ---------------------------------------------------------------------------

/// What became unavailable.
#[derive(Debug, PartialEq)]
pub enum ToolingKind {
    Mcp,
    Skill,
}

/// Whether any item (read as text, through tags) names an unavailable id.
pub open spec fn names_unavailable(items: Seq<YamlView>, unavailable: Seq<Seq<char>>) -> bool {
    exists|i: int| 0 <= i < items.len() && (as_str(#[trigger] items[i]) matches Some(id) && unavailable.contains(id))
}

/// A `*Unavailable:` trigger fires for `true`, or for a list naming one of
/// the unavailable ids.
pub open spec fn trigger_matches(v: YamlView, unavailable: Seq<Seq<char>>) -> bool {
    match v {
        YamlView::Bool(b) => b,
        YamlView::List(items) => names_unavailable(items, unavailable),
        _ => false,
    }
}

pub open spec fn string_views(v: Seq<String>) -> Seq<Seq<char>> {
    Seq::new(v.len(), |i: int| v[i]@)
}

fn contains_string(v: &Vec<String>, s: &str) -> (r: bool)
    ensures
        r == string_views(v@).contains(s@),
{
    let mut i: usize = 0;
    while i < v.len()
        invariant
            i <= v@.len(),
            forall|q: int| 0 <= q < i ==> string_views(v@)[q] != s@,
        decreases v@.len() - i,
    {
        if str_eq(v[i].as_str(), s) {
            assert(string_views(v@)[i as int] == s@);
            return true;
        }
        i += 1;
    }
    false
}

/// Whether a tooling trigger fires for the unavailable ids.
pub fn tooling_trigger_matches(value: &Yaml, unavailable: &Vec<String>) -> (r: bool)
    ensures
        r == trigger_matches(value.deep(), string_views(unavailable@)),
{
    match value {
        Yaml::Bool(b) => *b,
        Yaml::List(items) => {
            proof {
                crate::yaml::lemma_list_deep(*items);
            }
            let ghost d = deep_items(items@);
            let mut i: usize = 0;
            while i < items.len()
                invariant
                    d == deep_items(items@),
                    value.deep() == YamlView::List(d),
                    i <= items@.len(),
                    forall|q: int|
                        0 <= q < i ==> !(as_str(#[trigger] d[q]) matches Some(id) && string_views(
                            unavailable@,
                        ).contains(id)),
                decreases items@.len() - i,
            {
                assert(d[i as int] == items@[i as int].deep());
                match crate::yaml::str_of(&items[i]) {
                    Some(id) => {
                        if contains_string(unavailable, id.as_str()) {
                            assert(as_str(d[i as int]) == Some(id@));
                            assert(names_unavailable(d, string_views(unavailable@)));
                            return true;
                        }
                    },
                    None => {},
                }
                i += 1;
            }
            false
        },
        _ => false,
    }
}

pub open spec fn tooling_edge(state: Seq<char>, kind: ToolingKind, unavailable: Seq<Seq<char>>) -> spec_fn(
    TransitionRule,
) -> bool {
    |r: TransitionRule|
        leaves(r, state) && match (
            match kind {
                ToolingKind::Mcp => r.mcp_unavailable,
                ToolingKind::Skill => r.skill_unavailable,
            }
        ) {
            Some(v) => trigger_matches(v.deep(), unavailable),
            None => false,
        }
}

/// The rule unavailable tooling fires from `from_state`: the first that
/// leaves it and whose trigger for that kind matches.
pub fn find_tooling_transition(
    rules: &Vec<TransitionRule>,
    from_state: &str,
    kind: &ToolingKind,
    unavailable: &Vec<String>,
) -> (r: Option<usize>)
    ensures
        r matches Some(i) ==> i < rules@.len(),
        match r {
            Some(i) => first_rule(rules@, tooling_edge(from_state@, *kind, string_views(unavailable@)), rules@.len() as int)
                == Some(i as int),
            None => first_rule(rules@, tooling_edge(from_state@, *kind, string_views(unavailable@)), rules@.len() as int)
                is None,
        },
{
    let ghost p = tooling_edge(from_state@, *kind, string_views(unavailable@));
    let mut k: usize = 0;
    while k < rules.len()
        invariant
            p == tooling_edge(from_state@, *kind, string_views(unavailable@)),
            k <= rules@.len(),
            first_rule(rules@, p, k as int) is None,
        decreases rules@.len() - k,
    {
        let rule = &rules[k];
        let trigger = match kind {
            ToolingKind::Mcp => &rule.mcp_unavailable,
            ToolingKind::Skill => &rule.skill_unavailable,
        };
        let fires = rule_leaves(rule, from_state) && match trigger {
            Some(v) => tooling_trigger_matches(v, unavailable),
            None => false,
        };
        if fires {
            assert(p(rules@[k as int]));
            proof {
                lemma_first_rule_stays(rules@, p, k + 1, rules@.len() as int);
            }
            return Some(k);
        }
        assert(!p(rules@[k as int]));
        k += 1;
    }
    None
}

/// How firing a system transition went.
#[derive(Debug, Clone, Copy, PartialEq, Eq, Structural)]
pub enum TimeoutTransitionOutcome {
    /// A matching transition fired.
    Fired,
    /// No such transition is declared from the current state.
    NoRule,
    /// A matching rule existed but firing it failed.
    Failed,
}

// ---------------------------------------------------------------------------
// The transitions a prompt lists
// ---------------------------------------------------------------------------

/// `- <state> -> <to>`, with ` (when <condition>)` when there is one.
pub open spec fn transition_line(state: Seq<char>, r: TransitionRule) -> Seq<char> {
    "- "@ + state + " -> "@ + r.to@ + match r.condition {
        Some(c) => " (when "@ + c@ + ")"@,
        None => Seq::empty(),
    } + "\n"@
}

/// The lines for the first `k` rules that leave `state`.
pub open spec fn transitions_text(rules: Seq<TransitionRule>, state: Seq<char>, k: int) -> Seq<char>
    decreases k,
{
    if k <= 0 {
        Seq::empty()
    } else if leaves(rules[k - 1], state) {
        transitions_text(rules, state, k - 1) + transition_line(state, rules[k - 1])
    } else {
        transitions_text(rules, state, k - 1)
    }
}

/// The transitions available from `state`, one line each, for the prompt.
pub fn transitions_list(rules: &Vec<TransitionRule>, state: &str) -> (r: String)
    ensures
        r@ == transitions_text(rules@, state@, rules@.len() as int),
{
    let mut out = String::new();
    let mut k: usize = 0;
    while k < rules.len()
        invariant
            k <= rules@.len(),
            out@ == transitions_text(rules@, state@, k as int),
        decreases rules@.len() - k,
    {
        let rule = &rules[k];
        if rule_leaves(rule, state) {
            push_str(&mut out, "- ");
            push_str(&mut out, state);
            push_str(&mut out, " -> ");
            push_str(&mut out, rule.to.as_str());
            match &rule.condition {
                Some(c) => {
                    push_str(&mut out, " (when ");
                    push_str(&mut out, c.as_str());
                    push_str(&mut out, ")");
                },
                None => {},
            }
            push_str(&mut out, "\n");
        }
        k += 1;
    }
    out
}

// ---------------------------------------------------------------------------
// Supervising states
// ---------------------------------------------------------------------------

/// The index of the first of the first `k` states named `name`.
pub open spec fn state_index(states: Seq<StateInfo>, name: Seq<char>, k: int) -> Option<int>
    decreases k,
{
    if k <= 0 {
        None
    } else {
        match state_index(states, name, k - 1) {
            Some(i) => Some(i),
            None => if states[k - 1].name@ == name {
                Some(k - 1)
            } else {
                None
            },
        }
    }
}

/// The state named `name`, if declared (the first with that name).
pub open spec fn state_named(states: Seq<StateInfo>, name: Seq<char>) -> Option<StateInfo> {
    match state_index(states, name, states.len() as int) {
        Some(i) => Some(states[i]),
        None => None,
    }
}

proof fn lemma_state_index_stays(states: Seq<StateInfo>, name: Seq<char>, k: int, n: int)
    requires
        0 <= k <= n,
        state_index(states, name, k) is Some,
    ensures
        state_index(states, name, n) == state_index(states, name, k),
    decreases n - k,
{
    if n > k {
        lemma_state_index_stays(states, name, k, n - 1);
    }
}

/// A declared terminal state.
pub open spec fn is_terminal_name(states: Seq<StateInfo>, name: Seq<char>) -> bool {
    state_named(states, name) matches Some(s) && s.terminal
}

/// A declared terminal that is not a cancellation.
pub open spec fn is_success_terminal(states: Seq<StateInfo>, name: Seq<char>) -> bool {
    state_named(states, name) matches Some(s) && s.terminal && !s.cancelled
}

/// An edge out of `state` into a terminal, conditioned on `openDescendants`.
pub open spec fn finishing_edge(states: Seq<StateInfo>, state: Seq<char>) -> spec_fn(TransitionRule) -> bool {
    |r: TransitionRule|
        r.from@ == state && r.to@ != state && is_terminal_name(states, r.to@) && (r.condition matches Some(
            c,
        ) && has_infix(c@, "openDescendants"@))
}

fn find_state<'a>(states: &'a Vec<StateInfo>, name: &str) -> (r: Option<&'a StateInfo>)
    ensures
        match r {
            Some(s) => state_named(states@, name@) == Some(*s),
            None => state_named(states@, name@) is None,
        },
{
    let mut i: usize = 0;
    while i < states.len()
        invariant
            i <= states@.len(),
            state_index(states@, name@, i as int) is None,
        decreases states@.len() - i,
    {
        if str_eq(states[i].name.as_str(), name) {
            proof {
                lemma_state_index_stays(states@, name@, i + 1, states@.len() as int);
            }
            return Some(&states[i]);
        }
        i += 1;
    }
    None
}

/// Whether the machine gives a supervising state an edge that finishes the
/// task once its subtree closes.
pub fn supervising_state_can_finish(rules: &Vec<TransitionRule>, states: &Vec<StateInfo>, state: &str) -> (r: bool)
    ensures
        r == (first_rule(rules@, finishing_edge(states@, state@), rules@.len() as int) is Some),
{
    let ghost p = finishing_edge(states@, state@);
    let marker = chars_of("openDescendants");
    let mut k: usize = 0;
    while k < rules.len()
        invariant
            p == finishing_edge(states@, state@),
            marker@ == "openDescendants"@,
            k <= rules@.len(),
            first_rule(rules@, p, k as int) is None,
        decreases rules@.len() - k,
    {
        let rule = &rules[k];
        let terminal = match find_state(states, rule.to.as_str()) {
            Some(s) => s.terminal,
            None => false,
        };
        let conditioned = match &rule.condition {
            Some(c) => {
                let cv = chars_of(c.as_str());
                contains_infix(cv.as_slice(), marker.as_slice())
            },
            None => false,
        };
        if str_eq(rule.from.as_str(), state) && !str_eq(rule.to.as_str(), state) && terminal && conditioned {
            assert(p(rules@[k as int]));
            proof {
                lemma_first_rule_stays(rules@, p, k + 1, rules@.len() as int);
            }
            return true;
        }
        assert(!p(rules@[k as int]));
        k += 1;
    }
    false
}

pub open spec fn success_edge(states: Seq<StateInfo>, state: Seq<char>) -> spec_fn(TransitionRule) -> bool {
    |r: TransitionRule| r.from@ == state && is_success_terminal(states, r.to@)
}

/// The first success terminal among the first `k` declared states.
pub open spec fn first_success_state(states: Seq<StateInfo>, k: int) -> Option<int>
    decreases k,
{
    if k <= 0 {
        None
    } else {
        match first_success_state(states, k - 1) {
            Some(i) => Some(i),
            None => if is_success_terminal(states, states[k - 1].name@) {
                Some(k - 1)
            } else {
                None
            },
        }
    }
}

proof fn lemma_first_success_stays(states: Seq<StateInfo>, k: int, n: int)
    requires
        0 <= k <= n,
        first_success_state(states, k) is Some,
    ensures
        first_success_state(states, n) == first_success_state(states, k),
    decreases n - k,
{
    if n > k {
        lemma_first_success_stays(states, k, n - 1);
    }
}

/// The terminal a suggested `openDescendants` edge should aim at: one the
/// supervising state already reaches, else the first success terminal in
/// declaration order, else `completed`.
pub open spec fn suggested_final_spec(rules: Seq<TransitionRule>, states: Seq<StateInfo>, state: Seq<char>) -> Seq<char> {
    match first_rule(rules, success_edge(states, state), rules.len() as int) {
        Some(i) => rules[i].to@,
        None => match first_success_state(states, states.len() as int) {
            Some(j) => states[j].name@,
            None => "completed"@,
        },
    }
}

fn success_terminal(states: &Vec<StateInfo>, name: &str) -> (r: bool)
    ensures
        r == is_success_terminal(states@, name@),
{
    match find_state(states, name) {
        Some(s) => s.terminal && !s.cancelled,
        None => false,
    }
}

fn first_success_edge(rules: &Vec<TransitionRule>, states: &Vec<StateInfo>, state: &str) -> (r: Option<String>)
    ensures
        match first_rule(rules@, success_edge(states@, state@), rules@.len() as int) {
            Some(i) => r matches Some(t) && t@ == rules@[i].to@,
            None => r is None,
        },
{
    let ghost p = success_edge(states@, state@);
    let mut k: usize = 0;
    while k < rules.len()
        invariant
            p == success_edge(states@, state@),
            k <= rules@.len(),
            first_rule(rules@, p, k as int) is None,
        decreases rules@.len() - k,
    {
        let rule = &rules[k];
        if str_eq(rule.from.as_str(), state) && success_terminal(states, rule.to.as_str()) {
            assert(p(rules@[k as int]));
            proof {
                lemma_first_rule_stays(rules@, p, k + 1, rules@.len() as int);
            }
            return Some(String::from_str(rule.to.as_str()));
        }
        assert(!p(rules@[k as int]));
        k += 1;
    }
    None
}

fn first_success_name(states: &Vec<StateInfo>) -> (r: Option<String>)
    ensures
        match first_success_state(states@, states@.len() as int) {
            Some(j) => r matches Some(t) && t@ == states@[j].name@,
            None => r is None,
        },
{
    let mut j: usize = 0;
    while j < states.len()
        invariant
            j <= states@.len(),
            first_success_state(states@, j as int) is None,
        decreases states@.len() - j,
    {
        if success_terminal(states, states[j].name.as_str()) {
            proof {
                lemma_first_success_stays(states@, j + 1, states@.len() as int);
            }
            return Some(String::from_str(states[j].name.as_str()));
        }
        j += 1;
    }
    None
}

/// The terminal state to suggest for a missing `openDescendants` edge.
pub fn suggested_final_state(rules: &Vec<TransitionRule>, states: &Vec<StateInfo>, state: &str) -> (r: String)
    ensures
        r@ == suggested_final_spec(rules@, states@, state@),
{
    match first_success_edge(rules, states, state) {
        Some(t) => t,
        None => match first_success_name(states) {
            Some(t) => t,
            None => String::from_str("completed"),
        },
    }
}

} // verus!
