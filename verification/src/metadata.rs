//! Per-task runtime metadata kept in the plan's frontmatter under
//! `metadata.tasks.<task>`: how often each state was visited (`stateVisits`)
//! and when a polling state may next be attempted (`pollNextAttemptAt`).
use vstd::prelude::*;
use crate::text::{chars_of, has_prefix, has_suffix, starts_with, ends_with, contains_char, parse_u64, parse_u64_spec, push_char, push_str};
use crate::yaml::{
    Yaml, YamlView, Entries, deep_entries, get, insert, swap_remove, as_mapping, child_or_empty,
    number_as_u64, is_probe_key, unique_keys, str_key, get_value, mapping_of, take_child,
    put_child, remove_entry, find_key, copy_entries, lemma_mapping_deep, lemma_get_insert,
    lemma_get_insert_other, lemma_insert_twice, lemma_get_swap_remove, lemma_get_swap_remove_other,
    lemma_insert_unique, lemma_swap_remove_unique, insert_entry, copy_probe_key,
};

verus! {

pub open spec fn key_metadata() -> YamlView {
    YamlView::Str("metadata"@)
}

pub open spec fn key_tasks() -> YamlView {
    YamlView::Str("tasks"@)
}

pub open spec fn key_visits() -> YamlView {
    YamlView::Str("stateVisits"@)
}

pub open spec fn key_poll() -> YamlView {
    YamlView::Str("pollNextAttemptAt"@)
}

/// The mapping stored under `k`, looking through tags.
pub open spec fn sub_mapping(m: Option<Entries>, k: YamlView) -> Option<Entries> {
    match m {
        Some(e) => match get(e, k) {
            Some(v) => as_mapping(v),
            None => None,
        },
        None => None,
    }
}

/// `metadata.tasks.<task>` of the frontmatter, when each step is a mapping.
pub open spec fn task_map_spec(root: Option<Entries>, task: YamlView) -> Option<Entries> {
    sub_mapping(sub_mapping(sub_mapping(root, key_metadata()), key_tasks()), task)
}

/// A number that fits `u64`, read from a value that is itself a number.
pub open spec fn value_u64(v: Option<YamlView>) -> Option<u64> {
    match v {
        Some(x) => number_as_u64(x),
        None => None,
    }
}

/// A deadline: a non-negative number, or a string that parses as one.
pub open spec fn epoch_secs(v: YamlView) -> Option<u64> {
    match v {
        YamlView::PosInt(n) => Some(n),
        YamlView::Str(s) => parse_u64_spec(s),
        _ => None,
    }
}

pub open spec fn entry_of(m: Option<Entries>, k: YamlView) -> Option<YamlView> {
    match m {
        Some(e) => get(e, k),
        None => None,
    }
}

/// How many times `task` has visited `state`: the recorded count, at least 1
/// once anything is recorded, and 0 when nothing is.
pub open spec fn visit_count_spec(root: Option<Entries>, task: YamlView, state: Seq<char>) -> u64 {
    match value_u64(
        entry_of(sub_mapping(task_map_spec(root, task), key_visits()), YamlView::Str(state)),
    ) {
        Some(c) => if c < 1 {
            1
        } else {
            c
        },
        None => 0,
    }
}

/// When a polling `state` of `task` may next be attempted.
pub open spec fn poll_at_spec(root: Option<Entries>, task: YamlView, state: Seq<char>) -> Option<u64> {
    match entry_of(sub_mapping(task_map_spec(root, task), key_poll()), YamlView::Str(state)) {
        Some(v) => epoch_secs(v),
        None => None,
    }
}

/// A number-valued field of the task's own metadata.
pub open spec fn task_number_spec(root: Option<Entries>, task: YamlView, field: Seq<char>) -> Option<u64> {
    value_u64(entry_of(task_map_spec(root, task), YamlView::Str(field)))
}

/// `Value::as_u64` on a value that is a number (a tag is not looked through).
pub fn yaml_value_to_u64(value: &Yaml) -> (r: Option<u64>)
    ensures
        r == number_as_u64(value.deep()),
{
    match value {
        Yaml::PosInt(n) => Some(*n),
        _ => None,
    }
}

/// A poll deadline: a number, or a string holding one.
pub fn yaml_value_to_epoch_secs(value: &Yaml) -> (r: Option<u64>)
    ensures
        r == epoch_secs(value.deep()),
{
    match value {
        Yaml::PosInt(n) => Some(*n),
        Yaml::Str(s) => {
            let v = chars_of(s.as_str());
            parse_u64(v.as_slice())
        },
        _ => None,
    }
}

fn sub_mapping_exec<'a>(m: Option<&'a Vec<(Yaml, Yaml)>>, key: &Yaml) -> (r: Option<&'a Vec<(Yaml, Yaml)>>)
    requires
        is_probe_key(key.deep()),
    ensures
        match m {
            Some(e) => match r {
                Some(x) => sub_mapping(Some(deep_entries(e@)), key.deep()) == Some(deep_entries(x@)),
                None => sub_mapping(Some(deep_entries(e@)), key.deep()) == None::<Entries>,
            },
            None => r is None,
        },
{
    match m {
        Some(e) => match get_value(e, key) {
            Some(v) => mapping_of(v),
            None => None,
        },
        None => None,
    }
}

pub open spec fn deep_opt(m: Option<&Vec<(Yaml, Yaml)>>) -> Option<Entries> {
    match m {
        Some(e) => Some(deep_entries(e@)),
        None => None,
    }
}

/// `metadata.tasks.<task>`.
pub fn task_metadata_map<'a>(metadata: Option<&'a Vec<(Yaml, Yaml)>>, task_key: &Yaml) -> (r: Option<&'a Vec<(Yaml, Yaml)>>)
    requires
        is_probe_key(task_key.deep()),
    ensures
        deep_opt(r) == task_map_spec(deep_opt(metadata), task_key.deep()),
{
    let k1 = str_key("metadata");
    let k2 = str_key("tasks");
    let a = sub_mapping_exec(metadata, &k1);
    let b = sub_mapping_exec(a, &k2);
    sub_mapping_exec(b, task_key)
}

fn entry_exec<'a>(m: Option<&'a Vec<(Yaml, Yaml)>>, key: &Yaml) -> (r: Option<&'a Yaml>)
    requires
        is_probe_key(key.deep()),
    ensures
        match r {
            Some(v) => entry_of(deep_opt(m), key.deep()) == Some(v.deep()),
            None => entry_of(deep_opt(m), key.deep()) == None::<YamlView>,
        },
{
    match m {
        Some(e) => get_value(e, key),
        None => None,
    }
}

/// A number-valued field of `metadata.tasks.<task>`.
pub fn task_metadata_number(metadata: Option<&Vec<(Yaml, Yaml)>>, task_key: &Yaml, field: &str) -> (r: Option<u64>)
    requires
        is_probe_key(task_key.deep()),
    ensures
        r == task_number_spec(deep_opt(metadata), task_key.deep(), field@),
{
    let tm = task_metadata_map(metadata, task_key);
    let k = str_key(field);
    match entry_exec(tm, &k) {
        Some(v) => yaml_value_to_u64(v),
        None => None,
    }
}

/// How many times the task has visited `state_name` (see [`visit_count_spec`]).
pub fn task_visit_count(metadata: Option<&Vec<(Yaml, Yaml)>>, task_key: &Yaml, state_name: &str) -> (r: u64)
    requires
        is_probe_key(task_key.deep()),
    ensures
        r == visit_count_spec(deep_opt(metadata), task_key.deep(), state_name@),
{
    let tm = task_metadata_map(metadata, task_key);
    let kv = str_key("stateVisits");
    let sv = sub_mapping_exec(tm, &kv);
    let ks = str_key(state_name);
    match entry_exec(sv, &ks) {
        Some(v) => match yaml_value_to_u64(v) {
            Some(c) => if c < 1 {
                1
            } else {
                c
            },
            None => 0,
        },
        None => 0,
    }
}

/// The recorded next-attempt time of a polling state.
pub fn poll_next_attempt_at(metadata: Option<&Vec<(Yaml, Yaml)>>, task_key: &Yaml, state_name: &str) -> (r: Option<u64>)
    requires
        is_probe_key(task_key.deep()),
    ensures
        r == poll_at_spec(deep_opt(metadata), task_key.deep(), state_name@),
{
    let tm = task_metadata_map(metadata, task_key);
    let kp = str_key("pollNextAttemptAt");
    let pm = sub_mapping_exec(tm, &kp);
    let ks = str_key(state_name);
    match entry_exec(pm, &ks) {
        Some(v) => yaml_value_to_epoch_secs(v),
        None => None,
    }
}

// ---------------------------------------------------------------------------
// Writing
// ---------------------------------------------------------------------------

/// The stored visit count the write path increments: read through plain
/// mappings, the way `ensure_mapping` walks.
pub open spec fn stored_visits(root: Entries, task: YamlView, state: Seq<char>) -> Option<u64> {
    let md = child_or_empty(root, key_metadata());
    let tasks = child_or_empty(md, key_tasks());
    let te = child_or_empty(tasks, task);
    let sv = child_or_empty(te, key_visits());
    value_u64(get(sv, YamlView::Str(state)))
}

/// The next visit count for a state: one more than the recorded count (taken
/// as at least 1), or 1 when none is recorded.
pub open spec fn next_visit(recorded: Option<u64>) -> int {
    match recorded {
        Some(n) => (if n < 1 {
            1int
        } else {
            n as int
        }) + 1,
        None => 1,
    }
}

/// `set_poll_next_attempt_metadata`: record the next attempt time of `state`
/// and count one more visit to it, creating any missing level on the way.
pub open spec fn set_poll_spec(root: Entries, task: YamlView, state: Seq<char>, at: u64) -> Entries {
    let md = child_or_empty(root, key_metadata());
    let tasks = child_or_empty(md, key_tasks());
    let te = child_or_empty(tasks, task);
    let poll = child_or_empty(te, key_poll());
    let poll2 = insert(poll, YamlView::Str(state), YamlView::PosInt(at));
    let te1 = insert(te, key_poll(), YamlView::Mapping(poll2));
    let sv = child_or_empty(te1, key_visits());
    let next = next_visit(value_u64(get(sv, YamlView::Str(state))));
    let sv2 = insert(sv, YamlView::Str(state), YamlView::PosInt(next as u64));
    let te2 = insert(te1, key_visits(), YamlView::Mapping(sv2));
    let tasks2 = insert(tasks, task, YamlView::Mapping(te2));
    let md2 = insert(md, key_tasks(), YamlView::Mapping(tasks2));
    insert(root, key_metadata(), YamlView::Mapping(md2))
}

/// A fresh root, or a copy of the existing one.
pub(crate) fn root_copy(existing: Option<&Vec<(Yaml, Yaml)>>) -> (r: Vec<(Yaml, Yaml)>)
    ensures
        deep_entries(r@) == match existing {
            Some(e) => deep_entries(e@),
            None => Seq::empty(),
        },
{
    match existing {
        Some(e) => copy_entries(e),
        None => {
            let v: Vec<(Yaml, Yaml)> = Vec::new();
            assert(deep_entries(v@) =~= Seq::<(YamlView, YamlView)>::empty());
            v
        },
    }
}

pub open spec fn root_or_empty(existing: Option<&Vec<(Yaml, Yaml)>>) -> Entries {
    match existing {
        Some(e) => deep_entries(e@),
        None => Seq::empty(),
    }
}

/// Record when a polling state may next be attempted, and count the visit.
pub fn set_poll_next_attempt_metadata(
    existing: Option<&Vec<(Yaml, Yaml)>>,
    task_key: &Yaml,
    state_name: &str,
    next_attempt_at: u64,
) -> (r: Vec<(Yaml, Yaml)>)
    requires
        is_probe_key(task_key.deep()),
        stored_visits(root_or_empty(existing), task_key.deep(), state_name@) != Some(u64::MAX),
    ensures
        deep_entries(r@) == set_poll_spec(root_or_empty(existing), task_key.deep(), state_name@, next_attempt_at),
{
    let ghost task = task_key.deep();
    let ghost state = state_name@;
    let mut root = root_copy(existing);
    let ghost r0 = deep_entries(root@);
    let km = str_key("metadata");
    let kt = str_key("tasks");
    let kp = str_key("pollNextAttemptAt");
    let kv = str_key("stateVisits");
    let mut md = take_child(&mut root, &km);
    let mut tasks = take_child(&mut md, &kt);
    let mut te = take_child(&mut tasks, task_key);
    let mut poll = take_child(&mut te, &kp);
    insert_state_value(&mut poll, state_name, Yaml::PosInt(next_attempt_at));
    put_child(&mut te, &kp, poll);
    proof {
        let te0 = child_or_empty(child_or_empty(child_or_empty(r0, key_metadata()), key_tasks()), task);
        lemma_insert_twice(te0, key_poll(), YamlView::Null, YamlView::Mapping(deep_entries(poll@)));
        // `stateVisits` is a different key from `pollNextAttemptAt`.
        assert(key_visits() != key_poll()) by {
            reveal_strlit("stateVisits");
            reveal_strlit("pollNextAttemptAt");
            assert("stateVisits"@[0] != "pollNextAttemptAt"@[0]);
        }
        lemma_get_insert_other(te0, key_poll(), YamlView::Mapping(deep_entries(poll@)), key_visits());
    }
    let mut visits = take_child(&mut te, &kv);
    let ks = str_key(state_name);
    let next: u64 = match get_value(&visits, &ks) {
        Some(v) => match yaml_value_to_u64(v) {
            Some(n) => (if n < 1 {
                1
            } else {
                n
            }) + 1,
            None => 1,
        },
        None => 1,
    };
    insert_state_value(&mut visits, state_name, Yaml::PosInt(next));
    put_child(&mut te, &kv, visits);
    put_child(&mut tasks, task_key, te);
    put_child(&mut md, &kt, tasks);
    put_child(&mut root, &km, md);
    proof {
        let md0 = child_or_empty(r0, key_metadata());
        let tasks0 = child_or_empty(md0, key_tasks());
        let te0 = child_or_empty(tasks0, task);
        let poll0 = child_or_empty(te0, key_poll());
        let te1 = insert(te0, key_poll(), YamlView::Mapping(insert(poll0, YamlView::Str(state), YamlView::PosInt(next_attempt_at))));
        let sv0 = child_or_empty(te1, key_visits());
        let sv2 = insert(sv0, YamlView::Str(state), YamlView::PosInt(next));
        lemma_insert_twice(te1, key_visits(), YamlView::Null, YamlView::Mapping(sv2));
        let te2 = insert(te1, key_visits(), YamlView::Mapping(sv2));
        lemma_insert_twice(tasks0, task, YamlView::Null, YamlView::Mapping(te2));
        let tasks2 = insert(tasks0, task, YamlView::Mapping(te2));
        lemma_insert_twice(md0, key_tasks(), YamlView::Null, YamlView::Mapping(tasks2));
        let md2 = insert(md0, key_tasks(), YamlView::Mapping(tasks2));
        lemma_insert_twice(r0, key_metadata(), YamlView::Null, YamlView::Mapping(md2));
    }
    root
}

/// `m[state] = value` under a string key.
pub(crate) fn insert_state_value(m: &mut Vec<(Yaml, Yaml)>, state_name: &str, value: Yaml)
    ensures
        deep_entries(final(m)@) == insert(deep_entries(old(m)@), YamlView::Str(state_name@), value.deep()),
{
    let k = str_key(state_name);
    crate::yaml::insert_entry(m, k, value);
}


proof fn lemma_keys_differ()
    ensures
        key_visits() != key_poll(),
        key_metadata() != key_tasks(),
{
    reveal_strlit("stateVisits");
    reveal_strlit("pollNextAttemptAt");
    reveal_strlit("metadata");
    reveal_strlit("tasks");
    assert("stateVisits"@[0] != "pollNextAttemptAt"@[0]);
    assert("metadata"@[0] != "tasks"@[0]);
}

/// What `set_poll_next_attempt_metadata` records is what
/// `poll_next_attempt_at` reads back.
pub proof fn lemma_set_poll_reads_back(root: Entries, task: YamlView, state: Seq<char>, at: u64)
    ensures
        poll_at_spec(Some(set_poll_spec(root, task, state, at)), task, state) == Some(at),
{
    lemma_keys_differ();
    let md = child_or_empty(root, key_metadata());
    let tasks = child_or_empty(md, key_tasks());
    let te = child_or_empty(tasks, task);
    let poll = child_or_empty(te, key_poll());
    let poll2 = insert(poll, YamlView::Str(state), YamlView::PosInt(at));
    let te1 = insert(te, key_poll(), YamlView::Mapping(poll2));
    let sv = child_or_empty(te1, key_visits());
    let next = next_visit(value_u64(get(sv, YamlView::Str(state))));
    let sv2 = insert(sv, YamlView::Str(state), YamlView::PosInt(next as u64));
    let te2 = insert(te1, key_visits(), YamlView::Mapping(sv2));
    let tasks2 = insert(tasks, task, YamlView::Mapping(te2));
    let md2 = insert(md, key_tasks(), YamlView::Mapping(tasks2));
    let r = insert(root, key_metadata(), YamlView::Mapping(md2));
    lemma_get_insert(root, key_metadata(), YamlView::Mapping(md2));
    lemma_get_insert(md, key_tasks(), YamlView::Mapping(tasks2));
    lemma_get_insert(tasks, task, YamlView::Mapping(te2));
    lemma_get_insert_other(te1, key_visits(), YamlView::Mapping(sv2), key_poll());
    lemma_get_insert(te, key_poll(), YamlView::Mapping(poll2));
    lemma_get_insert(poll, YamlView::Str(state), YamlView::PosInt(at));
    assert(sub_mapping(Some(r), key_metadata()) == Some(md2));
    assert(sub_mapping(Some(md2), key_tasks()) == Some(tasks2));
    assert(sub_mapping(Some(tasks2), task) == Some(te2));
    assert(sub_mapping(Some(te2), key_poll()) == Some(poll2));
}

/// `clear_poll_state_metadata` on a task's own mapping: drop the state's
/// deadline and visit count, and drop either mapping once it is empty.
pub open spec fn clear_task_poll(te: Entries, state: Seq<char>) -> Entries {
    let k = YamlView::Str(state);
    let te1 = match get(te, key_poll()) {
        Some(YamlView::Mapping(p)) => insert(te, key_poll(), YamlView::Mapping(swap_remove(p, k))),
        _ => te,
    };
    let te2 = if empty_mapping_at(te1, key_poll()) {
        swap_remove(te1, key_poll())
    } else {
        te1
    };
    let te3 = match get(te2, key_visits()) {
        Some(YamlView::Mapping(v)) => insert(te2, key_visits(), YamlView::Mapping(swap_remove(v, k))),
        _ => te2,
    };
    if empty_mapping_at(te3, key_visits()) {
        swap_remove(te3, key_visits())
    } else {
        te3
    }
}

/// The value under `k` is a mapping (looking through tags) with no entries.
pub open spec fn empty_mapping_at(m: Entries, k: YamlView) -> bool {
    match get(m, k) {
        Some(v) => match as_mapping(v) {
            Some(e) => e.len() == 0,
            None => false,
        },
        None => false,
    }
}

/// The whole frontmatter after clearing: unchanged unless
/// `metadata.tasks.<task>` is reached through plain mappings.
pub open spec fn clear_poll_spec(root: Entries, task: YamlView, state: Seq<char>) -> Entries {
    match get(root, key_metadata()) {
        Some(YamlView::Mapping(md)) => match get(md, key_tasks()) {
            Some(YamlView::Mapping(tasks)) => match get(tasks, task) {
                Some(YamlView::Mapping(te)) => insert(
                    root,
                    key_metadata(),
                    YamlView::Mapping(
                        insert(
                            md,
                            key_tasks(),
                            YamlView::Mapping(
                                insert(tasks, task, YamlView::Mapping(clear_task_poll(te, state))),
                            ),
                        ),
                    ),
                ),
                _ => root,
            },
            _ => root,
        },
        _ => root,
    }
}

/// Whether the value under `key` is exactly a mapping.
fn mapping_under(m: &Vec<(Yaml, Yaml)>, key: &Yaml) -> (r: bool)
    requires
        is_probe_key(key.deep()),
    ensures
        r == (get(deep_entries(m@), key.deep()) matches Some(YamlView::Mapping(_))),
{
    match get_value(m, key) {
        Some(v) => {
            let r = match v {
                Yaml::Mapping(c) => {
                    proof {
                        lemma_mapping_deep(*c);
                    }
                    true
                },
                _ => false,
            };
            r
        },
        None => false,
    }
}

/// `parent` with a mapping under `key`: unchanged when the value there is
/// already exactly a mapping, else that key set to a new empty mapping.
pub open spec fn ensure_mapping_spec(parent: Entries, key: YamlView) -> Entries {
    if get(parent, key) matches Some(YamlView::Mapping(_)) {
        parent
    } else {
        insert(parent, key, YamlView::Mapping(Seq::empty()))
    }
}

/// Make sure a mapping stands under `key`, replacing any other value.
pub fn ensure_mapping(parent: &mut Vec<(Yaml, Yaml)>, key: &Yaml)
    requires
        is_probe_key(key.deep()),
    ensures
        deep_entries(final(parent)@) == ensure_mapping_spec(deep_entries(old(parent)@), key.deep()),
        get(deep_entries(final(parent)@), key.deep()) matches Some(YamlView::Mapping(_)),
{
    if !mapping_under(parent, key) {
        let empty: Vec<(Yaml, Yaml)> = Vec::new();
        proof {
            lemma_mapping_deep(empty);
            assert(deep_entries(empty@) =~= Seq::<(YamlView, YamlView)>::empty());
        }
        insert_entry(parent, copy_probe_key(key), Yaml::Mapping(empty));
        proof {
            lemma_get_insert(deep_entries(old(parent)@), key.deep(), YamlView::Mapping(Seq::empty()));
        }
    }
}

/// Whether the value under `key` is an empty mapping, looking through tags.
fn empty_mapping_under(m: &Vec<(Yaml, Yaml)>, key: &Yaml) -> (r: bool)
    requires
        is_probe_key(key.deep()),
    ensures
        r == empty_mapping_at(deep_entries(m@), key.deep()),
{
    match get_value(m, key) {
        Some(v) => match mapping_of(v) {
            Some(e) => e.len() == 0,
            None => false,
        },
        None => false,
    }
}

/// Remove `state` from the mapping under `key` when that value is a mapping.
fn remove_state_under(te: &mut Vec<(Yaml, Yaml)>, key: &Yaml, state_name: &str)
    requires
        is_probe_key(key.deep()),
    ensures
        deep_entries(final(te)@) == match get(deep_entries(old(te)@), key.deep()) {
            Some(YamlView::Mapping(p)) => insert(
                deep_entries(old(te)@),
                key.deep(),
                YamlView::Mapping(swap_remove(p, YamlView::Str(state_name@))),
            ),
            _ => deep_entries(old(te)@),
        },
{
    if mapping_under(te, key) {
        let ghost t0 = deep_entries(te@);
        let mut p = take_child(te, key);
        let ks = str_key(state_name);
        remove_entry(&mut p, &ks);
        put_child(te, key, p);
        proof {
            lemma_insert_twice(t0, key.deep(), YamlView::Null, YamlView::Mapping(deep_entries(p@)));
        }
    }
}

/// Drop a polling state's deadline and visit count from the task's metadata,
/// pruning either mapping once it is empty. `None` when there is no metadata.
pub fn clear_poll_state_metadata(existing: Option<&Vec<(Yaml, Yaml)>>, task_key: &Yaml, state_name: &str) -> (r: Option<Vec<(Yaml, Yaml)>>)
    requires
        is_probe_key(task_key.deep()),
    ensures
        match existing {
            None => r is None,
            Some(e) => r matches Some(x) && deep_entries(x@) == clear_poll_spec(deep_entries(e@), task_key.deep(), state_name@),
        },
{
    let e = match existing {
        Some(e) => e,
        None => return None,
    };
    let mut root = copy_entries(e);
    let ghost r0 = deep_entries(root@);
    let km = str_key("metadata");
    let kt = str_key("tasks");
    let kp = str_key("pollNextAttemptAt");
    let kv = str_key("stateVisits");
    if !mapping_under(&root, &km) {
        return Some(root);
    }
    let mut md = take_child(&mut root, &km);
    let ghost md0 = deep_entries(md@);
    if !mapping_under(&md, &kt) {
        put_child(&mut root, &km, md);
        proof {
            lemma_insert_twice(r0, key_metadata(), YamlView::Null, YamlView::Mapping(md0));
            assert(insert(r0, key_metadata(), YamlView::Mapping(md0)) =~= r0) by {
                lemma_insert_same(r0, key_metadata());
            }
        }
        return Some(root);
    }
    let mut tasks = take_child(&mut md, &kt);
    let ghost tasks0 = deep_entries(tasks@);
    if !mapping_under(&tasks, task_key) {
        put_child(&mut md, &kt, tasks);
        put_child(&mut root, &km, md);
        proof {
            lemma_insert_twice(md0, key_tasks(), YamlView::Null, YamlView::Mapping(tasks0));
            lemma_insert_same(md0, key_tasks());
            lemma_insert_twice(r0, key_metadata(), YamlView::Null, YamlView::Mapping(md0));
            lemma_insert_same(r0, key_metadata());
        }
        return Some(root);
    }
    let mut te = take_child(&mut tasks, task_key);
    let ghost te0 = deep_entries(te@);
    remove_state_under(&mut te, &kp, state_name);
    if empty_mapping_under(&te, &kp) {
        remove_entry(&mut te, &kp);
    }
    remove_state_under(&mut te, &kv, state_name);
    if empty_mapping_under(&te, &kv) {
        remove_entry(&mut te, &kv);
    }
    let ghost te4 = deep_entries(te@);
    put_child(&mut tasks, task_key, te);
    let ghost tasks1 = deep_entries(tasks@);
    put_child(&mut md, &kt, tasks);
    let ghost md1 = deep_entries(md@);
    put_child(&mut root, &km, md);
    proof {
        assert(te4 == clear_task_poll(te0, state_name@));
        lemma_insert_twice(tasks0, task_key.deep(), YamlView::Null, YamlView::Mapping(te4));
        lemma_insert_twice(md0, key_tasks(), YamlView::Null, YamlView::Mapping(insert(tasks0, task_key.deep(), YamlView::Mapping(te4))));
        lemma_insert_twice(r0, key_metadata(), YamlView::Null, YamlView::Mapping(md1));
    }
    Some(root)
}

/// Inserting a key's own current value changes nothing.
pub proof fn lemma_insert_same(m: Entries, k: YamlView)
    requires
        get(m, k) is Some,
    ensures
        insert(m, k, get(m, k)->0) == m,
{
    crate::yaml::lemma_find_bounds(m, k);
    let i = crate::yaml::find(m, k)->0;
    assert(insert(m, k, get(m, k)->0) =~= m);
}


/// After `clear_poll_state_metadata`, no deadline is recorded for the state,
/// for frontmatter whose `metadata.tasks.<task>` is made of plain mappings
/// with unique keys (as parsed YAML always has).
pub proof fn lemma_clear_poll_forgets(root: Entries, task: YamlView, state: Seq<char>)
    requires
        get(root, key_metadata()) matches Some(YamlView::Mapping(md)) && get(md, key_tasks())
            matches Some(YamlView::Mapping(tasks)) && get(tasks, task) matches Some(
            YamlView::Mapping(te),
        ) && unique_keys(te) && match get(te, key_poll()) {
            None => true,
            Some(YamlView::Mapping(p)) => unique_keys(p),
            Some(_) => false,
        },
    ensures
        poll_at_spec(Some(clear_poll_spec(root, task, state)), task, state) == None::<u64>,
{
    lemma_keys_differ();
    let md = get(root, key_metadata())->0->Mapping_0;
    let tasks = get(md, key_tasks())->0->Mapping_0;
    let te = get(tasks, task)->0->Mapping_0;
    let k = YamlView::Str(state);
    let te1 = match get(te, key_poll()) {
        Some(YamlView::Mapping(p)) => insert(te, key_poll(), YamlView::Mapping(swap_remove(p, k))),
        _ => te,
    };
    match get(te, key_poll()) {
        Some(YamlView::Mapping(p)) => {
            lemma_get_insert(te, key_poll(), YamlView::Mapping(swap_remove(p, k)));
            lemma_insert_unique(te, key_poll(), YamlView::Mapping(swap_remove(p, k)));
            lemma_get_swap_remove(p, k);
        },
        _ => {},
    }
    let te2 = if empty_mapping_at(te1, key_poll()) {
        swap_remove(te1, key_poll())
    } else {
        te1
    };
    if empty_mapping_at(te1, key_poll()) {
        lemma_get_swap_remove(te1, key_poll());
        lemma_swap_remove_unique(te1, key_poll());
    }
    let te3 = match get(te2, key_visits()) {
        Some(YamlView::Mapping(v)) => insert(te2, key_visits(), YamlView::Mapping(swap_remove(v, k))),
        _ => te2,
    };
    match get(te2, key_visits()) {
        Some(YamlView::Mapping(v)) => {
            lemma_get_insert_other(te2, key_visits(), YamlView::Mapping(swap_remove(v, k)), key_poll());
            lemma_insert_unique(te2, key_visits(), YamlView::Mapping(swap_remove(v, k)));
        },
        _ => {},
    }
    let te4 = clear_task_poll(te, state);
    if empty_mapping_at(te3, key_visits()) {
        lemma_get_swap_remove_other(te3, key_visits(), key_poll());
    }
    assert(get(te4, key_poll()) == get(te2, key_poll()));
    let tasks2 = insert(tasks, task, YamlView::Mapping(te4));
    let md2 = insert(md, key_tasks(), YamlView::Mapping(tasks2));
    lemma_get_insert(root, key_metadata(), YamlView::Mapping(md2));
    lemma_get_insert(md, key_tasks(), YamlView::Mapping(tasks2));
    lemma_get_insert(tasks, task, YamlView::Mapping(te4));
}


/// A task's metadata without its `stateVisits`.
pub open spec fn strip_visits(v: YamlView) -> YamlView {
    match v {
        YamlView::Mapping(tm) => YamlView::Mapping(swap_remove(tm, key_visits())),
        _ => v,
    }
}

pub open spec fn strip_all_visits(tasks: Entries) -> Entries {
    Seq::new(tasks.len(), |i: int| (tasks[i].0, strip_visits(tasks[i].1)))
}

/// `clear_runtime_state_visits` on the whole frontmatter.
pub open spec fn clear_visits_spec(root: Entries) -> Entries {
    match get(root, key_metadata()) {
        Some(YamlView::Mapping(md)) => match get(md, key_tasks()) {
            Some(YamlView::Mapping(tasks)) => insert(
                root,
                key_metadata(),
                YamlView::Mapping(
                    insert(md, key_tasks(), YamlView::Mapping(strip_all_visits(tasks))),
                ),
            ),
            _ => root,
        },
        _ => root,
    }
}

/// Forget every task's visit counts (a reset puts tasks back where they
/// started). `None` when there is no metadata.
pub fn clear_runtime_state_visits(existing: Option<&Vec<(Yaml, Yaml)>>) -> (r: Option<Vec<(Yaml, Yaml)>>)
    ensures
        match existing {
            None => r is None,
            Some(e) => r matches Some(x) && deep_entries(x@) == clear_visits_spec(deep_entries(e@)),
        },
{
    let e = match existing {
        Some(e) => e,
        None => return None,
    };
    let mut root = copy_entries(e);
    let ghost r0 = deep_entries(root@);
    let km = str_key("metadata");
    let kt = str_key("tasks");
    let kv = str_key("stateVisits");
    if !mapping_under(&root, &km) {
        return Some(root);
    }
    let mut md = take_child(&mut root, &km);
    let ghost md0 = deep_entries(md@);
    if !mapping_under(&md, &kt) {
        put_child(&mut root, &km, md);
        proof {
            lemma_insert_twice(r0, key_metadata(), YamlView::Null, YamlView::Mapping(md0));
            lemma_insert_same(r0, key_metadata());
        }
        return Some(root);
    }
    let mut tasks = take_child(&mut md, &kt);
    let ghost t0 = deep_entries(tasks@);
    let n = tasks.len();
    let mut i: usize = 0;
    while i < n
        invariant
            n == tasks@.len(),
            t0.len() == n,
            i <= n,
            is_probe_key(kv.deep()),
            kv.deep() == key_visits(),
            forall|j: int| 0 <= j < i ==> #[trigger] deep_entries(tasks@)[j] == (t0[j].0, strip_visits(t0[j].1)),
            forall|j: int| i <= j < n ==> #[trigger] deep_entries(tasks@)[j] == t0[j],
        decreases n - i,
    {
        let ghost s0 = tasks@;
        let (k, v) = tasks.remove(i);
        let ghost vd = v.deep();
        assert(deep_entries(s0)[i as int] == (k.deep(), vd));
        let nv = match v {
            Yaml::Mapping(mut tm) => {
                proof {
                    lemma_mapping_deep(tm);
                }
                let ghost tm0 = deep_entries(tm@);
                remove_entry(&mut tm, &kv);
                proof {
                    lemma_mapping_deep(tm);
                }
                let r = Yaml::Mapping(tm);
                assert(r.deep() == strip_visits(vd));
                r
            },
            other => {
                assert(!(vd is Mapping));
                other
            },
        };
        assert(nv.deep() == strip_visits(vd));
        tasks.insert(i, (k, nv));
        proof {
            assert(tasks@ =~= s0.update(i as int, (k, nv)));
            assert forall|j: int| 0 <= j < i + 1 implies #[trigger] deep_entries(tasks@)[j] == (t0[j].0, strip_visits(t0[j].1)) by {
                if j < i {
                    assert(deep_entries(tasks@)[j] == deep_entries(s0)[j]);
                }
            }
            assert forall|j: int| i + 1 <= j < n implies #[trigger] deep_entries(tasks@)[j] == t0[j] by {
                assert(deep_entries(tasks@)[j] == deep_entries(s0)[j]);
            }
        }
        i += 1;
    }
    let ghost t1 = deep_entries(tasks@);
    assert(t1 =~= strip_all_visits(t0));
    put_child(&mut md, &kt, tasks);
    let ghost md1 = deep_entries(md@);
    put_child(&mut root, &km, md);
    proof {
        lemma_insert_twice(md0, key_tasks(), YamlView::Null, YamlView::Mapping(t1));
        lemma_insert_twice(r0, key_metadata(), YamlView::Null, YamlView::Mapping(md1));
    }
    Some(root)
}

/// How a state is written into `**State:**` metadata: quoted in backticks
/// when it holds a space and is not quoted already.
pub open spec fn format_state_value_spec(raw: Seq<char>) -> Seq<char> {
    if has_prefix(raw, seq!['`']) && has_suffix(raw, seq!['`']) {
        raw
    } else if raw.contains(' ') {
        seq!['`'] + raw + seq!['`']
    } else {
        raw
    }
}

pub fn format_state_metadata_value(raw_state: &str) -> (r: String)
    ensures
        r@ == format_state_value_spec(raw_state@),
{
    let v = chars_of(raw_state);
    let tick = vec!['`'];
    assert(tick@ =~= seq!['`']);
    if starts_with(v.as_slice(), tick.as_slice()) && ends_with(v.as_slice(), tick.as_slice()) {
        String::from_str(raw_state)
    } else if contains_char(v.as_slice(), ' ') {
        let mut out = String::new();
        push_char(&mut out, '`');
        push_str(&mut out, raw_state);
        push_char(&mut out, '`');
        assert(out@ =~= seq!['`'] + raw_state@ + seq!['`']);
        out
    } else {
        String::from_str(raw_state)
    }
}


/// After `set_poll_next_attempt_metadata`, the state's visit count reads one
/// more than the count recorded before (taken as at least 1), or 1 when none
/// was; and nothing outside `metadata.tasks.<task>` changes: no other key of
/// the frontmatter, of `metadata`, or of `metadata.tasks`.
pub proof fn lemma_set_poll_counts_visit(root: Entries, task: YamlView, state: Seq<char>, at: u64)
    requires
        stored_visits(root, task, state) != Some(u64::MAX),
    ensures
        visit_count_spec(Some(set_poll_spec(root, task, state, at)), task, state) == next_visit(
            stored_visits(root, task, state),
        ),
        forall|k: YamlView| k != key_metadata() ==> #[trigger] get(set_poll_spec(root, task, state, at), k) == get(root, k),
        forall|k: YamlView|
            k != key_tasks() ==> #[trigger] get(child_or_empty(set_poll_spec(root, task, state, at), key_metadata()), k)
                == get(child_or_empty(root, key_metadata()), k),
        forall|t: YamlView|
            t != task ==> #[trigger] get(
                child_or_empty(child_or_empty(set_poll_spec(root, task, state, at), key_metadata()), key_tasks()),
                t,
            ) == get(child_or_empty(child_or_empty(root, key_metadata()), key_tasks()), t),
{
    lemma_keys_differ();
    let md = child_or_empty(root, key_metadata());
    let tasks = child_or_empty(md, key_tasks());
    let te = child_or_empty(tasks, task);
    let poll = child_or_empty(te, key_poll());
    let poll2 = insert(poll, YamlView::Str(state), YamlView::PosInt(at));
    let te1 = insert(te, key_poll(), YamlView::Mapping(poll2));
    let sv = child_or_empty(te1, key_visits());
    let next = next_visit(value_u64(get(sv, YamlView::Str(state))));
    let sv2 = insert(sv, YamlView::Str(state), YamlView::PosInt(next as u64));
    let te2 = insert(te1, key_visits(), YamlView::Mapping(sv2));
    let tasks2 = insert(tasks, task, YamlView::Mapping(te2));
    let md2 = insert(md, key_tasks(), YamlView::Mapping(tasks2));
    let r = insert(root, key_metadata(), YamlView::Mapping(md2));
    lemma_get_insert_other(te, key_poll(), YamlView::Mapping(poll2), key_visits());
    assert(sv == child_or_empty(te, key_visits()));
    lemma_get_insert(root, key_metadata(), YamlView::Mapping(md2));
    lemma_get_insert(md, key_tasks(), YamlView::Mapping(tasks2));
    lemma_get_insert(tasks, task, YamlView::Mapping(te2));
    lemma_get_insert(te1, key_visits(), YamlView::Mapping(sv2));
    lemma_get_insert(sv, YamlView::Str(state), YamlView::PosInt(next as u64));
    assert(sub_mapping(Some(r), key_metadata()) == Some(md2));
    assert(sub_mapping(Some(md2), key_tasks()) == Some(tasks2));
    assert(sub_mapping(Some(tasks2), task) == Some(te2));
    assert(sub_mapping(Some(te2), key_visits()) == Some(sv2));
    assert(child_or_empty(r, key_metadata()) == md2);
    assert(child_or_empty(md2, key_tasks()) == tasks2);
    assert forall|k: YamlView| k != key_metadata() implies #[trigger] get(r, k) == get(root, k) by {
        lemma_get_insert_other(root, key_metadata(), YamlView::Mapping(md2), k);
    }
    assert forall|k: YamlView| k != key_tasks() implies #[trigger] get(md2, k) == get(md, k) by {
        lemma_get_insert_other(md, key_tasks(), YamlView::Mapping(tasks2), k);
    }
    assert forall|t: YamlView| t != task implies #[trigger] get(tasks2, t) == get(tasks, t) by {
        lemma_get_insert_other(tasks, task, YamlView::Mapping(te2), t);
    }
}

/// On a frontmatter with nothing in it, recording a poll and then clearing
/// it leaves the task's own metadata an empty mapping: neither the deadline
/// nor the visit count remains.
pub proof fn lemma_set_then_clear_leaves_task_empty(task: YamlView, state: Seq<char>, at: u64)
    ensures
        task_map_spec(
            Some(clear_poll_spec(set_poll_spec(Seq::empty(), task, state, at), task, state)),
            task,
        ) == Some(Seq::<(YamlView, YamlView)>::empty()),
{
    lemma_keys_differ();
    let e = Seq::<(YamlView, YamlView)>::empty();
    let ks = YamlView::Str(state);
    assert(crate::yaml::find(e, key_metadata()) is None);
    assert(crate::yaml::find(e, key_tasks()) is None);
    assert(crate::yaml::find(e, task) is None);
    assert(crate::yaml::find(e, key_poll()) is None);
    assert(crate::yaml::find(e, ks) is None);
    assert(crate::yaml::find(e, key_visits()) is None);
    let poll2 = seq![(ks, YamlView::PosInt(at))];
    assert(insert(e, ks, YamlView::PosInt(at)) =~= poll2);
    let te1 = seq![(key_poll(), YamlView::Mapping(poll2))];
    assert(insert(e, key_poll(), YamlView::Mapping(poll2)) =~= te1);
    assert(te1.drop_last() =~= e);
    assert(crate::yaml::find(te1, key_visits()) is None);
    let sv2 = seq![(ks, YamlView::PosInt(1))];
    assert(insert(e, ks, YamlView::PosInt(1)) =~= sv2);
    let te2 = seq![(key_poll(), YamlView::Mapping(poll2)), (key_visits(), YamlView::Mapping(sv2))];
    assert(insert(te1, key_visits(), YamlView::Mapping(sv2)) =~= te2);
    let tasks2 = seq![(task, YamlView::Mapping(te2))];
    assert(insert(e, task, YamlView::Mapping(te2)) =~= tasks2);
    let md2 = seq![(key_tasks(), YamlView::Mapping(tasks2))];
    assert(insert(e, key_tasks(), YamlView::Mapping(tasks2)) =~= md2);
    let r = seq![(key_metadata(), YamlView::Mapping(md2))];
    assert(insert(e, key_metadata(), YamlView::Mapping(md2)) =~= r);
    assert(set_poll_spec(e, task, state, at) == r);
    // clearing
    assert(r.drop_last() =~= e);
    assert(crate::yaml::find(r, key_metadata()) == Some(0int));
    assert(md2.drop_last() =~= e);
    assert(crate::yaml::find(md2, key_tasks()) == Some(0int));
    assert(tasks2.drop_last() =~= e);
    assert(crate::yaml::find(tasks2, task) == Some(0int));
    assert(te2.drop_last() =~= te1);
    assert(crate::yaml::find(te1, key_poll()) == Some(0int));
    assert(crate::yaml::find(te2, key_poll()) == Some(0int));
    assert(poll2.drop_last() =~= e);
    assert(crate::yaml::find(poll2, ks) == Some(0int));
    assert(swap_remove(poll2, ks) =~= e);
    let te1c = seq![(key_poll(), YamlView::Mapping(e)), (key_visits(), YamlView::Mapping(sv2))];
    assert(insert(te2, key_poll(), YamlView::Mapping(e)) =~= te1c);
    assert(te1c.drop_last() =~= seq![(key_poll(), YamlView::Mapping(e))]);
    assert(seq![(key_poll(), YamlView::Mapping(e))].drop_last() =~= e);
    assert(crate::yaml::find(seq![(key_poll(), YamlView::Mapping(e))], key_poll()) == Some(0int));
    assert(crate::yaml::find(te1c, key_poll()) == Some(0int));
    assert(empty_mapping_at(te1c, key_poll()));
    let te2c = seq![(key_visits(), YamlView::Mapping(sv2))];
    assert(swap_remove(te1c, key_poll()) =~= te2c);
    assert(te2c.drop_last() =~= e);
    assert(crate::yaml::find(te2c, key_visits()) == Some(0int));
    assert(sv2.drop_last() =~= e);
    assert(crate::yaml::find(sv2, ks) == Some(0int));
    assert(swap_remove(sv2, ks) =~= e);
    let te3c = seq![(key_visits(), YamlView::Mapping(e))];
    assert(insert(te2c, key_visits(), YamlView::Mapping(e)) =~= te3c);
    assert(te3c.drop_last() =~= e);
    assert(crate::yaml::find(te3c, key_visits()) == Some(0int));
    assert(empty_mapping_at(te3c, key_visits()));
    assert(swap_remove(te3c, key_visits()) =~= e);
    assert(clear_task_poll(te2, state) == e);
    let tasks3 = insert(tasks2, task, YamlView::Mapping(e));
    let md3 = insert(md2, key_tasks(), YamlView::Mapping(tasks3));
    let r3 = insert(r, key_metadata(), YamlView::Mapping(md3));
    assert(clear_poll_spec(r, task, state) == r3);
    lemma_get_insert(r, key_metadata(), YamlView::Mapping(md3));
    lemma_get_insert(md2, key_tasks(), YamlView::Mapping(tasks3));
    lemma_get_insert(tasks2, task, YamlView::Mapping(e));
    assert(sub_mapping(Some(r3), key_metadata()) == Some(md3));
    assert(sub_mapping(Some(md3), key_tasks()) == Some(tasks3));
}

proof fn lemma_swap_remove_absent(m: Entries, k: YamlView)
    requires
        get(m, k) is None,
    ensures
        swap_remove(m, k) == m,
{
}

/// Stripping a task's visit counts twice strips them once, when its keys
/// are unique.
proof fn lemma_strip_twice(v: YamlView)
    requires
        (v matches YamlView::Mapping(tm) ==> unique_keys(tm)),
    ensures
        strip_visits(strip_visits(v)) == strip_visits(v),
{
    if let YamlView::Mapping(tm) = v {
        lemma_get_swap_remove(tm, key_visits());
        lemma_swap_remove_absent(swap_remove(tm, key_visits()), key_visits());
    }
}

/// Forgetting the visit counts twice forgets them once, for well-formed
/// frontmatter (`yaml_wf`: keys unique in every mapping, as parsed YAML
/// always has them).
pub proof fn lemma_clear_visits_idempotent(root: Entries)
    requires
        crate::yaml_text::entries_wf(root),
    ensures
        clear_visits_spec(clear_visits_spec(root)) == clear_visits_spec(root),
{
    crate::yaml_text::lemma_get_wf(root, key_metadata());
    match get(root, key_metadata()) {
        Some(YamlView::Mapping(md)) => {
            crate::yaml_text::lemma_get_wf(md, key_tasks());
            match get(md, key_tasks()) {
                Some(YamlView::Mapping(tasks)) => {
                    assert forall|i: int| 0 <= i < tasks.len() implies ((#[trigger] tasks[i]).1 matches YamlView::Mapping(
                        tm,
                    ) ==> unique_keys(tm)) by {
                        assert(crate::yaml_text::yaml_wf(YamlView::Mapping(tasks)));
                        assert(crate::yaml_text::yaml_wf(tasks[i].0));
                        assert(crate::yaml_text::yaml_wf(tasks[i].1));
                        if let YamlView::Mapping(tm) = tasks[i].1 {
                            assert(unique_keys(tm));
                        }
                    }
                    lemma_clear_visits_idempotent_unique(root);
                },
                _ => {
                    lemma_clear_visits_idempotent_unique(root);
                },
            }
        },
        _ => {
            lemma_clear_visits_idempotent_unique(root);
        },
    }
}

proof fn lemma_clear_visits_idempotent_unique(root: Entries)
    requires
        get(root, key_metadata()) matches Some(YamlView::Mapping(md)) ==> (get(md, key_tasks()) matches Some(
            YamlView::Mapping(tasks),
        ) ==> forall|i: int| 0 <= i < tasks.len() ==> ((#[trigger] tasks[i]).1 matches YamlView::Mapping(tm) ==> unique_keys(tm))),
    ensures
        clear_visits_spec(clear_visits_spec(root)) == clear_visits_spec(root),
{
    lemma_keys_differ();
    match get(root, key_metadata()) {
        Some(YamlView::Mapping(md)) => match get(md, key_tasks()) {
            Some(YamlView::Mapping(tasks)) => {
                let st = strip_all_visits(tasks);
                let md1 = insert(md, key_tasks(), YamlView::Mapping(st));
                let r1 = insert(root, key_metadata(), YamlView::Mapping(md1));
                lemma_get_insert(root, key_metadata(), YamlView::Mapping(md1));
                lemma_get_insert(md, key_tasks(), YamlView::Mapping(st));
                assert forall|i: int| 0 <= i < st.len() implies strip_visits(st[i].1) == st[i].1 by {
                    lemma_strip_twice(tasks[i].1);
                }
                assert(strip_all_visits(st) =~= st);
                lemma_insert_twice(md, key_tasks(), YamlView::Mapping(st), YamlView::Mapping(st));
                lemma_insert_twice(root, key_metadata(), YamlView::Mapping(md1), YamlView::Mapping(md1));
            },
            _ => {},
        },
        _ => {},
    }
}

} // verus!
