//! A YAML value as the plan's frontmatter holds it, with the mapping
//! operations the metadata logic uses: look a key up, insert or replace a
//! value (keeping the key's position), and remove a key by moving the last
//! entry into its place. Mappings keep their entries in insertion order.
use vstd::prelude::*;
use crate::text::str_eq;

verus! {

/// One YAML value. Integers are split by sign the way YAML numbers are read;
/// a float is carried by its text.
#[derive(Debug, PartialEq)]
pub enum Yaml {
    Null,
    Bool(bool),
    PosInt(u64),
    NegInt(i64),
    Float(String),
    Str(String),
    List(Vec<Yaml>),
    Mapping(Vec<(Yaml, Yaml)>),
    Tagged(String, Box<Yaml>),
}

/// The mathematical value of a [`Yaml`].
pub enum YamlView {
    Null,
    Bool(bool),
    PosInt(u64),
    NegInt(i64),
    Float(Seq<char>),
    Str(Seq<char>),
    List(Seq<YamlView>),
    Mapping(Seq<(YamlView, YamlView)>),
    Tagged(Seq<char>, Box<YamlView>),
}

impl Yaml {
    pub open spec fn deep(self) -> YamlView
        decreases self,
    {
        match self {
            Yaml::Null => YamlView::Null,
            Yaml::Bool(b) => YamlView::Bool(b),
            Yaml::PosInt(n) => YamlView::PosInt(n),
            Yaml::NegInt(n) => YamlView::NegInt(n),
            Yaml::Float(s) => YamlView::Float(s@),
            Yaml::Str(s) => YamlView::Str(s@),
            Yaml::List(v) => YamlView::List(
                Seq::new(
                    v@.len(),
                    |i: int|
                        if 0 <= i < v@.len() {
                            v@[i].deep()
                        } else {
                            YamlView::Null
                        },
                ),
            ),
            Yaml::Mapping(v) => YamlView::Mapping(
                Seq::new(
                    v@.len(),
                    |i: int|
                        if 0 <= i < v@.len() {
                            (v@[i].0.deep(), v@[i].1.deep())
                        } else {
                            (YamlView::Null, YamlView::Null)
                        },
                ),
            ),
            Yaml::Tagged(t, b) => YamlView::Tagged(t@, Box::new((*b).deep())),
        }
    }
}

pub type Entries = Seq<(YamlView, YamlView)>;

/// The entries of an exec mapping, as values.
pub open spec fn deep_entries(s: Seq<(Yaml, Yaml)>) -> Entries {
    Seq::new(s.len(), |i: int| (s[i].0.deep(), s[i].1.deep()))
}

pub proof fn lemma_mapping_deep(v: Vec<(Yaml, Yaml)>)
    ensures
        Yaml::Mapping(v).deep() == YamlView::Mapping(deep_entries(v@)),
{
    let d = Yaml::Mapping(v).deep();
    match d {
        YamlView::Mapping(s) => {
            assert(s.len() == v@.len());
            assert forall|i: int| 0 <= i < s.len() implies s[i] == deep_entries(v@)[i] by {
            }
            assert(s =~= deep_entries(v@));
        },
        _ => {},
    }
}

/// The items of an exec list, as values.
pub open spec fn deep_items(s: Seq<Yaml>) -> Seq<YamlView> {
    Seq::new(s.len(), |i: int| s[i].deep())
}

pub proof fn lemma_list_deep(v: Vec<Yaml>)
    ensures
        Yaml::List(v).deep() == YamlView::List(deep_items(v@)),
{
    let d = Yaml::List(v).deep();
    match d {
        YamlView::List(s) => {
            assert(s.len() == v@.len());
            assert forall|i: int| 0 <= i < s.len() implies s[i] == deep_items(v@)[i] by {}
            assert(s =~= deep_items(v@));
        },
        _ => {},
    }
}

/// Tags looked through, as the `as_*` accessors do.
pub open spec fn untag(v: YamlView) -> YamlView
    decreases v,
{
    match v {
        YamlView::Tagged(_, b) => untag(*b),
        _ => v,
    }
}

/// `Value::as_mapping`.
pub open spec fn as_mapping(v: YamlView) -> Option<Entries> {
    match untag(v) {
        YamlView::Mapping(m) => Some(m),
        _ => None,
    }
}

/// `Value::as_str`.
pub open spec fn as_str(v: YamlView) -> Option<Seq<char>> {
    match untag(v) {
        YamlView::Str(s) => Some(s),
        _ => None,
    }
}

/// `Value::as_bool`.
pub open spec fn as_bool(v: YamlView) -> Option<bool> {
    match untag(v) {
        YamlView::Bool(b) => Some(b),
        _ => None,
    }
}

/// The first entry whose key is `k`.
pub open spec fn find(m: Entries, k: YamlView) -> Option<int>
    decreases m.len(),
{
    if m.len() == 0 {
        None
    } else {
        match find(m.drop_last(), k) {
            Some(i) => Some(i),
            None => if m.last().0 == k {
                Some(m.len() - 1)
            } else {
                None
            },
        }
    }
}

pub proof fn lemma_find_bounds(m: Entries, k: YamlView)
    ensures
        match find(m, k) {
            Some(i) => 0 <= i < m.len() && m[i].0 == k && forall|j: int| 0 <= j < i ==> m[j].0 != k,
            None => forall|j: int| 0 <= j < m.len() ==> m[j].0 != k,
        },
    decreases m.len(),
{
    if m.len() > 0 {
        lemma_find_bounds(m.drop_last(), k);
        match find(m.drop_last(), k) {
            Some(i) => {
                assert forall|j: int| 0 <= j < i implies m[j].0 != k by {
                    assert(m[j] == m.drop_last()[j]);
                }
            },
            None => {
                assert forall|j: int| 0 <= j < m.len() - 1 implies m[j].0 != k by {
                    assert(m[j] == m.drop_last()[j]);
                }
            },
        }
    }
}

/// The first entry with key `k` is at `i`.
pub proof fn lemma_find_is(m: Entries, k: YamlView, i: int)
    requires
        0 <= i < m.len(),
        m[i].0 == k,
        forall|j: int| 0 <= j < i ==> m[j].0 != k,
    ensures
        find(m, k) == Some(i),
{
    lemma_find_bounds(m, k);
}

/// No entry has key `k`.
pub proof fn lemma_find_none(m: Entries, k: YamlView)
    requires
        forall|j: int| 0 <= j < m.len() ==> m[j].0 != k,
    ensures
        find(m, k) == None::<int>,
{
    lemma_find_bounds(m, k);
}

/// `Mapping::get`.
pub open spec fn get(m: Entries, k: YamlView) -> Option<YamlView> {
    match find(m, k) {
        Some(i) => Some(m[i].1),
        None => None,
    }
}

/// `Mapping::insert`: an existing key keeps its entry and position and takes
/// the new value; a new key is appended.
pub open spec fn insert(m: Entries, k: YamlView, v: YamlView) -> Entries {
    match find(m, k) {
        Some(i) => m.update(i, (m[i].0, v)),
        None => m.push((k, v)),
    }
}

/// `Mapping::remove`: the entry is removed by moving the last entry into its
/// place.
pub open spec fn swap_remove(m: Entries, k: YamlView) -> Entries {
    match find(m, k) {
        Some(i) => m.update(i, m.last()).drop_last(),
        None => m,
    }
}

/// A value is a mapping exactly (not through a tag).
pub open spec fn plain_mapping(v: YamlView) -> Option<Entries> {
    match v {
        YamlView::Mapping(m) => Some(m),
        _ => None,
    }
}

/// The mapping found under `k` when it is one, otherwise a fresh empty one:
/// what `ensure_mapping` hands back.
pub open spec fn child_or_empty(m: Entries, k: YamlView) -> Entries {
    match get(m, k) {
        Some(YamlView::Mapping(c)) => c,
        _ => Seq::empty(),
    }
}

pub open spec fn str_view(s: Seq<char>) -> YamlView {
    YamlView::Str(s)
}

/// `Number::as_u64` on a value that is a number.
pub open spec fn number_as_u64(v: YamlView) -> Option<u64> {
    match v {
        YamlView::PosInt(n) => Some(n),
        _ => None,
    }
}

/// A key the metadata looks things up by: a string or a non-negative integer.
pub open spec fn is_probe_key(k: YamlView) -> bool {
    k is Str || k is PosInt
}

proof fn lemma_insert_find(m: Entries, k: YamlView, v: YamlView)
    ensures
        find(insert(m, k, v), k) == Some(
            match find(m, k) {
                Some(i) => i,
                None => m.len() as int,
            },
        ),
        insert(m, k, v).len() == m.len() + if find(m, k) is Some {
            0int
        } else {
            1int
        },
{
    lemma_find_bounds(m, k);
    let r = insert(m, k, v);
    match find(m, k) {
        Some(i) => {
            assert forall|j: int| 0 <= j < i implies r[j].0 != k by {
                assert(r[j] == m[j]);
            }
            lemma_find_is(r, k, i);
        },
        None => {
            assert forall|j: int| 0 <= j < m.len() implies r[j].0 != k by {
                assert(r[j] == m[j]);
            }
            lemma_find_is(r, k, m.len() as int);
        },
    }
}

/// Inserting under a key twice leaves the second value.
pub proof fn lemma_insert_twice(m: Entries, k: YamlView, v1: YamlView, v2: YamlView)
    ensures
        insert(insert(m, k, v1), k, v2) == insert(m, k, v2),
{
    lemma_insert_find(m, k, v1);
    lemma_find_bounds(m, k);
    match find(m, k) {
        Some(i) => {
            assert(insert(insert(m, k, v1), k, v2) =~= insert(m, k, v2));
        },
        None => {
            assert(insert(insert(m, k, v1), k, v2) =~= insert(m, k, v2));
        },
    }
}

/// What `insert` stores is what `get` reads back.
pub proof fn lemma_get_insert(m: Entries, k: YamlView, v: YamlView)
    ensures
        get(insert(m, k, v), k) == Some(v),
{
    lemma_insert_find(m, k, v);
    lemma_find_bounds(m, k);
}

/// After `swap_remove`, the key is gone (provided it occurred at most once).
pub proof fn lemma_get_swap_remove(m: Entries, k: YamlView)
    requires
        forall|i: int, j: int| 0 <= i < j < m.len() && m[i].0 == k ==> m[j].0 != k,
    ensures
        get(swap_remove(m, k), k) == None::<YamlView>,
{
    lemma_find_bounds(m, k);
    let r = swap_remove(m, k);
    match find(m, k) {
        Some(i) => {
            assert forall|j: int| 0 <= j < r.len() implies r[j].0 != k by {
                if j == i {
                    assert(r[j] == m[m.len() - 1]);
                    assert(m.len() - 1 != i);
                } else {
                    assert(r[j] == m[j]);
                }
            }
            lemma_find_none(r, k);
        },
        None => {},
    }
}

/// No key occurs twice, as in every mapping a YAML document produces.
pub open spec fn unique_keys(m: Entries) -> bool {
    forall|i: int, j: int| 0 <= i < j < m.len() ==> m[i].0 != m[j].0
}

/// `get` under a different key does not see an insert.
pub proof fn lemma_get_insert_other(m: Entries, k: YamlView, v: YamlView, k2: YamlView)
    requires
        k != k2,
    ensures
        get(insert(m, k, v), k2) == get(m, k2),
{
    lemma_find_bounds(m, k);
    lemma_find_bounds(m, k2);
    let r = insert(m, k, v);
    assert forall|j: int| 0 <= j < m.len() implies r[j].0 == m[j].0 by {
    }
    match find(m, k2) {
        Some(i) => {
            assert forall|j: int| 0 <= j < i implies r[j].0 != k2 by {
            }
            lemma_find_is(r, k2, i);
        },
        None => {
            assert forall|j: int| 0 <= j < r.len() implies r[j].0 != k2 by {
                if j == m.len() {
                }
            }
            lemma_find_none(r, k2);
        },
    }
}

/// Inserting keeps keys unique.
pub proof fn lemma_insert_unique(m: Entries, k: YamlView, v: YamlView)
    requires
        unique_keys(m),
    ensures
        unique_keys(insert(m, k, v)),
{
    lemma_find_bounds(m, k);
}

/// Removing keeps keys unique.
pub proof fn lemma_swap_remove_unique(m: Entries, k: YamlView)
    requires
        unique_keys(m),
    ensures
        unique_keys(swap_remove(m, k)),
{
    lemma_find_bounds(m, k);
    let r = swap_remove(m, k);
    match find(m, k) {
        Some(i) => {
            assert forall|a: int, b: int| 0 <= a < b < r.len() implies r[a].0 != r[b].0 by {
                if a == i {
                    assert(r[a] == m[m.len() - 1]);
                    assert(r[b] == m[b]);
                } else if b == i {
                    assert(r[b] == m[m.len() - 1]);
                    assert(r[a] == m[a]);
                } else {
                    assert(r[a] == m[a]);
                    assert(r[b] == m[b]);
                }
            }
        },
        None => {},
    }
}

/// `get` under a different key does not see a removal, when keys are unique.
pub proof fn lemma_get_swap_remove_other(m: Entries, k: YamlView, k2: YamlView)
    requires
        k != k2,
        unique_keys(m),
    ensures
        get(swap_remove(m, k), k2) == get(m, k2),
{
    lemma_find_bounds(m, k);
    lemma_find_bounds(m, k2);
    let r = swap_remove(m, k);
    match find(m, k) {
        Some(i) => {
            lemma_find_bounds(r, k2);
            match find(m, k2) {
                Some(j) => {
                    // The entry for `k2` is either untouched or the one moved into `i`.
                    let pos = if j == m.len() - 1 {
                        i
                    } else {
                        j
                    };
                    assert(r[pos] == m[j]);
                    assert forall|a: int| 0 <= a < pos implies r[a].0 != k2 by {
                        if a == i {
                            assert(r[a] == m[m.len() - 1]);
                        } else {
                            assert(r[a] == m[a]);
                        }
                    }
                    lemma_find_is(r, k2, pos);
                },
                None => {
                    assert forall|a: int| 0 <= a < r.len() implies r[a].0 != k2 by {
                        if a == i {
                            assert(r[a] == m[m.len() - 1]);
                        } else {
                            assert(r[a] == m[a]);
                        }
                    }
                    lemma_find_none(r, k2);
                },
            }
        },
        None => {},
    }
}

// ---------------------------------------------------------------------------
// Exec operations
// ---------------------------------------------------------------------------

/// A string key.
pub fn str_key(s: &str) -> (r: Yaml)
    ensures
        r.deep() == YamlView::Str(s@),
{
    Yaml::Str(String::from_str(s))
}

/// A copy of a lookup key.
pub fn copy_probe_key(k: &Yaml) -> (r: Yaml)
    requires
        is_probe_key(k.deep()),
    ensures
        r.deep() == k.deep(),
{
    match k {
        Yaml::Str(s) => Yaml::Str(String::from_str(s.as_str())),
        Yaml::PosInt(n) => Yaml::PosInt(*n),
        _ => Yaml::Null,
    }
}

/// Whether `k` is the lookup key `probe`.
pub fn key_is(k: &Yaml, probe: &Yaml) -> (r: bool)
    requires
        is_probe_key(probe.deep()),
    ensures
        r == (k.deep() == probe.deep()),
{
    match (k, probe) {
        (Yaml::Str(a), Yaml::Str(b)) => str_eq(a.as_str(), b.as_str()),
        (Yaml::PosInt(a), Yaml::PosInt(b)) => *a == *b,
        _ => false,
    }
}

/// The position of the first entry keyed by `probe`.
pub fn find_key(m: &Vec<(Yaml, Yaml)>, probe: &Yaml) -> (r: Option<usize>)
    requires
        is_probe_key(probe.deep()),
    ensures
        match r {
            Some(i) => find(deep_entries(m@), probe.deep()) == Some(i as int) && (i as int) < m@.len(),
            None => find(deep_entries(m@), probe.deep()) == None::<int>,
        },
{
    let ghost d = deep_entries(m@);
    let mut i: usize = 0;
    while i < m.len()
        invariant
            d == deep_entries(m@),
            is_probe_key(probe.deep()),
            i <= m@.len(),
            forall|j: int| 0 <= j < i ==> d[j].0 != probe.deep(),
        decreases m@.len() - i,
    {
        if key_is(&m[i].0, probe) {
            proof {
                lemma_find_is(d, probe.deep(), i as int);
            }
            return Some(i);
        }
        i += 1;
    }
    proof {
        lemma_find_none(d, probe.deep());
    }
    None
}

/// `Mapping::get`.
pub fn get_value<'a>(m: &'a Vec<(Yaml, Yaml)>, probe: &Yaml) -> (r: Option<&'a Yaml>)
    requires
        is_probe_key(probe.deep()),
    ensures
        match r {
            Some(v) => get(deep_entries(m@), probe.deep()) == Some(v.deep()),
            None => get(deep_entries(m@), probe.deep()) == None::<YamlView>,
        },
{
    match find_key(m, probe) {
        Some(i) => Some(&m[i].1),
        None => None,
    }
}

/// `Value::as_mapping`: the entries of a mapping, looking through tags.
pub fn mapping_of(v: &Yaml) -> (r: Option<&Vec<(Yaml, Yaml)>>)
    ensures
        match r {
            Some(m) => as_mapping(v.deep()) == Some(deep_entries(m@)),
            None => as_mapping(v.deep()) == None::<Entries>,
        },
    decreases v,
{
    match v {
        Yaml::Mapping(m) => {
            proof {
                lemma_mapping_deep(*m);
            }
            Some(m)
        },
        Yaml::Tagged(_, b) => mapping_of(b),
        _ => None,
    }
}

/// `Value::as_str`: the text of a string, looking through tags.
pub fn str_of(v: &Yaml) -> (r: Option<&String>)
    ensures
        match r {
            Some(s) => as_str(v.deep()) == Some(s@),
            None => as_str(v.deep()) == None::<Seq<char>>,
        },
    decreases v,
{
    match v {
        Yaml::Str(s) => Some(s),
        Yaml::Tagged(_, b) => str_of(b),
        _ => None,
    }
}

/// `Value::as_bool`, looking through tags.
pub fn bool_of(v: &Yaml) -> (r: Option<bool>)
    ensures
        r == as_bool(v.deep()),
    decreases v,
{
    match v {
        Yaml::Bool(b) => Some(*b),
        Yaml::Tagged(_, b) => bool_of(b),
        _ => None,
    }
}

proof fn lemma_deep_entries_update(s: Seq<(Yaml, Yaml)>, i: int, e: (Yaml, Yaml))
    requires
        0 <= i < s.len(),
    ensures
        deep_entries(s.update(i, e)) == deep_entries(s).update(i, (e.0.deep(), e.1.deep())),
{
    assert(deep_entries(s.update(i, e)) =~= deep_entries(s).update(i, (e.0.deep(), e.1.deep())));
}

proof fn lemma_deep_entries_push(s: Seq<(Yaml, Yaml)>, e: (Yaml, Yaml))
    ensures
        deep_entries(s.push(e)) == deep_entries(s).push((e.0.deep(), e.1.deep())),
{
    assert(deep_entries(s.push(e)) =~= deep_entries(s).push((e.0.deep(), e.1.deep())));
}

/// `Mapping::insert`.
pub fn insert_entry(m: &mut Vec<(Yaml, Yaml)>, key: Yaml, value: Yaml)
    requires
        is_probe_key(key.deep()),
    ensures
        deep_entries(final(m)@) == insert(deep_entries(old(m)@), key.deep(), value.deep()),
{
    let ghost d0 = deep_entries(m@);
    let ghost vd = value.deep();
    let ghost kd = key.deep();
    match find_key(m, &key) {
        Some(i) => {
            let ghost s0 = m@;
            let (k, _old) = m.remove(i);
            m.insert(i, (k, value));
            proof {
                assert(m@ =~= s0.update(i as int, (s0[i as int].0, value)));
                lemma_deep_entries_update(s0, i as int, (s0[i as int].0, value));
            }
        },
        None => {
            let ghost s0 = m@;
            m.push((key, value));
            proof {
                lemma_deep_entries_push(s0, (key, value));
            }
        },
    }
}

/// `Mapping::remove`.
pub fn remove_entry(m: &mut Vec<(Yaml, Yaml)>, probe: &Yaml)
    requires
        is_probe_key(probe.deep()),
    ensures
        deep_entries(final(m)@) == swap_remove(deep_entries(old(m)@), probe.deep()),
{
    match find_key(m, probe) {
        Some(i) => {
            let ghost s0 = m@;
            let _ = m.swap_remove(i);
            proof {
                let d0 = deep_entries(s0);
                assert(deep_entries(m@) =~= d0.update(i as int, d0.last()).drop_last());
            }
        },
        None => {},
    }
}

/// Take the mapping stored under `key` out of `m` (an empty mapping when the
/// value there is absent or not a mapping), leaving `Null` in its place, so
/// that it can be changed and put back with [`insert_entry`].
pub fn take_child(m: &mut Vec<(Yaml, Yaml)>, key: &Yaml) -> (child: Vec<(Yaml, Yaml)>)
    requires
        is_probe_key(key.deep()),
    ensures
        deep_entries(child@) == child_or_empty(deep_entries(old(m)@), key.deep()),
        deep_entries(final(m)@) == insert(deep_entries(old(m)@), key.deep(), YamlView::Null),
{
    let ghost d0 = deep_entries(m@);
    match find_key(m, key) {
        Some(i) => {
            let ghost s0 = m@;
            let (k, old_value) = m.remove(i);
            m.insert(i, (k, Yaml::Null));
            proof {
                assert(m@ =~= s0.update(i as int, (s0[i as int].0, Yaml::Null)));
                lemma_deep_entries_update(s0, i as int, (s0[i as int].0, Yaml::Null));
            }
            match old_value {
                Yaml::Mapping(c) => {
                    proof {
                        lemma_mapping_deep(c);
                    }
                    c
                },
                _ => {
                    let c: Vec<(Yaml, Yaml)> = Vec::new();
                    assert(deep_entries(c@) =~= Seq::<(YamlView, YamlView)>::empty());
                    c
                },
            }
        },
        None => {
            let ghost s0 = m@;
            let k = copy_probe_key(key);
            m.push((k, Yaml::Null));
            proof {
                lemma_deep_entries_push(s0, (k, Yaml::Null));
            }
            let c: Vec<(Yaml, Yaml)> = Vec::new();
            assert(deep_entries(c@) =~= Seq::<(YamlView, YamlView)>::empty());
            c
        },
    }
}

/// Put a mapping back under `key` after [`take_child`].
pub fn put_child(m: &mut Vec<(Yaml, Yaml)>, key: &Yaml, child: Vec<(Yaml, Yaml)>)
    requires
        is_probe_key(key.deep()),
    ensures
        deep_entries(final(m)@) == insert(
            deep_entries(old(m)@),
            key.deep(),
            YamlView::Mapping(deep_entries(child@)),
        ),
{
    proof {
        lemma_mapping_deep(child);
    }
    insert_entry(m, copy_probe_key(key), Yaml::Mapping(child));
}


impl Yaml {
    /// An independent copy with the same value.
    pub fn deep_copy(&self) -> (r: Yaml)
        ensures
            r.deep() == self.deep(),
        decreases self,
    {
        match self {
            Yaml::Null => Yaml::Null,
            Yaml::Bool(b) => Yaml::Bool(*b),
            Yaml::PosInt(n) => Yaml::PosInt(*n),
            Yaml::NegInt(n) => Yaml::NegInt(*n),
            Yaml::Float(t) => Yaml::Float(String::from_str(t.as_str())),
            Yaml::Str(t) => Yaml::Str(String::from_str(t.as_str())),
            Yaml::List(v) => {
                let r = Yaml::List(copy_list(v));
                proof {
                    let (x, y) = (r.deep(), self.deep());
                    match (x, y) {
                        (YamlView::List(p), YamlView::List(q)) => {
                            assert(p =~= q);
                        },
                        _ => {},
                    }
                }
                r
            },
            Yaml::Mapping(v) => {
                let c = copy_entries(v);
                proof {
                    lemma_mapping_deep(c);
                    lemma_mapping_deep(*v);
                }
                Yaml::Mapping(c)
            },
            Yaml::Tagged(t, b) => Yaml::Tagged(String::from_str(t.as_str()), Box::new(b.deep_copy())),
        }
    }
}

/// An independent copy of a list's items.
pub fn copy_list(v: &Vec<Yaml>) -> (r: Vec<Yaml>)
    ensures
        r@.len() == v@.len(),
        forall|j: int| 0 <= j < v@.len() ==> (#[trigger] r@[j]).deep() == v@[j].deep(),
    decreases v,
{
    let mut out: Vec<Yaml> = Vec::new();
    let mut i: usize = 0;
    while i < v.len()
        invariant
            i <= v@.len(),
            out@.len() == i,
            forall|j: int| 0 <= j < i ==> (#[trigger] out@[j]).deep() == v@[j].deep(),
        decreases v@.len() - i,
    {
        let c = v[i].deep_copy();
        out.push(c);
        i += 1;
    }
    out
}

/// An independent copy of a mapping's entries.
pub fn copy_entries(v: &Vec<(Yaml, Yaml)>) -> (r: Vec<(Yaml, Yaml)>)
    ensures
        deep_entries(r@) == deep_entries(v@),
    decreases v,
{
    let mut out: Vec<(Yaml, Yaml)> = Vec::new();
    let mut i: usize = 0;
    while i < v.len()
        invariant
            i <= v@.len(),
            out@.len() == i,
            forall|j: int|
                0 <= j < i ==> (#[trigger] out@[j]).0.deep() == v@[j].0.deep() && out@[j].1.deep()
                    == v@[j].1.deep(),
        decreases v@.len() - i,
    {
        let k = v[i].0.deep_copy();
        let x = v[i].1.deep_copy();
        out.push((k, x));
        i += 1;
    }
    assert(deep_entries(out@) =~= deep_entries(v@));
    out
}
} // verus!
