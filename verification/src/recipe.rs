//! The project recipe: the `rheis:` entries of `index.panta.md`, each naming
//! a template and the rheis it depends on. Validation (legal, unreserved,
//! unique ids; dependencies that name entries; no dependency cycle), the run
//! order, and narrowing a run to some rheis and everything they need.
use vstd::prelude::*;
use crate::graph::{dfs_finish_order, first_cycle_walk, opt_walk, 
    adjacency, closes_cycle, dependency_order, edge, find_cycle, has_cycle, is_cycle, is_path,
    reachable, reachable_set, usize_seq_to_int, well_formed,
};
use crate::text::{chars_of, is_alnum, is_alpha, is_ascii_alnum, is_ascii_alpha, str_eq};
use crate::yaml::Yaml;
use crate::yaml_text::{entries_wf, lemma_insert_wf};

verus! {

/// One rhei of the recipe.
#[derive(Debug, PartialEq)]
pub struct RecipeEntry {
    pub id: String,
    pub template: String,
    pub inputs: Vec<(Yaml, Yaml)>,
    pub depends_on: Vec<String>,
}

/// Why a recipe, or a change to it, is refused.
#[derive(Debug, PartialEq)]
pub enum RecipeError {
    /// An id that does not start with a letter or holds other than letters,
    /// digits, `-`, or `_`.
    InvalidId(String),
    /// `basin` or `panta`.
    ReservedId(String),
    /// An id used by an earlier entry.
    DuplicateId(String),
    /// A `depends-on` naming no entry.
    UnknownDependency { rhei: String, dependency: String },
    /// A dependency cycle, written as the walk that closes it.
    Cycle(Vec<String>),
    /// A `--rhei` naming no entry.
    NotAnEntry(String),
    /// `panta add` with an id the recipe already has.
    AlreadyExists(String),
    /// `panta add --depends-on` naming no entry.
    UnknownDependsOn(String),
    /// A manifest whose `rheis:` is neither a list nor empty.
    RheisNotList,
    /// A manifest whose frontmatter is not a YAML mapping: why.
    FrontmatterUnparsable(String),
    /// Frontmatter that could not be written out as YAML: why.
    FrontmatterUnwritable(String),
}

pub open spec fn reserved_id(id: Seq<char>) -> bool {
    id == "basin"@ || id == "panta"@
}

/// A legal rhei id: a letter, then letters, digits, `-`, or `_`.
pub open spec fn valid_rhei_id(id: Seq<char>) -> bool {
    &&& id.len() > 0
    &&& is_alpha(id[0])
    &&& forall|k: int| 0 <= k < id.len() ==> is_id_char(#[trigger] id[k])
}

pub open spec fn is_id_char(c: char) -> bool {
    is_alnum(c) || c == '-' || c == '_'
}

/// Whether `id` is a legal rhei id.
pub fn is_valid_rhei_id(id: &str) -> (r: bool)
    ensures
        r == valid_rhei_id(id@),
{
    let v = chars_of(id);
    if v.len() == 0 || !is_ascii_alpha(v[0]) {
        return false;
    }
    let mut i: usize = 0;
    while i < v.len()
        invariant
            v@ == id@,
            i <= v@.len(),
            forall|k: int| 0 <= k < i ==> is_id_char(#[trigger] v@[k]),
        decreases v@.len() - i,
    {
        let c = v[i];
        if !(is_ascii_alnum(c) || c == '-' || c == '_') {
            assert(!is_id_char(v@[i as int]));
            return false;
        }
        i += 1;
    }
    true
}

fn is_reserved_id(id: &str) -> (r: bool)
    ensures
        r == reserved_id(id@),
{
    str_eq(id, "basin") || str_eq(id, "panta")
}

pub open spec fn ids_of(entries: Seq<RecipeEntry>) -> Seq<Seq<char>> {
    Seq::new(entries.len(), |i: int| entries[i].id@)
}

pub open spec fn deps_of(e: RecipeEntry) -> Seq<Seq<char>> {
    Seq::new(e.depends_on@.len(), |j: int| e.depends_on@[j]@)
}

// ---------------------------------------------------------------------------
// Id checks
// ---------------------------------------------------------------------------

pub enum IdFault {
    Invalid,
    Reserved,
    Duplicate,
}

/// What is wrong with the `k`-th id, checked in this order.
pub open spec fn id_fault(ids: Seq<Seq<char>>, k: int) -> Option<IdFault> {
    if !valid_rhei_id(ids[k]) {
        Some(IdFault::Invalid)
    } else if reserved_id(ids[k]) {
        Some(IdFault::Reserved)
    } else if ids.take(k).contains(ids[k]) {
        Some(IdFault::Duplicate)
    } else {
        None
    }
}

/// The first entry, among the first `n`, whose id is at fault.
pub open spec fn first_id_fault(ids: Seq<Seq<char>>, n: int) -> Option<(int, IdFault)>
    decreases n,
{
    if n <= 0 {
        None
    } else {
        match first_id_fault(ids, n - 1) {
            Some(x) => Some(x),
            None => match id_fault(ids, n - 1) {
                Some(f) => Some((n - 1, f)),
                None => None,
            },
        }
    }
}

/// The first dependency of `deps` that names no id.
pub open spec fn first_unknown(ids: Seq<Seq<char>>, deps: Seq<Seq<char>>, n: int) -> Option<int>
    decreases n,
{
    if n <= 0 {
        None
    } else {
        match first_unknown(ids, deps, n - 1) {
            Some(j) => Some(j),
            None => if !ids.contains(deps[n - 1]) {
                Some(n - 1)
            } else {
                None
            },
        }
    }
}

/// The first (entry, dependency) pair, among the first `n` entries, whose
/// dependency names no entry.
pub open spec fn first_unknown_dep(entries: Seq<RecipeEntry>, n: int) -> Option<(int, int)>
    decreases n,
{
    if n <= 0 {
        None
    } else {
        match first_unknown_dep(entries, n - 1) {
            Some(x) => Some(x),
            None => match first_unknown(
                ids_of(entries),
                deps_of(entries[n - 1]),
                deps_of(entries[n - 1]).len() as int,
            ) {
                Some(j) => Some((n - 1, j)),
                None => None,
            },
        }
    }
}

proof fn lemma_first_id_fault_extends(ids: Seq<Seq<char>>, i: int, n: int)
    requires
        0 <= i < n,
        first_id_fault(ids, i) is None,
        id_fault(ids, i) is Some,
    ensures
        first_id_fault(ids, n) == Some((i, id_fault(ids, i)->0)),
    decreases n - i,
{
    if n > i + 1 {
        lemma_first_id_fault_extends(ids, i, n - 1);
    }
}

proof fn lemma_first_unknown_dep_extends(entries: Seq<RecipeEntry>, i: int, n: int)
    requires
        0 <= i < n,
        first_unknown_dep(entries, i) is None,
        first_unknown(ids_of(entries), deps_of(entries[i]), deps_of(entries[i]).len() as int) is Some,
    ensures
        first_unknown_dep(entries, n) == Some(
            (i, first_unknown(ids_of(entries), deps_of(entries[i]), deps_of(entries[i]).len() as int)->0),
        ),
    decreases n - i,
{
    if n > i + 1 {
        lemma_first_unknown_dep_extends(entries, i, n - 1);
    }
}

fn contains_id(entries: &Vec<RecipeEntry>, upto: usize, id: &str) -> (r: bool)
    requires
        upto <= entries@.len(),
    ensures
        r == ids_of(entries@).take(upto as int).contains(id@),
{
    let ghost ids = ids_of(entries@);
    let mut j: usize = 0;
    while j < upto
        invariant
            upto <= entries@.len(),
            ids == ids_of(entries@),
            j <= upto,
            forall|q: int| 0 <= q < j ==> ids[q] != id@,
        decreases upto - j,
    {
        if str_eq(entries[j].id.as_str(), id) {
            assert(ids.take(upto as int)[j as int] == id@);
            return true;
        }
        j += 1;
    }
    proof {
        assert forall|q: int| 0 <= q < upto implies ids.take(upto as int)[q] != id@ by {
            assert(ids.take(upto as int)[q] == ids[q]);
        }
    }
    false
}

fn check_ids(entries: &Vec<RecipeEntry>) -> (r: Result<(), RecipeError>)
    ensures
        match r {
            Ok(()) => first_id_fault(ids_of(entries@), entries@.len() as int) is None,
            Err(RecipeError::InvalidId(x)) => first_id_fault(ids_of(entries@), entries@.len() as int)
                matches Some((k, IdFault::Invalid)) && x@ == ids_of(entries@)[k],
            Err(RecipeError::ReservedId(x)) => first_id_fault(ids_of(entries@), entries@.len() as int)
                matches Some((k, IdFault::Reserved)) && x@ == ids_of(entries@)[k],
            Err(RecipeError::DuplicateId(x)) => first_id_fault(ids_of(entries@), entries@.len() as int)
                matches Some((k, IdFault::Duplicate)) && x@ == ids_of(entries@)[k],
            _ => false,
        },
{
    let ghost ids = ids_of(entries@);
    let mut i: usize = 0;
    while i < entries.len()
        invariant
            ids == ids_of(entries@),
            i <= entries@.len(),
            first_id_fault(ids, i as int) is None,
        decreases entries@.len() - i,
    {
        let id = entries[i].id.as_str();
        assert(ids[i as int] == id@);
        if !is_valid_rhei_id(id) {
            proof {
                lemma_first_id_fault_extends(ids, i as int, entries@.len() as int);
            }
            return Err(RecipeError::InvalidId(String::from_str(id)));
        }
        if is_reserved_id(id) {
            proof {
                lemma_first_id_fault_extends(ids, i as int, entries@.len() as int);
            }
            return Err(RecipeError::ReservedId(String::from_str(id)));
        }
        if contains_id(entries, i, id) {
            proof {
                lemma_first_id_fault_extends(ids, i as int, entries@.len() as int);
            }
            return Err(RecipeError::DuplicateId(String::from_str(id)));
        }
        i += 1;
    }
    Ok(())
}

fn check_dependencies(entries: &Vec<RecipeEntry>) -> (r: Result<(), RecipeError>)
    ensures
        match r {
            Ok(()) => first_unknown_dep(entries@, entries@.len() as int) is None,
            Err(RecipeError::UnknownDependency { rhei, dependency }) => first_unknown_dep(
                entries@,
                entries@.len() as int,
            ) matches Some((i, j)) && rhei@ == ids_of(entries@)[i] && dependency@ == deps_of(
                entries@[i],
            )[j],
            _ => false,
        },
{
    let ghost ids = ids_of(entries@);
    let n = entries.len();
    let mut i: usize = 0;
    while i < n
        invariant
            n == entries@.len(),
            ids == ids_of(entries@),
            i <= n,
            first_unknown_dep(entries@, i as int) is None,
        decreases n - i,
    {
        let deps = &entries[i].depends_on;
        let ghost dv = deps_of(entries@[i as int]);
        let mut j: usize = 0;
        while j < deps.len()
            invariant
                n == entries@.len(),
                i < n,
                ids == ids_of(entries@),
                deps == entries@[i as int].depends_on,
                dv == deps_of(entries@[i as int]),
                j <= deps@.len(),
                first_unknown_dep(entries@, i as int) is None,
                first_unknown(ids, dv, j as int) is None,
            decreases deps@.len() - j,
        {
            let dep = deps[j].as_str();
            assert(dv[j as int] == dep@);
            if !contains_id(entries, n, dep) {
                proof {
                    assert(ids.take(n as int) =~= ids);
                    lemma_first_unknown_extends(ids, dv, j as int, dv.len() as int);
                    lemma_first_unknown_dep_extends(entries@, i as int, n as int);
                }
                return Err(
                    RecipeError::UnknownDependency {
                        rhei: String::from_str(entries[i].id.as_str()),
                        dependency: String::from_str(dep),
                    },
                );
            }
            proof {
                assert(ids.take(n as int) =~= ids);
            }
            j += 1;
        }
        i += 1;
    }
    Ok(())
}

proof fn lemma_first_unknown_extends(ids: Seq<Seq<char>>, deps: Seq<Seq<char>>, j: int, n: int)
    requires
        0 <= j < n,
        first_unknown(ids, deps, j) is None,
        !ids.contains(deps[j]),
    ensures
        first_unknown(ids, deps, n) == Some(j),
    decreases n - j,
{
    if n > j + 1 {
        lemma_first_unknown_extends(ids, deps, j, n - 1);
    }
}

// ---------------------------------------------------------------------------
// The dependency graph
// ---------------------------------------------------------------------------

/// The last entry with this id: the one a by-id lookup table keeps when ids
/// repeat.
pub open spec fn last_index_of(ids: Seq<Seq<char>>, x: Seq<char>) -> Option<int>
    decreases ids.len(),
{
    if ids.len() == 0 {
        None
    } else if ids.last() == x {
        Some(ids.len() - 1)
    } else {
        last_index_of(ids.drop_last(), x)
    }
}

proof fn lemma_last_index_of(ids: Seq<Seq<char>>, x: Seq<char>)
    ensures
        match last_index_of(ids, x) {
            Some(j) => 0 <= j < ids.len() && ids[j] == x && forall|q: int|
                j < q < ids.len() ==> ids[q] != x,
            None => !ids.contains(x),
        },
    decreases ids.len(),
{
    if ids.len() > 0 && ids.last() != x {
        lemma_last_index_of(ids.drop_last(), x);
        match last_index_of(ids.drop_last(), x) {
            Some(j) => {
                assert(ids[j] == ids.drop_last()[j]);
                assert forall|q: int| j < q < ids.len() implies ids[q] != x by {
                    if q < ids.len() - 1 {
                        assert(ids[q] == ids.drop_last()[q]);
                    }
                }
            },
            None => {
                if ids.contains(x) {
                    let q = choose|q: int| 0 <= q < ids.len() && ids[q] == x;
                    assert(ids.drop_last()[q] == x);
                }
            },
        }
    }
}

proof fn lemma_last_index_is(ids: Seq<Seq<char>>, x: Seq<char>, j: int)
    requires
        0 <= j < ids.len(),
        ids[j] == x,
        forall|q: int| j < q < ids.len() ==> ids[q] != x,
    ensures
        last_index_of(ids, x) == Some(j),
    decreases ids.len(),
{
    if j < ids.len() - 1 {
        assert forall|q: int| j < q < ids.drop_last().len() implies ids.drop_last()[q] != x by {
            assert(ids.drop_last()[q] == ids[q]);
        }
        lemma_last_index_is(ids.drop_last(), x, j);
    }
}

/// The entries a list of dependency names resolves to, skipping unknown names.
pub open spec fn dep_targets(ids: Seq<Seq<char>>, deps: Seq<Seq<char>>) -> Seq<usize>
    decreases deps.len(),
{
    if deps.len() == 0 {
        Seq::empty()
    } else {
        let p = dep_targets(ids, deps.drop_last());
        match last_index_of(ids, deps.last()) {
            Some(j) => p.push(j as usize),
            None => p,
        }
    }
}

/// The recipe as a graph: entry `i` lists the entries its `depends-on` names.
pub open spec fn recipe_graph(entries: Seq<RecipeEntry>) -> Seq<Seq<usize>> {
    Seq::new(entries.len(), |i: int| dep_targets(ids_of(entries), deps_of(entries[i])))
}

proof fn lemma_dep_targets_canonical(ids: Seq<Seq<char>>, deps: Seq<Seq<char>>)
    requires
        ids.len() <= usize::MAX,
    ensures
        forall|k: int|
            0 <= k < dep_targets(ids, deps).len() ==> (#[trigger] dep_targets(ids, deps)[k] as int)
                < ids.len() && last_index_of(ids, ids[dep_targets(ids, deps)[k] as int]) == Some(
                dep_targets(ids, deps)[k] as int,
            ),
    decreases deps.len(),
{
    if deps.len() > 0 {
        lemma_dep_targets_canonical(ids, deps.drop_last());
        lemma_last_index_of(ids, deps.last());
        let p = dep_targets(ids, deps.drop_last());
        match last_index_of(ids, deps.last()) {
            Some(j) => {
                lemma_last_index_is(ids, ids[j], j);
                assert forall|k: int| 0 <= k < p.push(j as usize).len() implies (#[trigger] p.push(
                    j as usize,
                )[k] as int) < ids.len() && last_index_of(ids, ids[p.push(j as usize)[k] as int])
                    == Some(p.push(j as usize)[k] as int) by {
                    if k < p.len() {
                        assert(p.push(j as usize)[k] == p[k]);
                    }
                }
            },
            None => {},
        }
    }
}

proof fn lemma_recipe_graph_facts(entries: Seq<RecipeEntry>)
    requires
        entries.len() <= usize::MAX,
    ensures
        recipe_graph(entries).len() == entries.len(),
        well_formed(recipe_graph(entries)),
        forall|u: int, v: int|
            #[trigger] edge(recipe_graph(entries), u, v) ==> last_index_of(
                ids_of(entries),
                ids_of(entries)[v],
            ) == Some(v),
{
    let g = recipe_graph(entries);
    let ids = ids_of(entries);
    assert forall|u: int, k: int| 0 <= u < g.len() && 0 <= k < g[u].len() implies (#[trigger] g[u][k]
        as int) < g.len() by {
        lemma_dep_targets_canonical(ids, deps_of(entries[u]));
    }
    assert forall|u: int, v: int| #[trigger] edge(g, u, v) implies last_index_of(ids, ids[v]) == Some(
        v,
    ) by {
        lemma_dep_targets_canonical(ids, deps_of(entries[u]));
        let k = choose|k: int| 0 <= k < g[u].len() && g[u][k] == v as usize;
        assert(dep_targets(ids, deps_of(entries[u]))[k] == g[u][k]);
    }
}

/// The position of the last entry with `id`.
fn last_index(entries: &Vec<RecipeEntry>, id: &str) -> (r: Option<usize>)
    ensures
        match r {
            Some(j) => last_index_of(ids_of(entries@), id@) == Some(j as int),
            None => last_index_of(ids_of(entries@), id@) == None::<int>,
        },
{
    let ghost ids = ids_of(entries@);
    let mut j = entries.len();
    while j > 0
        invariant
            ids == ids_of(entries@),
            j <= entries@.len(),
            forall|q: int| j <= q < entries@.len() ==> ids[q] != id@,
        decreases j,
    {
        if str_eq(entries[j - 1].id.as_str(), id) {
            proof {
                lemma_last_index_is(ids, id@, j - 1);
            }
            return Some(j - 1);
        }
        j -= 1;
    }
    proof {
        lemma_last_index_of(ids, id@);
        if let Some(q) = last_index_of(ids, id@) {
            assert(ids[q] == id@);
        }
    }
    None
}

/// The recipe's dependency graph.
pub fn build_graph(entries: &Vec<RecipeEntry>) -> (g: Vec<Vec<usize>>)
    ensures
        adjacency(g@) == recipe_graph(entries@),
{
    let ghost ids = ids_of(entries@);
    let mut g: Vec<Vec<usize>> = Vec::new();
    let mut i: usize = 0;
    while i < entries.len()
        invariant
            ids == ids_of(entries@),
            i <= entries@.len(),
            g@.len() == i,
            forall|q: int| 0 <= q < i ==> (#[trigger] g@[q])@ == recipe_graph(entries@)[q],
        decreases entries@.len() - i,
    {
        let deps = &entries[i].depends_on;
        let ghost dv = deps_of(entries@[i as int]);
        let mut out: Vec<usize> = Vec::new();
        let mut j: usize = 0;
        while j < deps.len()
            invariant
                ids == ids_of(entries@),
                i < entries@.len(),
                deps == entries@[i as int].depends_on,
                dv == deps_of(entries@[i as int]),
                j <= deps@.len(),
                out@ == dep_targets(ids, dv.take(j as int)),
            decreases deps@.len() - j,
        {
            assert(dv.take(j + 1).drop_last() =~= dv.take(j as int));
            assert(dv.take(j + 1).last() == deps@[j as int]@);
            match last_index(entries, deps[j].as_str()) {
                Some(t) => out.push(t),
                None => {},
            }
            j += 1;
        }
        assert(dv.take(deps@.len() as int) =~= dv);
        g.push(out);
        i += 1;
    }
    assert(adjacency(g@) =~= recipe_graph(entries@));
    g
}

// ---------------------------------------------------------------------------
// Cycles and validation
// ---------------------------------------------------------------------------

/// The ids along a walk.
pub open spec fn walk_names(entries: Seq<RecipeEntry>, p: Seq<int>) -> Seq<Seq<char>> {
    Seq::new(p.len(), |k: int| ids_of(entries)[p[k]])
}

/// The entries a cycle search starts from, one per entry in order: the
/// entry a by-id table resolves that entry's id to (the last with the id).
pub open spec fn entry_roots(entries: Seq<RecipeEntry>) -> Seq<usize> {
    Seq::new(entries.len(), |q: int| last_index_of(ids_of(entries), ids_of(entries)[q])->0 as usize)
}

/// Reject a dependency cycle: `Err(Cycle(names))` lists the ids of a walk along
/// `depends-on` edges that returns to a rhei already on it; `Ok` exactly when
/// the recipe's dependency graph has no cycle.
pub fn detect_recipe_cycle(entries: &Vec<RecipeEntry>) -> (r: Result<(), RecipeError>)
    ensures
        r is Ok <==> !has_cycle(recipe_graph(entries@)),
        r is Ok <==> first_cycle_walk(recipe_graph(entries@), entry_roots(entries@)) is None,
        r matches Err(RecipeError::Cycle(names)) ==> first_cycle_walk(
            recipe_graph(entries@),
            entry_roots(entries@),
        ) matches Some(p) && Seq::new(names@.len(), |k: int| names@[k]@) == walk_names(
            entries@,
            usize_seq_to_int(p),
        ),
        match r {
            Err(RecipeError::Cycle(names)) => exists|p: Seq<int>|
                closes_cycle(recipe_graph(entries@), p) && Seq::new(
                    names@.len(),
                    |k: int| names@[k]@,
                ) == walk_names(entries@, p),
            Err(_) => false,
            Ok(()) => true,
        },
{
    let ghost ids = ids_of(entries@);
    let g = build_graph(entries);
    let ghost gg = adjacency(g@);
    let total = entries.len();
    proof {
        assert(entries@.len() == total);
        lemma_recipe_graph_facts(entries@);
    }
    // Searched from each entry's id in turn, as a by-id table resolves it.
    let mut roots: Vec<usize> = Vec::new();
    let mut i: usize = 0;
    while i < entries.len()
        invariant
            ids == ids_of(entries@),
            i <= entries@.len(),
            roots@.len() == i,
            forall|q: int| 0 <= q < i ==> last_index_of(ids, ids[q]) == Some(#[trigger] roots@[q] as int),
        decreases entries@.len() - i,
    {
        match last_index(entries, entries[i].id.as_str()) {
            Some(t) => roots.push(t),
            None => {
                proof {
                    lemma_last_index_of(ids, ids[i as int]);
                    assert(ids[i as int] == ids[i as int]);
                }
                roots.push(i);
            },
        }
        i += 1;
    }
    proof {
        assert forall|k: int| 0 <= k < roots@.len() implies (#[trigger] roots@[k] as int) < g@.len() by {
            lemma_last_index_of(ids, ids[k]);
        }
    }
    proof {
        assert forall|q: int| 0 <= q < roots@.len() implies roots@[q] == entry_roots(entries@)[q] by {
            assert(last_index_of(ids, ids[q]) == Some(roots@[q] as int));
        }
        assert(roots@ =~= entry_roots(entries@));
    }
    match find_cycle(&g, &roots) {
        Some(p) => {
            let mut names: Vec<String> = Vec::new();
            let mut k: usize = 0;
            while k < p.len()
                invariant
                    ids == ids_of(entries@),
                    gg == adjacency(g@),
                    g@.len() == entries@.len(),
                    closes_cycle(gg, usize_seq_to_int(p@)),
                    k <= p@.len(),
                    names@.len() == k,
                    forall|q: int| 0 <= q < k ==> (#[trigger] names@[q])@ == ids[p@[q] as int],
                decreases p@.len() - k,
            {
                let idx = p[k];
                assert(usize_seq_to_int(p@)[k as int] == idx as int);
                names.push(String::from_str(entries[idx].id.as_str()));
                k += 1;
            }
            proof {
                let pi = usize_seq_to_int(p@);
                assert(Seq::new(names@.len(), |q: int| names@[q]@) =~= walk_names(entries@, pi));
                lemma_closes_cycle_has_cycle(gg, pi);
            }
            Err(RecipeError::Cycle(names))
        },
        None => {
            proof {
                if has_cycle(gg) {
                    let c = choose|c: Seq<int>| is_cycle(gg, c);
                    // Every node on a cycle is entered by an edge, so it is the
                    // last entry with its id, and that entry is a search root.
                    let v = c[1];
                    assert(edge(gg, c[0int], c[0int + 1]));
                    assert(last_index_of(ids, ids[v]) == Some(v));
                    assert(roots@[v] as int == v);
                    assert(roots@.contains(c[1] as usize));
                }
            }
            Ok(())
        },
    }
}

proof fn lemma_closes_cycle_has_cycle(g: Seq<Seq<usize>>, p: Seq<int>)
    requires
        closes_cycle(g, p),
    ensures
        has_cycle(g),
{
    let k = choose|k: int| 0 <= k < p.len() - 1 && #[trigger] p[k] == p[p.len() - 1];
    let c = p.subrange(k, p.len() as int);
    assert forall|i: int| 0 <= i < c.len() implies 0 <= #[trigger] c[i] < g.len() by {
        assert(c[i] == p[k + i]);
    }
    assert forall|i: int| 0 <= i < c.len() - 1 implies #[trigger] edge(g, c[i], c[i + 1]) by {
        assert(c[i] == p[k + i]);
        assert(c[i + 1] == p[(k + i) + 1]);
    }
    assert(is_cycle(g, c));
}

/// What validating the recipe `entries` gives: `r`, as `validate_recipe`
/// states it.
pub open spec fn validate_result(entries: Seq<RecipeEntry>, r: Result<(), RecipeError>) -> bool {
    &&& (r is Ok <==> (first_id_fault(ids_of(entries), entries.len() as int) is None
            && first_unknown_dep(entries, entries.len() as int) is None && !has_cycle(
            recipe_graph(entries),
        )))
    &&& match r {
            Ok(()) => true,
            Err(RecipeError::InvalidId(x)) => first_id_fault(ids_of(entries), entries.len() as int)
                matches Some((k, IdFault::Invalid)) && x@ == ids_of(entries)[k],
            Err(RecipeError::ReservedId(x)) => first_id_fault(ids_of(entries), entries.len() as int)
                matches Some((k, IdFault::Reserved)) && x@ == ids_of(entries)[k],
            Err(RecipeError::DuplicateId(x)) => first_id_fault(ids_of(entries), entries.len() as int)
                matches Some((k, IdFault::Duplicate)) && x@ == ids_of(entries)[k],
            Err(RecipeError::UnknownDependency { rhei, dependency }) => {
                &&& first_id_fault(ids_of(entries), entries.len() as int) is None
                &&& first_unknown_dep(entries, entries.len() as int) matches Some((i, j)) && rhei@
                    == ids_of(entries)[i] && dependency@ == deps_of(entries[i])[j]
            },
            Err(RecipeError::Cycle(names)) => {
                &&& first_id_fault(ids_of(entries), entries.len() as int) is None
                &&& first_unknown_dep(entries, entries.len() as int) is None
                &&& first_cycle_walk(recipe_graph(entries), entry_roots(entries)) matches Some(p) && Seq::new(
                    names@.len(),
                    |k: int| names@[k]@,
                ) == walk_names(entries, usize_seq_to_int(p))
                &&& exists|p: Seq<int>|
                    closes_cycle(recipe_graph(entries), p) && Seq::new(
                        names@.len(),
                        |k: int| names@[k]@,
                    ) == walk_names(entries, p)
            },
            Err(_) => false,
        }
}

/// Validate the recipe: ids checked entry by entry (legal, then unreserved,
/// then unique), then every `depends-on` entry by entry, then cycles.
pub fn validate_recipe(entries: &Vec<RecipeEntry>) -> (r: Result<(), RecipeError>)
    ensures
        validate_result(entries@, r),
{
    match check_ids(entries) {
        Ok(()) => {},
        Err(e) => return Err(e),
    }
    match check_dependencies(entries) {
        Ok(()) => {},
        Err(e) => return Err(e),
    }
    detect_recipe_cycle(entries)
}

// ---------------------------------------------------------------------------
// Run order
// ---------------------------------------------------------------------------

/// Every entry once, each after the entries it depends on whenever the recipe
/// has no dependency cycle (a validated recipe has none).
pub fn topological_order(entries: &Vec<RecipeEntry>) -> (order: Vec<usize>)
    ensures
        order@ == dfs_finish_order(recipe_graph(entries@)),
        order@.len() == entries@.len(),
        forall|a: int| 0 <= a < order@.len() ==> (#[trigger] order@[a] as int) < entries@.len(),
        forall|x: usize| (x as int) < entries@.len() ==> #[trigger] order@.contains(x),
        forall|a: int, b: int| 0 <= a < b < order@.len() ==> order@[a] != order@[b],
        !has_cycle(recipe_graph(entries@)) ==> forall|a: int, b: int|
            0 <= a < order@.len() && 0 <= b < order@.len() && #[trigger] edge(
                recipe_graph(entries@),
                order@[a] as int,
                order@[b] as int,
            ) ==> b < a,
{
    let g = build_graph(entries);
    let total = entries.len();
    proof {
        assert(entries@.len() == total);
        lemma_recipe_graph_facts(entries@);
    }
    dependency_order(&g)
}

/// Restrict the run to the named rheis and everything they transitively
/// depend on, in run order. A name that is no entry is refused (the first
/// such name).
pub fn restrict_to_rheis(entries: &Vec<RecipeEntry>, only: &Vec<String>) -> (r: Result<Vec<usize>, RecipeError>)
    ensures
        match r {
            Err(RecipeError::NotAnEntry(name)) => exists|q: int|
                0 <= q < only@.len() && name@ == only@[q]@ && !ids_of(entries@).contains(only@[q]@)
                    && forall|w: int| 0 <= w < q ==> ids_of(entries@).contains(#[trigger] only@[w]@),
            Err(_) => false,
            Ok(v) => {
                &&& forall|q: int| 0 <= q < only@.len() ==> ids_of(entries@).contains(#[trigger] only@[q]@)
                &&& v@ == dfs_finish_order(recipe_graph(entries@)).filter(
                    |x: usize| reachable(recipe_graph(entries@), named_roots(entries@, only@), x as int),
                )
                &&& forall|a: int| 0 <= a < v@.len() ==> (#[trigger] v@[a] as int) < entries@.len()
                &&& forall|a: int, b: int| 0 <= a < b < v@.len() ==> v@[a] != v@[b]
                &&& forall|x: usize| (x as int) < entries@.len() ==> (#[trigger] v@.contains(x)
                    <==> reachable(recipe_graph(entries@), named_roots(entries@, only@), x as int))
                &&& !has_cycle(recipe_graph(entries@)) ==> forall|a: int, b: int|
                    0 <= a < v@.len() && 0 <= b < v@.len() && #[trigger] edge(
                        recipe_graph(entries@),
                        v@[a] as int,
                        v@[b] as int,
                    ) ==> b < a
            },
        },
{
    let ghost ids = ids_of(entries@);
    let g = build_graph(entries);
    let ghost gg = adjacency(g@);
    let total = entries.len();
    proof {
        assert(entries@.len() == total);
        lemma_recipe_graph_facts(entries@);
    }
    let mut roots: Vec<usize> = Vec::new();
    let mut q: usize = 0;
    while q < only.len()
        invariant
            ids == ids_of(entries@),
            q <= only@.len(),
            roots@.len() == q,
            forall|w: int| 0 <= w < q ==> ids.contains(#[trigger] only@[w]@),
            forall|w: int| 0 <= w < q ==> last_index_of(ids, only@[w]@) == Some(#[trigger] roots@[w] as int),
        decreases only@.len() - q,
    {
        match last_index(entries, only[q].as_str()) {
            Some(t) => {
                proof {
                    lemma_last_index_of(ids, only@[q as int]@);
                }
                roots.push(t);
            },
            None => {
                proof {
                    lemma_last_index_of(ids, only@[q as int]@);
                }
                return Err(RecipeError::NotAnEntry(String::from_str(only[q].as_str())));
            },
        }
        q += 1;
    }
    proof {
        assert forall|k: int| 0 <= k < roots@.len() implies (#[trigger] roots@[k] as int) < g@.len() by {
            lemma_last_index_of(ids, only@[k]@);
        }
        assert(roots@ =~= named_roots(entries@, only@));
    }
    let keep = reachable_set(&g, &roots);
    let order = dependency_order(&g);
    let ghost pred = |x: usize| reachable(recipe_graph(entries@), named_roots(entries@, only@), x as int);
    assert(order@.take(0) =~= Seq::<usize>::empty());
    proof {
        reveal(Seq::filter);
    }
    let mut out: Vec<usize> = Vec::new();
    let ghost mut src: Seq<int> = Seq::empty();
    let mut a: usize = 0;
    while a < order.len()
        invariant
            gg == adjacency(g@),
            gg == recipe_graph(entries@),
            keep@.len() == g@.len(),
            order@.len() == g@.len(),
            forall|x: int| 0 <= x < order@.len() ==> (#[trigger] order@[x] as int) < g@.len(),
            forall|x: int, y: int| 0 <= x < y < order@.len() ==> order@[x] != order@[y],
            a <= order@.len(),
            out@.len() == src.len(),
            forall|k: int| 0 <= k < src.len() ==> 0 <= #[trigger] src[k] < a,
            forall|k: int, l: int| 0 <= k < l < src.len() ==> src[k] < src[l],
            forall|k: int| 0 <= k < src.len() ==> out@[k] == order@[#[trigger] src[k]],
            forall|k: int| 0 <= k < src.len() ==> keep@[#[trigger] out@[k] as int],
            forall|x: int| 0 <= x < a && keep@[order@[x] as int] ==> #[trigger] out@.contains(order@[x]),
            ids == ids_of(entries@),
            g@.len() == entries@.len(),
            forall|w: int| 0 <= w < only@.len() ==> ids.contains(#[trigger] only@[w]@),
            roots@ == named_roots(entries@, only@),
            forall|x: int| 0 <= x < g@.len() ==> (#[trigger] keep@[x] <==> reachable(gg, roots@, x)),
            forall|x: usize| (x as int) < g@.len() ==> #[trigger] order@.contains(x),
            !has_cycle(gg) ==> forall|p: int, b: int|
                0 <= p < order@.len() && 0 <= b < order@.len() && #[trigger] edge(gg, order@[p] as int, order@[b] as int) ==> b < p,
            pred == (|x: usize| reachable(recipe_graph(entries@), named_roots(entries@, only@), x as int)),
            out@ == order@.take(a as int).filter(pred),
        decreases order@.len() - a,
    {
        let x = order[a];
        let ghost out0 = out@;
        proof {
            reveal(Seq::filter);
            assert(order@.take(a + 1).drop_last() =~= order@.take(a as int));
            assert(order@.take(a + 1).last() == x);
            assert(keep@[x as int] == pred(x));
        }
        if keep[x] {
            proof {
                src = src.push(a as int);
            }
            out.push(x);
        }
        proof {
            assert(forall|w: int| 0 <= w < out0.len() ==> out@[w] == out0[w]);
            assert forall|y: int| 0 <= y < a + 1 && keep@[order@[y] as int] implies #[trigger] out@.contains(order@[y]) by {
                if y < a {
                    assert(out0.contains(order@[y]));
                    let w = choose|w: int| 0 <= w < out0.len() && out0[w] == order@[y];
                    assert(out@[w] == order@[y]);
                } else {
                    assert(out@[out@.len() - 1] == order@[y]);
                }
            }
        }
        a += 1;
    }
    proof {
        assert forall|p: int, b: int| 0 <= p < b < out@.len() implies out@[p] != out@[b] by {
            assert(out@[p] == order@[src[p]]);
            assert(out@[b] == order@[src[b]]);
        }
        assert forall|x: usize| (x as int) < entries@.len() implies (#[trigger] out@.contains(x)
            <==> reachable(gg, roots@, x as int)) by {
            if out@.contains(x) {
                let k = choose|k: int| 0 <= k < out@.len() && out@[k] == x;
                assert(keep@[out@[k] as int]);
            }
            if reachable(gg, roots@, x as int) {
                assert(keep@[x as int]);
                assert(order@.contains(x));
                let y = choose|y: int| 0 <= y < order@.len() && order@[y] == x;
                assert(out@.contains(order@[y]));
            }
        }
        if !has_cycle(gg) {
            assert forall|p: int, b: int|
                0 <= p < out@.len() && 0 <= b < out@.len() && #[trigger] edge(gg, out@[p] as int, out@[b] as int)
                implies b < p by {
                assert(out@[p] == order@[src[p]]);
                assert(out@[b] == order@[src[b]]);
                assert(src[b] < src[p]);
                if p <= b {
                    if p < b {
                        assert(src[p] < src[b]);
                    }
                }
            }
        }
    }
    proof {
        assert forall|p: int| 0 <= p < out@.len() implies (#[trigger] out@[p] as int) < entries@.len() by {
            assert(out@[p] == order@[src[p]]);
        }
        assert(order@.take(order@.len() as int) =~= order@);
    }
    Ok(out)
}

/// The entries `--rhei` names, by the entry a by-id table resolves them to.
pub open spec fn named_roots(entries: Seq<RecipeEntry>, only: Seq<String>) -> Seq<usize> {
    Seq::new(only.len(), |q: int| last_index_of(ids_of(entries), only[q]@)->0 as usize)
}


// ---------------------------------------------------------------------------
// Adding an entry
// ---------------------------------------------------------------------------

/// What `panta add` checks before writing a new entry, in this order: a legal
/// id, an unreserved id, an id not already in the recipe, and dependencies
/// that are all existing entries (the first one that is not is named).
pub open spec fn new_entry_check(ids: Seq<Seq<char>>, id: Seq<char>, deps: Seq<Seq<char>>) -> Option<(int, int)> {
    if !valid_rhei_id(id) {
        Some((0, 0))
    } else if reserved_id(id) {
        Some((1, 0))
    } else if ids.contains(id) {
        Some((2, 0))
    } else {
        match first_unknown(ids, deps, deps.len() as int) {
            Some(j) => Some((3, j)),
            None => None,
        }
    }
}

pub fn check_new_recipe_entry(entries: &Vec<RecipeEntry>, id: &str, depends_on: &Vec<String>) -> (r: Result<(), RecipeError>)
    ensures
        match r {
            Ok(()) => new_entry_check(ids_of(entries@), id@, Seq::new(depends_on@.len(), |j: int| depends_on@[j]@)) is None,
            Err(RecipeError::InvalidId(x)) => new_entry_check(ids_of(entries@), id@, Seq::new(depends_on@.len(), |j: int| depends_on@[j]@)) == Some((0int, 0int)) && x@ == id@,
            Err(RecipeError::ReservedId(x)) => new_entry_check(ids_of(entries@), id@, Seq::new(depends_on@.len(), |j: int| depends_on@[j]@)) == Some((1int, 0int)) && x@ == id@,
            Err(RecipeError::AlreadyExists(x)) => new_entry_check(ids_of(entries@), id@, Seq::new(depends_on@.len(), |j: int| depends_on@[j]@)) == Some((2int, 0int)) && x@ == id@,
            Err(RecipeError::UnknownDependsOn(d)) => new_entry_check(ids_of(entries@), id@, Seq::new(depends_on@.len(), |j: int| depends_on@[j]@)) matches Some((c, j)) && c == 3 && d@ == depends_on@[j]@,
            Err(_) => false,
        },
{
    let ghost ids = ids_of(entries@);
    let ghost dv = Seq::new(depends_on@.len(), |j: int| depends_on@[j]@);
    if !is_valid_rhei_id(id) {
        return Err(RecipeError::InvalidId(String::from_str(id)));
    }
    if is_reserved_id(id) {
        return Err(RecipeError::ReservedId(String::from_str(id)));
    }
    let n = entries.len();
    if contains_id(entries, n, id) {
        assert(ids.take(n as int) =~= ids);
        return Err(RecipeError::AlreadyExists(String::from_str(id)));
    }
    assert(ids.take(n as int) =~= ids);
    let mut j: usize = 0;
    while j < depends_on.len()
        invariant
            n == entries@.len(),
            ids == ids_of(entries@),
            dv == Seq::new(depends_on@.len(), |j: int| depends_on@[j]@),
            j <= depends_on@.len(),
            first_unknown(ids, dv, j as int) is None,
            valid_rhei_id(id@),
            !reserved_id(id@),
            !ids.contains(id@),
        decreases depends_on@.len() - j,
    {
        let dep = depends_on[j].as_str();
        assert(dv[j as int] == dep@);
        if !contains_id(entries, n, dep) {
            proof {
                assert(ids.take(n as int) =~= ids);
                lemma_first_unknown_extends(ids, dv, j as int, dv.len() as int);
            }
            return Err(RecipeError::UnknownDependsOn(String::from_str(dep)));
        }
        proof {
            assert(ids.take(n as int) =~= ids);
        }
        j += 1;
    }
    Ok(())
}

// ---------------------------------------------------------------------------
// Inputs
// ---------------------------------------------------------------------------

/// The first `=` in `s`.
pub open spec fn first_index(s: Seq<char>, c: char) -> Option<int>
    decreases s.len(),
{
    if s.len() == 0 {
        None
    } else {
        match first_index(s.drop_last(), c) {
            Some(i) => Some(i),
            None => if s.last() == c {
                Some(s.len() - 1)
            } else {
                None
            },
        }
    }
}

proof fn lemma_first_index(s: Seq<char>, c: char)
    ensures
        match first_index(s, c) {
            Some(i) => 0 <= i < s.len() && s[i] == c && forall|j: int| 0 <= j < i ==> s[j] != c,
            None => forall|j: int| 0 <= j < s.len() ==> s[j] != c,
        },
    decreases s.len(),
{
    if s.len() > 0 {
        lemma_first_index(s.drop_last(), c);
        match first_index(s.drop_last(), c) {
            Some(i) => {
                assert forall|j: int| 0 <= j < i implies s[j] != c by {
                    assert(s[j] == s.drop_last()[j]);
                }
            },
            None => {
                assert forall|j: int| 0 <= j < s.len() - 1 implies s[j] != c by {
                    assert(s[j] == s.drop_last()[j]);
                }
            },
        }
    }
}

proof fn lemma_first_index_is(s: Seq<char>, c: char, i: int)
    requires
        0 <= i < s.len(),
        s[i] == c,
        forall|j: int| 0 <= j < i ==> s[j] != c,
    ensures
        first_index(s, c) == Some(i),
{
    lemma_first_index(s, c);
}

/// The first index of `c` in `v`.
pub fn find_char(v: &Vec<char>, c: char) -> (r: Option<usize>)
    ensures
        match r {
            Some(i) => first_index(v@, c) == Some(i as int) && (i as int) < v@.len(),
            None => first_index(v@, c) == None::<int>,
        },
{
    let mut i: usize = 0;
    while i < v.len()
        invariant
            i <= v@.len(),
            forall|j: int| 0 <= j < i ==> v@[j] != c,
        decreases v@.len() - i,
    {
        if v[i] == c {
            proof {
                lemma_first_index_is(v@, c, i as int);
            }
            return Some(i);
        }
        i += 1;
    }
    proof {
        lemma_first_index(v@, c);
        if let Some(q) = first_index(v@, c) {
            assert(v@[q] == c);
        }
    }
    None
}

/// `--set KEY=VALUE` values as a mapping, later keys replacing earlier ones;
/// `Err(k)` names the first value without `=`.
pub open spec fn set_values_spec(raws: Seq<Seq<char>>) -> Result<crate::yaml::Entries, int>
    decreases raws.len(),
{
    if raws.len() == 0 {
        Ok(Seq::empty())
    } else {
        match set_values_spec(raws.drop_last()) {
            Err(k) => Err(k),
            Ok(m) => {
                let raw = raws.last();
                match first_index(raw, '=') {
                    None => Err(raws.len() - 1),
                    Some(i) => Ok(
                        crate::yaml::insert(
                            m,
                            crate::yaml::YamlView::Str(raw.take(i)),
                            crate::yaml::YamlView::Str(raw.skip(i + 1)),
                        ),
                    ),
                }
            },
        }
    }
}

/// Parse `--set KEY=VALUE` arguments.
pub fn parse_set_values(set_values: &Vec<String>) -> (r: Result<Vec<(Yaml, Yaml)>, String>)
    ensures
        match r {
            Ok(m) => set_values_spec(Seq::new(set_values@.len(), |q: int| set_values@[q]@)) == Ok::<crate::yaml::Entries, int>(crate::yaml::deep_entries(m@)),
            Err(raw) => set_values_spec(Seq::new(set_values@.len(), |q: int| set_values@[q]@)) matches Err(k) && raw@ == set_values@[k]@,
        },
{
    let ghost raws = Seq::new(set_values@.len(), |q: int| set_values@[q]@);
    let mut mapping: Vec<(Yaml, Yaml)> = Vec::new();
    assert(crate::yaml::deep_entries(mapping@) =~= Seq::<(crate::yaml::YamlView, crate::yaml::YamlView)>::empty());
    let mut q: usize = 0;
    while q < set_values.len()
        invariant
            raws == Seq::new(set_values@.len(), |q: int| set_values@[q]@),
            q <= set_values@.len(),
            set_values_spec(raws.take(q as int)) == Ok::<crate::yaml::Entries, int>(crate::yaml::deep_entries(mapping@)),
        decreases set_values@.len() - q,
    {
        let raw = set_values[q].as_str();
        let v = chars_of(raw);
        assert(raws.take(q + 1).drop_last() =~= raws.take(q as int));
        assert(raws.take(q + 1).last() == raw@);
        match find_char(&v, '=') {
            None => {
                proof {
                    lemma_set_values_err_extends(raws, q as int, raws.len() as int);
                    assert(raws.take(raws.len() as int) =~= raws);
                }
                return Err(String::from_str(raw));
            },
            Some(i) => {
                let n = v.len();
                assert(i < n);
                let key = crate::text::string_of_range(&v, 0, i);
                let value = crate::text::string_of_range(&v, i + 1, n);
                assert(v@.subrange(0, i as int) =~= raw@.take(i as int));
                assert(v@.subrange(i + 1, v@.len() as int) =~= raw@.skip(i + 1));
                crate::yaml::insert_entry(&mut mapping, Yaml::Str(key), Yaml::Str(value));
            },
        }
        q += 1;
    }
    assert(raws.take(raws.len() as int) =~= raws);
    Ok(mapping)
}

proof fn lemma_set_values_err_extends(raws: Seq<Seq<char>>, q: int, n: int)
    requires
        0 <= q < n <= raws.len(),
        set_values_spec(raws.take(q)) is Ok,
        first_index(raws[q], '=') is None,
    ensures
        set_values_spec(raws.take(n)) == Err::<crate::yaml::Entries, int>(q),
    decreases n - q,
{
    if n == q + 1 {
        assert(raws.take(n).drop_last() =~= raws.take(q));
    } else {
        lemma_set_values_err_extends(raws, q, n - 1);
        assert(raws.take(n).drop_last() =~= raws.take(n - 1));
    }
}

/// The text of a YAML number: an integer in decimal (negative with a `-`),
/// The key of a `--set KEY=VALUE` value: what stands before its first `=`.
pub open spec fn set_key(raw: Seq<char>) -> Seq<char> {
    raw.take(first_index(raw, '=')->0)
}

/// The value of a `--set KEY=VALUE` value: what follows its first `=`.
pub open spec fn set_value(raw: Seq<char>) -> Seq<char> {
    raw.skip(first_index(raw, '=')->0 + 1)
}

proof fn lemma_set_values_distinct(raws: Seq<Seq<char>>)
    requires
        forall|q: int| 0 <= q < raws.len() ==> first_index(#[trigger] raws[q], '=') is Some,
        forall|p: int, q: int| 0 <= p < q < raws.len() ==> set_key(raws[p]) != set_key(raws[q]),
    ensures
        set_values_spec(raws) == Ok::<crate::yaml::Entries, int>(
            Seq::new(
                raws.len(),
                |q: int|
                    (crate::yaml::YamlView::Str(set_key(raws[q])), crate::yaml::YamlView::Str(set_value(raws[q]))),
            ),
        ),
    decreases raws.len(),
{
    if raws.len() == 0 {
        assert(Seq::new(
            raws.len(),
            |q: int|
                (crate::yaml::YamlView::Str(set_key(raws[q])), crate::yaml::YamlView::Str(set_value(raws[q]))),
        ) =~= Seq::<(crate::yaml::YamlView, crate::yaml::YamlView)>::empty());
        assert(raws =~= Seq::<Seq<char>>::empty());
    } else {
        let t = raws.drop_last();
        assert forall|q: int| 0 <= q < t.len() implies first_index(#[trigger] t[q], '=') is Some by {
            assert(t[q] == raws[q]);
        }
        assert forall|p: int, q: int| 0 <= p < q < t.len() implies set_key(t[p]) != set_key(t[q]) by {
            assert(t[p] == raws[p]);
            assert(t[q] == raws[q]);
        }
        lemma_set_values_distinct(t);
        let m = Seq::new(
            t.len(),
            |q: int| (crate::yaml::YamlView::Str(set_key(t[q])), crate::yaml::YamlView::Str(set_value(t[q]))),
        );
        let raw = raws.last();
        assert(first_index(raws[raws.len() - 1], '=') is Some);
        let k = crate::yaml::YamlView::Str(set_key(raw));
        assert forall|j: int| 0 <= j < m.len() implies m[j].0 != k by {
            assert(t[j] == raws[j]);
            assert(set_key(raws[j]) != set_key(raws[raws.len() - 1]));
        }
        crate::yaml::lemma_find_none(m, k);
        lemma_first_index(raw, '=');
        assert(set_values_spec(t) == Ok::<crate::yaml::Entries, int>(m));
        assert(raws.drop_last() == t);
        assert(set_values_spec(raws) == Ok::<crate::yaml::Entries, int>(
            crate::yaml::insert(m, k, crate::yaml::YamlView::Str(set_value(raw))),
        ));
        assert(m.push((k, crate::yaml::YamlView::Str(set_value(raw)))) =~= Seq::new(
            raws.len(),
            |q: int|
                (crate::yaml::YamlView::Str(set_key(raws[q])), crate::yaml::YamlView::Str(set_value(raws[q]))),
        ));
    }
}

proof fn lemma_set_args_of_strings(raws: Seq<Seq<char>>)
    requires
        forall|q: int| 0 <= q < raws.len() ==> first_index(#[trigger] raws[q], '=') is Some,
    ensures
        set_args_spec(
            Seq::new(
                raws.len(),
                |q: int|
                    (crate::yaml::YamlView::Str(set_key(raws[q])), crate::yaml::YamlView::Str(set_value(raws[q]))),
            ),
        ) == Ok::<Seq<Seq<char>>, (int, bool)>(raws),
    decreases raws.len(),
{
    if raws.len() == 0 {
        assert(Seq::new(
            raws.len(),
            |q: int|
                (crate::yaml::YamlView::Str(set_key(raws[q])), crate::yaml::YamlView::Str(set_value(raws[q]))),
        ) =~= Seq::<(crate::yaml::YamlView, crate::yaml::YamlView)>::empty());
        assert(raws =~= Seq::<Seq<char>>::empty());
    } else {
        let t = raws.drop_last();
        assert forall|q: int| 0 <= q < t.len() implies first_index(#[trigger] t[q], '=') is Some by {
            assert(t[q] == raws[q]);
        }
        lemma_set_args_of_strings(t);
        let e = Seq::new(
            raws.len(),
            |q: int|
                (crate::yaml::YamlView::Str(set_key(raws[q])), crate::yaml::YamlView::Str(set_value(raws[q]))),
        );
        assert(e.drop_last() =~= Seq::new(
            t.len(),
            |q: int| (crate::yaml::YamlView::Str(set_key(t[q])), crate::yaml::YamlView::Str(set_value(t[q]))),
        ));
        let raw = raws.last();
        assert(first_index(raws[raws.len() - 1], '=') is Some);
        lemma_first_index(raw, '=');
        let i = first_index(raw, '=')->0;
        assert(set_key(raw) + seq!['='] + set_value(raw) =~= raw);
        assert(t.push(raw) =~= raws);
    }
}

/// Passing `--set` values through a recipe entry gives them back: values
/// that each hold `=`, with no key given twice, parse into inputs that render
/// as the same values in the same order.
pub proof fn lemma_set_values_round_trip(raws: Seq<Seq<char>>)
    requires
        forall|q: int| 0 <= q < raws.len() ==> first_index(#[trigger] raws[q], '=') is Some,
        forall|p: int, q: int| 0 <= p < q < raws.len() ==> set_key(raws[p]) != set_key(raws[q]),
    ensures
        set_values_spec(raws) matches Ok(m) && set_args_spec(m) == Ok::<Seq<Seq<char>>, (int, bool)>(raws),
{
    lemma_set_values_distinct(raws);
    lemma_set_args_of_strings(raws);
}

/// a float as it was written.
pub open spec fn number_text(v: crate::yaml::YamlView) -> Option<Seq<char>> {
    match v {
        crate::yaml::YamlView::PosInt(n) => Some(crate::text::decimal(n as nat)),
        crate::yaml::YamlView::NegInt(n) => Some(
            if n < 0 {
                seq!['-'] + crate::text::decimal((-n) as nat)
            } else {
                crate::text::decimal(n as nat)
            },
        ),
        crate::yaml::YamlView::Float(t) => Some(t),
        _ => None,
    }
}

/// How a recipe input value is passed on: a string as is, a boolean as
/// `true`/`false`, a number as its text; anything else is not a scalar.
pub open spec fn scalar_text(v: crate::yaml::YamlView) -> Option<Seq<char>> {
    match v {
        crate::yaml::YamlView::Str(s) => Some(s),
        crate::yaml::YamlView::Bool(b) => Some(if b { "true"@ } else { "false"@ }),
        _ => number_text(v),
    }
}

/// Why a recipe entry's `inputs:` cannot be passed on.
#[derive(Debug, PartialEq)]
pub enum InputError {
    NonStringKey { rhei: String },
    NonScalar { rhei: String, key: String },
}

/// `inputs:` rendered as `key=value` arguments, in mapping order; the first
/// key that is not a string or value that is not a scalar is refused.
pub open spec fn set_args_spec(inputs: crate::yaml::Entries) -> Result<Seq<Seq<char>>, (int, bool)>
    decreases inputs.len(),
{
    if inputs.len() == 0 {
        Ok(Seq::empty())
    } else {
        match set_args_spec(inputs.drop_last()) {
            Err(e) => Err(e),
            Ok(out) => {
                let (k, v) = inputs.last();
                match crate::yaml::as_str(k) {
                    None => Err((inputs.len() - 1, false)),
                    Some(key) => match scalar_text(v) {
                        None => Err((inputs.len() - 1, true)),
                        Some(t) => Ok(out.push(key + seq!['='] + t)),
                    },
                }
            },
        }
    }
}

pub(crate) fn number_to_text(v: &Yaml) -> (r: Option<String>)
    ensures
        match r {
            Some(t) => number_text(v.deep()) == Some(t@),
            None => number_text(v.deep()) == None::<Seq<char>>,
        },
{
    match v {
        Yaml::PosInt(n) => Some(crate::text::u64_to_string(*n)),
        Yaml::NegInt(n) => {
            if *n < 0 {
                let m: u64 = if *n == i64::MIN {
                    9223372036854775808u64
                } else {
                    (-*n) as u64
                };
                let mut s = String::new();
                crate::text::push_char(&mut s, '-');
                let d = crate::text::u64_to_string(m);
                s.append(d.as_str());
                Some(s)
            } else {
                Some(crate::text::u64_to_string(*n as u64))
            }
        },
        Yaml::Float(t) => Some(String::from_str(t.as_str())),
        _ => None,
    }
}

/// `inputs:` of a recipe entry as `key=value` arguments for instantiation.
pub fn inputs_to_set_values(entry: &RecipeEntry) -> (r: Result<Vec<String>, InputError>)
    ensures
        match r {
            Ok(out) => set_args_spec(crate::yaml::deep_entries(entry.inputs@)) == Ok::<Seq<Seq<char>>, (int, bool)>(Seq::new(out@.len(), |q: int| out@[q]@)),
            Err(InputError::NonStringKey { rhei }) => set_args_spec(crate::yaml::deep_entries(entry.inputs@)) matches Err((_, false)) && rhei@ == entry.id@,
            Err(InputError::NonScalar { rhei, key }) => set_args_spec(crate::yaml::deep_entries(entry.inputs@)) matches Err((k, true)) && rhei@ == entry.id@ && crate::yaml::as_str(crate::yaml::deep_entries(entry.inputs@)[k].0) == Some(key@),
        },
{
    let ghost d = crate::yaml::deep_entries(entry.inputs@);
    let mut out: Vec<String> = Vec::new();
    assert(d.take(0) =~= Seq::<(crate::yaml::YamlView, crate::yaml::YamlView)>::empty());
    assert(Seq::new(out@.len(), |q: int| out@[q]@) =~= Seq::<Seq<char>>::empty());
    let mut i: usize = 0;
    while i < entry.inputs.len()
        invariant
            d == crate::yaml::deep_entries(entry.inputs@),
            i <= entry.inputs@.len(),
            set_args_spec(d.take(i as int)) == Ok::<Seq<Seq<char>>, (int, bool)>(Seq::new(out@.len(), |q: int| out@[q]@)),
        decreases entry.inputs@.len() - i,
    {
        let (k, v) = (&entry.inputs[i].0, &entry.inputs[i].1);
        assert(d.take(i + 1).drop_last() =~= d.take(i as int));
        assert(d.take(i + 1).last() == (k.deep(), v.deep()));
        let key = match crate::yaml::str_of(k) {
            Some(key) => key,
            None => {
                proof {
                    lemma_set_args_err_extends(d, i as int, d.len() as int);
                    assert(d.take(d.len() as int) =~= d);
                }
                return Err(InputError::NonStringKey { rhei: String::from_str(entry.id.as_str()) });
            },
        };
        let rendered = match v {
            Yaml::Str(s) => String::from_str(s.as_str()),
            Yaml::Bool(b) => if *b {
                String::from_str("true")
            } else {
                String::from_str("false")
            },
            _ => match number_to_text(v) {
                Some(t) => t,
                None => {
                    proof {
                        assert(scalar_text(v.deep()) == None::<Seq<char>>);
                        lemma_set_args_err_extends(d, i as int, d.len() as int);
                        assert(d.take(d.len() as int) =~= d);
                    }
                    return Err(
                        InputError::NonScalar {
                            rhei: String::from_str(entry.id.as_str()),
                            key: String::from_str(key.as_str()),
                        },
                    );
                },
            },
        };
        assert(scalar_text(v.deep()) == Some(rendered@));
        let mut line = String::from_str(key.as_str());
        assert(line@ == key@);
        crate::text::push_char(&mut line, '=');
        assert(line@ == key@ + seq!['=']);
        line.append(rendered.as_str());
        assert(line@ == key@ + seq!['='] + rendered@);
        let ghost before = Seq::new(out@.len(), |q: int| out@[q]@);
        let ghost expected = key@ + seq!['='] + rendered@;
        out.push(line);
        assert(out@[out@.len() - 1]@ == expected);
        assert(Seq::new(out@.len(), |q: int| out@[q]@) =~= before.push(expected));
        i += 1;
    }
    assert(d.take(d.len() as int) =~= d);
    Ok(out)
}

proof fn lemma_set_args_err_extends(d: crate::yaml::Entries, i: int, n: int)
    requires
        0 <= i < n <= d.len(),
        set_args_spec(d.take(i)) is Ok,
        set_args_spec(d.take(i + 1)) is Err,
    ensures
        set_args_spec(d.take(n)) == set_args_spec(d.take(i + 1)),
        set_args_spec(d.take(i + 1))->Err_0.0 == i,
    decreases n - i,
{
    assert(d.take(i + 1).drop_last() =~= d.take(i));
    if n > i + 1 {
        lemma_set_args_err_extends(d, i, n - 1);
        assert(d.take(n).drop_last() =~= d.take(n - 1));
    }
}

// ---------------------------------------------------------------------------
// Run directories
// ---------------------------------------------------------------------------

/// The run number in a `panta-<n>` directory name.
pub open spec fn run_number(name: Seq<char>) -> Option<u64> {
    if crate::text::has_prefix(name, "panta-"@) {
        crate::text::parse_u64_spec(name.skip(6))
    } else {
        None
    }
}

/// The highest run number among the first `k` names, 0 when there is none.
pub open spec fn highest_run(names: Seq<Seq<char>>, k: int) -> u64
    decreases k,
{
    if k <= 0 {
        0
    } else {
        let h = highest_run(names, k - 1);
        match run_number(names[k - 1]) {
            Some(n) => if n > h {
                n
            } else {
                h
            },
            None => h,
        }
    }
}

/// The number of the next `runtime/panta-<n>/` directory: one more than the
/// highest existing one.
pub fn next_run_number(names: &Vec<String>) -> (r: u64)
    requires
        highest_run(Seq::new(names@.len(), |q: int| names@[q]@), names@.len() as int) < u64::MAX,
    ensures
        r == highest_run(Seq::new(names@.len(), |q: int| names@[q]@), names@.len() as int) + 1,
{
    let ghost nv = Seq::new(names@.len(), |q: int| names@[q]@);
    let prefix = chars_of("panta-");
    proof {
        reveal_strlit("panta-");
    }
    let mut max_n: u64 = 0;
    let mut i: usize = 0;
    while i < names.len()
        invariant
            nv == Seq::new(names@.len(), |q: int| names@[q]@),
            prefix@ == "panta-"@,
            prefix@.len() == 6,
            i <= names@.len(),
            max_n == highest_run(nv, i as int),
        decreases names@.len() - i,
    {
        let v = chars_of(names[i].as_str());
        assert(nv[i as int] == v@);
        if crate::text::starts_with(v.as_slice(), prefix.as_slice()) {
            let rest = crate::text::slice_vec(&v, 6, v.len());
            assert(rest@ =~= v@.skip(6));
            match crate::text::parse_u64(rest.as_slice()) {
                Some(n) => {
                    if n > max_n {
                        max_n = n;
                    }
                },
                None => {},
            }
        }
        i += 1;
    }
    max_n + 1
}


/// How a recipe error reads; `manifest` is the manifest's path as
/// displayed, which only the `rheis:` error names.
pub open spec fn recipe_error_spec(e: RecipeError, manifest: Seq<char>) -> Seq<char> {
    match e {
        RecipeError::InvalidId(id) => "invalid rhei id '"@ + id@
            + "': must start with a letter and contain only letters, digits, '-' or '_'"@,
        RecipeError::ReservedId(id) => "rhei id '"@ + id@ + "' is reserved and cannot be used"@,
        RecipeError::DuplicateId(id) => "duplicate rhei id '"@ + id@ + "' in the recipe"@,
        RecipeError::UnknownDependency { rhei, dependency } => "rhei '"@ + rhei@ + "' depends-on '"@ + dependency@
            + "', which is not a recipe entry"@,
        RecipeError::Cycle(walk) => "rhei dependency cycle: "@ + crate::text::join(
            walk@.map_values(|p: String| p@),
            " -> "@,
        ),
        RecipeError::NotAnEntry(id) => "--rhei '"@ + id@ + "' is not a recipe entry"@,
        RecipeError::AlreadyExists(id) => "rhei id '"@ + id@ + "' already exists in the recipe"@,
        RecipeError::UnknownDependsOn(id) => "--depends-on '"@ + id@ + "' is not an existing recipe entry"@,
        RecipeError::RheisNotList => "`rheis:` in '"@ + manifest + "' is not a list"@,
        RecipeError::FrontmatterUnparsable(why) => "failed to parse frontmatter of '"@ + manifest + "': "@ + why@,
        RecipeError::FrontmatterUnwritable(why) => "failed to serialize recipe frontmatter: "@ + why@,
    }
}

impl RecipeError {
    /// The message the error is reported with.
    pub fn message(&self, manifest: &str) -> (r: String)
        ensures
            r@ == recipe_error_spec(*self, manifest@),
    {
        let mut m = String::new();
        match self {
            RecipeError::InvalidId(id) => {
                crate::text::push_str(&mut m, "invalid rhei id '");
                crate::text::push_str(&mut m, id.as_str());
                crate::text::push_str(
                    &mut m,
                    "': must start with a letter and contain only letters, digits, '-' or '_'",
                );
            },
            RecipeError::ReservedId(id) => {
                crate::text::push_str(&mut m, "rhei id '");
                crate::text::push_str(&mut m, id.as_str());
                crate::text::push_str(&mut m, "' is reserved and cannot be used");
            },
            RecipeError::DuplicateId(id) => {
                crate::text::push_str(&mut m, "duplicate rhei id '");
                crate::text::push_str(&mut m, id.as_str());
                crate::text::push_str(&mut m, "' in the recipe");
            },
            RecipeError::UnknownDependency { rhei, dependency } => {
                crate::text::push_str(&mut m, "rhei '");
                crate::text::push_str(&mut m, rhei.as_str());
                crate::text::push_str(&mut m, "' depends-on '");
                crate::text::push_str(&mut m, dependency.as_str());
                crate::text::push_str(&mut m, "', which is not a recipe entry");
            },
            RecipeError::Cycle(walk) => {
                crate::text::push_str(&mut m, "rhei dependency cycle: ");
                let joined = crate::text::join_strings(walk, " -> ");
                crate::text::push_str(&mut m, joined.as_str());
            },
            RecipeError::NotAnEntry(id) => {
                crate::text::push_str(&mut m, "--rhei '");
                crate::text::push_str(&mut m, id.as_str());
                crate::text::push_str(&mut m, "' is not a recipe entry");
            },
            RecipeError::AlreadyExists(id) => {
                crate::text::push_str(&mut m, "rhei id '");
                crate::text::push_str(&mut m, id.as_str());
                crate::text::push_str(&mut m, "' already exists in the recipe");
            },
            RecipeError::UnknownDependsOn(id) => {
                crate::text::push_str(&mut m, "--depends-on '");
                crate::text::push_str(&mut m, id.as_str());
                crate::text::push_str(&mut m, "' is not an existing recipe entry");
            },
            RecipeError::RheisNotList => {
                crate::text::push_str(&mut m, "`rheis:` in '");
                crate::text::push_str(&mut m, manifest);
                crate::text::push_str(&mut m, "' is not a list");
            },
            RecipeError::FrontmatterUnparsable(why) => {
                crate::text::push_str(&mut m, "failed to parse frontmatter of '");
                crate::text::push_str(&mut m, manifest);
                crate::text::push_str(&mut m, "': ");
                crate::text::push_str(&mut m, why.as_str());
            },
            RecipeError::FrontmatterUnwritable(why) => {
                crate::text::push_str(&mut m, "failed to serialize recipe frontmatter: ");
                crate::text::push_str(&mut m, why.as_str());
            },
        }
        m
    }
}

// ---------------------------------------------------------------------------
// `panta add`
// ---------------------------------------------------------------------------

/// `--set` values parse into a well-formed mapping of strings.
pub proof fn lemma_set_values_wf(raws: Seq<Seq<char>>)
    ensures
        set_values_spec(raws) matches Ok(m) ==> entries_wf(m),
    decreases raws.len(),
{
    if raws.len() > 0 {
        lemma_set_values_wf(raws.drop_last());
        if let Ok(m) = set_values_spec(raws.drop_last()) {
            let raw = raws.last();
            if let Some(i) = first_index(raw, '=') {
                lemma_insert_wf(
                    m,
                    crate::yaml::YamlView::Str(raw.take(i)),
                    crate::yaml::YamlView::Str(raw.skip(i + 1)),
                );
            }
        }
    } else {
        assert(entries_wf(Seq::empty()));
    }
}

/// Why `panta add` refuses an entry, by the step that refused it.
#[derive(Debug, PartialEq)]
pub enum RecipeAddError {
    /// The new entry's id or `--depends-on` is refused.
    Entry(RecipeError),
    /// Its template does not resolve: why.
    Template(String),
    /// A `--set` value without `=`.
    SetValue(String),
    /// The recipe with the entry added is not valid.
    Recipe(RecipeError),
}

/// The error `check_new_recipe_entry` gives, as its contract states it.
pub open spec fn new_entry_error(ids: Seq<Seq<char>>, id: Seq<char>, deps: Seq<String>, x: RecipeError) -> bool {
    let dv = Seq::new(deps.len(), |j: int| deps[j]@);
    match x {
        RecipeError::InvalidId(y) => new_entry_check(ids, id, dv) == Some((0int, 0int)) && y@ == id,
        RecipeError::ReservedId(y) => new_entry_check(ids, id, dv) == Some((1int, 0int)) && y@ == id,
        RecipeError::AlreadyExists(y) => new_entry_check(ids, id, dv) == Some((2int, 0int)) && y@ == id,
        RecipeError::UnknownDependsOn(d) => new_entry_check(ids, id, dv) matches Some((c, j)) && c == 3 && d@
            == deps[j]@,
        _ => false,
    }
}

/// `all` is `entries` with one more entry, made of this id, template,
/// dependencies and inputs.
pub open spec fn added_entry(
    all: Seq<RecipeEntry>,
    entries: Seq<RecipeEntry>,
    id: Seq<char>,
    template: Seq<char>,
    deps: Seq<String>,
    inputs: crate::yaml::Entries,
) -> bool {
    &&& all.len() == entries.len() + 1
    &&& all.take(entries.len() as int) == entries
    &&& all.last().id@ == id
    &&& all.last().template@ == template
    &&& Seq::new(all.last().depends_on@.len(), |j: int| all.last().depends_on@[j]@) == Seq::new(
        deps.len(),
        |j: int| deps[j]@,
    )
    &&& crate::yaml::deep_entries(all.last().inputs@) == inputs
}

fn copy_string_vec(v: &Vec<String>) -> (r: Vec<String>)
    ensures
        Seq::new(r@.len(), |j: int| r@[j]@) == Seq::new(v@.len(), |j: int| v@[j]@),
{
    let mut out: Vec<String> = Vec::new();
    let mut k: usize = 0;
    while k < v.len()
        invariant
            k <= v@.len(),
            out@.len() == k,
            forall|j: int| 0 <= j < k ==> (#[trigger] out@[j])@ == v@[j]@,
        decreases v@.len() - k,
    {
        out.push(String::from_str(v[k].as_str()));
        k += 1;
    }
    assert(Seq::new(out@.len(), |j: int| out@[j]@) =~= Seq::new(v@.len(), |j: int| v@[j]@));
    out
}

/// The recipe `panta add` would write, checked in the order it checks: the
/// new id and its dependencies, then its template (`template_check`, what
/// resolving it gave), then the `--set` values, then the whole recipe with
/// the entry appended. Gives the recipe with the entry last.
pub fn prepare_recipe_add(
    entries: Vec<RecipeEntry>,
    id: &str,
    template: &str,
    set_values: &Vec<String>,
    depends_on: &Vec<String>,
    template_check: &Result<(), String>,
) -> (r: Result<Vec<RecipeEntry>, RecipeAddError>)
    ensures
        match r {
            Err(RecipeAddError::Entry(x)) => new_entry_error(ids_of(entries@), id@, depends_on@, x),
            Err(RecipeAddError::Template(m)) => {
                &&& new_entry_check(ids_of(entries@), id@, Seq::new(depends_on@.len(), |j: int| depends_on@[j]@)) is None
                &&& template_check matches Err(t) && t@ == m@
            },
            Err(RecipeAddError::SetValue(raw)) => {
                &&& new_entry_check(ids_of(entries@), id@, Seq::new(depends_on@.len(), |j: int| depends_on@[j]@)) is None
                &&& template_check is Ok
                &&& set_values_spec(Seq::new(set_values@.len(), |q: int| set_values@[q]@)) matches Err(k) && raw@
                    == set_values@[k]@
            },
            Err(RecipeAddError::Recipe(x)) => {
                &&& new_entry_check(ids_of(entries@), id@, Seq::new(depends_on@.len(), |j: int| depends_on@[j]@)) is None
                &&& template_check is Ok
                &&& set_values_spec(Seq::new(set_values@.len(), |q: int| set_values@[q]@)) matches Ok(m) && exists|
                    all: Seq<RecipeEntry>,
                | #[trigger] added_entry(all, entries@, id@, template@, depends_on@, m) && validate_result(all, Err(x))
            },
            Ok(all) => {
                &&& new_entry_check(ids_of(entries@), id@, Seq::new(depends_on@.len(), |j: int| depends_on@[j]@)) is None
                &&& template_check is Ok
                &&& set_values_spec(Seq::new(set_values@.len(), |q: int| set_values@[q]@)) == Ok::<
                    crate::yaml::Entries,
                    int,
                >(crate::yaml::deep_entries(all@.last().inputs@))
                &&& added_entry(all@, entries@, id@, template@, depends_on@, crate::yaml::deep_entries(all@.last().inputs@))
                &&& validate_result(all@, Ok(()))
                &&& entries_wf(crate::yaml::deep_entries(all@.last().inputs@))
            },
        },
{
    match check_new_recipe_entry(&entries, id, depends_on) {
        Ok(()) => {},
        Err(e) => {
            return Err(RecipeAddError::Entry(e));
        },
    }
    match template_check {
        Ok(()) => {},
        Err(m) => {
            return Err(RecipeAddError::Template(String::from_str(m.as_str())));
        },
    }
    let inputs = match parse_set_values(set_values) {
        Ok(m) => m,
        Err(raw) => {
            return Err(RecipeAddError::SetValue(raw));
        },
    };
    proof {
        lemma_set_values_wf(Seq::new(set_values@.len(), |q: int| set_values@[q]@));
    }
    let e = RecipeEntry {
        id: String::from_str(id),
        template: String::from_str(template),
        inputs,
        depends_on: copy_string_vec(depends_on),
    };
    let ghost before = entries@;
    let mut all = entries;
    all.push(e);
    proof {
        assert(all@.take(before.len() as int) =~= before);
        assert(added_entry(
            all@,
            before,
            id@,
            template@,
            depends_on@,
            crate::yaml::deep_entries(all@.last().inputs@),
        ));
    }
    match validate_recipe(&all) {
        Ok(()) => Ok(all),
        Err(x) => Err(RecipeAddError::Recipe(x)),
    }
}

/// The message a refused `panta add` is reported with.
pub open spec fn add_error_spec(e: RecipeAddError, manifest: Seq<char>) -> Seq<char> {
    match e {
        RecipeAddError::Entry(x) => recipe_error_spec(x, manifest),
        RecipeAddError::Template(m) => m@,
        RecipeAddError::SetValue(raw) => "--set expects KEY=VALUE, got '"@ + raw@ + "'"@,
        RecipeAddError::Recipe(x) => recipe_error_spec(x, manifest),
    }
}

impl RecipeAddError {
    /// The message the refusal is reported with.
    pub fn message(&self, manifest: &str) -> (r: String)
        ensures
            r@ == add_error_spec(*self, manifest@),
    {
        match self {
            RecipeAddError::Entry(x) => x.message(manifest),
            RecipeAddError::Template(m) => String::from_str(m.as_str()),
            RecipeAddError::SetValue(raw) => {
                let mut m = String::from_str("--set expects KEY=VALUE, got '");
                crate::text::push_str(&mut m, raw.as_str());
                crate::text::push_str(&mut m, "'");
                m
            },
            RecipeAddError::Recipe(x) => x.message(manifest),
        }
    }
}

/// What `panta add` reports once the entry is written.
pub open spec fn add_report_spec(id: Seq<char>, manifest: Seq<char>, template: Seq<char>, deps: Seq<Seq<char>>) -> Seq<
    Seq<char>,
> {
    seq![
        "Added rhei '"@ + id + "' to the recipe at '"@ + manifest + "'."@,
        if deps.len() == 0 {
            "  template: "@ + template + "  (no dependencies)"@
        } else {
            "  template: "@ + template + "  depends-on: "@ + crate::text::join(deps, ", "@)
        },
        Seq::empty(),
        "Run the project with:"@,
        "  rhei panta"@,
    ]
}

/// The lines `panta add` reports for a new entry.
pub fn panta_add_report(id: &str, manifest: &str, template: &str, depends_on: &Vec<String>) -> (r: Vec<String>)
    ensures
        Seq::new(r@.len(), |j: int| r@[j]@) == add_report_spec(
            id@,
            manifest@,
            template@,
            depends_on@.map_values(|p: String| p@),
        ),
{
    let mut first = String::from_str("Added rhei '");
    crate::text::push_str(&mut first, id);
    crate::text::push_str(&mut first, "' to the recipe at '");
    crate::text::push_str(&mut first, manifest);
    crate::text::push_str(&mut first, "'.");
    let mut second = String::from_str("  template: ");
    crate::text::push_str(&mut second, template);
    if depends_on.len() == 0 {
        crate::text::push_str(&mut second, "  (no dependencies)");
    } else {
        crate::text::push_str(&mut second, "  depends-on: ");
        let joined = crate::text::join_strings(depends_on, ", ");
        crate::text::push_str(&mut second, joined.as_str());
    }
    let mut out: Vec<String> = Vec::new();
    out.push(first);
    out.push(second);
    out.push(String::new());
    out.push(String::from_str("Run the project with:"));
    out.push(String::from_str("  rhei panta"));
    let ghost spec = add_report_spec(id@, manifest@, template@, depends_on@.map_values(|p: String| p@));
    assert(Seq::new(out@.len(), |j: int| out@[j]@) =~= spec);
    out
}

} // verus!
