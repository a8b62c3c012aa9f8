//! What a new ticket is and where it lands: the parent `--under` names and
//! the siblings that number it, its kind and depth checked against what the
//! rhei declares, the shape of its reference flags, and the file and text
//! that receive it.
use vstd::prelude::*;
use crate::ids::{derive_rhei_id, derive_rhei_id_spec, legal_ticket_segment, is_legal_ticket_segment};
use crate::markdown::{append_spec, append_ticket, insert_spec, insert_ticket_after_subtree, opt_view};
use crate::recipe::{first_index, find_char, valid_rhei_id, is_valid_rhei_id};
use crate::text::{
    chars_of, has_prefix, is_alnum, is_ascii_alnum, lower_seq, push_str, slice_vec, split_on,
    split_chars, starts_with, str_eq, string_of, trim, trim_string,
};

verus! {

pub open spec fn string_views(v: Seq<String>) -> Seq<Seq<char>> {
    Seq::new(v.len(), |i: int| v[i]@)
}

// ---------------------------------------------------------------------------
// Kind and depth
// ---------------------------------------------------------------------------

/// ASCII case-insensitive equality.
pub open spec fn eq_ignore_case(a: Seq<char>, b: Seq<char>) -> bool {
    lower_seq(a) == lower_seq(b)
}

/// Why `--kind` is refused.
#[derive(Debug, PartialEq)]
pub enum KindError {
    /// No `--kind` and the rhei does not declare `task`.
    KindRequired { rhei: String, declared: Vec<String> },
    /// A `--kind` the rhei does not declare.
    UndeclaredKind { rhei: String, requested: String, declared: Vec<String> },
}

/// The kind a ticket asks for: `--kind` or `task`, trimmed and lowercased.
pub open spec fn requested_kind(requested: Option<Seq<char>>) -> Seq<char> {
    lower_seq(
        trim(
            match requested {
                Some(r) => r,
                None => "task"@,
            },
        ),
    )
}

fn ascii_eq_ignore_case(a: &Vec<char>, b: &Vec<char>) -> (r: bool)
    ensures
        r == eq_ignore_case(a@, b@),
{
    if a.len() != b.len() {
        proof {
            assert(lower_seq(a@).len() != lower_seq(b@).len());
        }
        return false;
    }
    let mut i: usize = 0;
    while i < a.len()
        invariant
            a@.len() == b@.len(),
            i <= a@.len(),
            forall|q: int| 0 <= q < i ==> crate::text::lower(a@[q]) == crate::text::lower(b@[q]),
        decreases a@.len() - i,
    {
        if crate::text::to_ascii_lower(a[i]) != crate::text::to_ascii_lower(b[i]) {
            proof {
                assert(lower_seq(a@)[i as int] != lower_seq(b@)[i as int]);
            }
            return false;
        }
        i += 1;
    }
    assert(lower_seq(a@) =~= lower_seq(b@));
    true
}

fn copy_strings(v: &Vec<String>) -> (r: Vec<String>)
    ensures
        string_views(r@) == string_views(v@),
{
    let mut out: Vec<String> = Vec::new();
    let mut i: usize = 0;
    while i < v.len()
        invariant
            i <= v@.len(),
            string_views(out@) == string_views(v@).take(i as int),
        decreases v@.len() - i,
    {
        let c = String::from_str(v[i].as_str());
        let ghost before = out@;
        out.push(c);
        assert(string_views(out@) =~= string_views(before).push(c@));
        assert(string_views(v@).take(i + 1) =~= string_views(v@).take(i as int).push(c@));
        i += 1;
    }
    assert(string_views(v@).take(v@.len() as int) =~= string_views(v@));
    out
}

/// The heading keyword of a new ticket, checked against the kinds the rhei
/// declares (ignoring ASCII case).
pub fn resolve_ticket_kind(requested: Option<&str>, node_kinds: &Vec<String>, rhei_id: &str) -> (r: Result<String, KindError>)
    ensures
        match r {
            Ok(k) => k@ == requested_kind(opt_str(requested)) && exists|i: int|
                0 <= i < node_kinds@.len() && eq_ignore_case(
                    #[trigger] string_views(node_kinds@)[i],
                    k@,
                ),
            Err(KindError::KindRequired { rhei, declared }) => requested is None && rhei@ == rhei_id@
                && string_views(declared@) == string_views(node_kinds@) && forall|i: int|
                0 <= i < node_kinds@.len() ==> !eq_ignore_case(
                    #[trigger] string_views(node_kinds@)[i],
                    requested_kind(None),
                ),
            Err(KindError::UndeclaredKind { rhei, requested: q, declared }) => requested matches Some(x)
                && q@ == trim(x@) && rhei@ == rhei_id@ && string_views(declared@) == string_views(
                node_kinds@,
            ) && forall|i: int|
                0 <= i < node_kinds@.len() ==> !eq_ignore_case(
                    #[trigger] string_views(node_kinds@)[i],
                    requested_kind(opt_str(requested)),
                ),
        },
{
    let raw = match requested {
        Some(x) => x,
        None => "task",
    };
    let t = trim_string(raw);
    let tv = chars_of(t.as_str());
    let mut kv: Vec<char> = Vec::new();
    let mut j: usize = 0;
    while j < tv.len()
        invariant
            j <= tv@.len(),
            kv@ == lower_seq(tv@.take(j as int)),
        decreases tv@.len() - j,
    {
        kv.push(crate::text::to_ascii_lower(tv[j]));
        assert(lower_seq(tv@.take(j + 1)) =~= lower_seq(tv@.take(j as int)).push(crate::text::lower(tv@[j as int])));
        j += 1;
    }
    assert(tv@.take(tv@.len() as int) =~= tv@);
    let ghost want = requested_kind(opt_str(requested));
    assert(kv@ == want);
    let mut i: usize = 0;
    while i < node_kinds.len()
        invariant
            i <= node_kinds@.len(),
            kv@ == want,
            want == requested_kind(opt_str(requested)),
            forall|q: int| 0 <= q < i ==> !eq_ignore_case(#[trigger] string_views(node_kinds@)[q], want),
        decreases node_kinds@.len() - i,
    {
        let d = chars_of(node_kinds[i].as_str());
        if ascii_eq_ignore_case(&d, &kv) {
            assert(eq_ignore_case(string_views(node_kinds@)[i as int], want));
            return Ok(string_of(kv.as_slice()));
        }
        i += 1;
    }
    let declared = copy_strings(node_kinds);
    match requested {
        None => Err(KindError::KindRequired { rhei: String::from_str(rhei_id), declared }),
        Some(x) => Err(
            KindError::UndeclaredKind { rhei: String::from_str(rhei_id), requested: trim_string(x), declared },
        ),
    }
}

pub open spec fn opt_str(s: Option<&str>) -> Option<Seq<char>> {
    match s {
        Some(x) => Some(x@),
        None => None,
    }
}

/// A subtask deeper than the rhei allows.
#[derive(Debug, PartialEq)]
pub struct DepthError {
    pub depth: u8,
    pub max_levels: u8,
    /// Whether the rhei declares `structure.maxLevels` itself (else the
    /// limit is the default, and the help spells out the block to add).
    pub declared: bool,
}

/// Refuse a ticket deeper than `structure.maxLevels`.
pub fn reject_excess_depth(depth: u8, max_levels: u8, declared: bool) -> (r: Result<(), DepthError>)
    ensures
        r is Ok <==> depth <= max_levels,
        r matches Err(e) ==> e.depth == depth && e.max_levels == max_levels && e.declared == declared,
{
    if depth <= max_levels {
        Ok(())
    } else {
        Err(DepthError { depth, max_levels, declared })
    }
}

// ---------------------------------------------------------------------------
// Reference flags
// ---------------------------------------------------------------------------

pub open spec fn export_char(c: char) -> bool {
    is_alnum(c) || c == '.' || c == '_' || c == '-'
}

/// An export name: a letter or digit, then letters, digits, `.`, `_`, `-`.
pub open spec fn legal_export_name(s: Seq<char>) -> bool {
    &&& s.len() > 0
    &&& is_alnum(s[0])
    &&& forall|k: int| 0 <= k < s.len() ==> export_char(#[trigger] s[k])
}

/// Whether `name` is a legal export name.
pub fn is_legal_export_name(name: &Vec<char>) -> (r: bool)
    ensures
        r == legal_export_name(name@),
{
    if name.len() == 0 || !is_ascii_alnum(name[0]) {
        return false;
    }
    let mut i: usize = 0;
    while i < name.len()
        invariant
            i <= name@.len(),
            forall|k: int| 0 <= k < i ==> export_char(#[trigger] name@[k]),
        decreases name@.len() - i,
    {
        let c = name[i];
        if !(is_ascii_alnum(c) || c == '.' || c == '_' || c == '-') {
            assert(!export_char(name@[i as int]));
            return false;
        }
        i += 1;
    }
    true
}

/// A project-qualified ticket id: a rhei id, then one or more ticket id
/// segments, separated by `.`.
pub open spec fn legal_task_id(s: Seq<char>) -> bool {
    let parts = split_on(s, '.');
    &&& parts.len() >= 2
    &&& valid_rhei_id(parts[0])
    &&& forall|k: int| 1 <= k < parts.len() ==> legal_ticket_segment(#[trigger] parts[k])
}

/// Whether `id` is a project-qualified ticket id.
pub fn is_legal_task_id(id: &Vec<char>) -> (r: bool)
    ensures
        r == legal_task_id(id@),
{
    let parts = split_chars(id.as_slice(), '.');
    if parts.len() < 2 {
        return false;
    }
    let first = string_of(parts[0].as_slice());
    if !is_valid_rhei_id(first.as_str()) {
        return false;
    }
    let mut k: usize = 1;
    while k < parts.len()
        invariant
            1 <= k <= parts@.len(),
            parts@.len() == split_on(id@, '.').len(),
            forall|q: int| 0 <= q < parts@.len() ==> (#[trigger] parts@[q])@ == split_on(id@, '.')[q],
            forall|q: int| 1 <= q < k ==> legal_ticket_segment(#[trigger] split_on(id@, '.')[q]),
        decreases parts@.len() - k,
    {
        let seg = string_of(parts[k].as_slice());
        if !is_legal_ticket_segment(seg.as_str()) {
            return false;
        }
        k += 1;
    }
    true
}

/// A `--provides` or `--consumes` value of the wrong shape.
#[derive(Debug, PartialEq)]
pub enum ExportFlagError {
    /// A `--provides` that is not an export name.
    BadProvides(String),
    /// A `--consumes` that is not `<task-id>:<export-name>`.
    BadConsumes(String),
}

/// A `--consumes` reference: `<task-id>:<export-name>`, split at the first
/// `:`.
pub open spec fn legal_reference(r: Seq<char>) -> bool {
    match first_index(r, ':') {
        Some(c) => legal_task_id(r.take(c)) && legal_export_name(r.skip(c + 1)),
        None => false,
    }
}

/// The first index among the first `n` values failing `ok`.
pub open spec fn first_bad(values: Seq<Seq<char>>, n: int, consumes: bool) -> Option<int>
    decreases n,
{
    if n <= 0 {
        None
    } else {
        match first_bad(values, n - 1, consumes) {
            Some(k) => Some(k),
            None => if (if consumes {
                legal_reference(trim(values[n - 1]))
            } else {
                legal_export_name(trim(values[n - 1]))
            }) {
                None
            } else {
                Some(n - 1)
            },
        }
    }
}

proof fn lemma_first_bad_stays(values: Seq<Seq<char>>, k: int, n: int, consumes: bool)
    requires
        0 <= k <= n,
        first_bad(values, k, consumes) is Some,
    ensures
        first_bad(values, n, consumes) == first_bad(values, k, consumes),
    decreases n - k,
{
    if n > k {
        lemma_first_bad_stays(values, k, n - 1, consumes);
    }
}

fn first_bad_value(values: &Vec<String>, consumes: bool) -> (r: Option<String>)
    ensures
        match r {
            Some(v) => first_bad(string_views(values@), values@.len() as int, consumes) matches Some(k)
                && v@ == trim(string_views(values@)[k]),
            None => first_bad(string_views(values@), values@.len() as int, consumes) is None,
        },
{
    let ghost vs = string_views(values@);
    let mut i: usize = 0;
    while i < values.len()
        invariant
            vs == string_views(values@),
            i <= values@.len(),
            first_bad(vs, i as int, consumes) is None,
        decreases values@.len() - i,
    {
        let t = trim_string(values[i].as_str());
        let tv = chars_of(t.as_str());
        let ok = if consumes {
            match find_char(&tv, ':') {
                Some(c) => {
                    let n = tv.len();
                    assert(c < n);
                    let task = slice_vec(&tv, 0, c);
                    let name = slice_vec(&tv, c + 1, n);
                    assert(task@ =~= tv@.take(c as int));
                    assert(name@ =~= tv@.skip(c + 1));
                    is_legal_task_id(&task) && is_legal_export_name(&name)
                },
                None => false,
            }
        } else {
            is_legal_export_name(&tv)
        };
        if !ok {
            proof {
                lemma_first_bad_stays(vs, i + 1, vs.len() as int, consumes);
            }
            return Some(t);
        }
        i += 1;
    }
    None
}

/// Check `--provides` and `--consumes` for shape before the write: each
/// `--provides` an export name, each `--consumes` `<task-id>:<export-name>`
/// (each value trimmed). The first bad value is named.
pub fn reject_malformed_export_flags(provides: &Vec<String>, consumes: &Vec<String>) -> (r: Result<(), ExportFlagError>)
    ensures
        match r {
            Ok(()) => first_bad(string_views(provides@), provides@.len() as int, false) is None
                && first_bad(string_views(consumes@), consumes@.len() as int, true) is None,
            Err(ExportFlagError::BadProvides(v)) => first_bad(
                string_views(provides@),
                provides@.len() as int,
                false,
            ) matches Some(k) && v@ == trim(string_views(provides@)[k]),
            Err(ExportFlagError::BadConsumes(v)) => {
                &&& first_bad(string_views(provides@), provides@.len() as int, false) is None
                &&& first_bad(string_views(consumes@), consumes@.len() as int, true) matches Some(k)
                &&& v@ == trim(string_views(consumes@)[k])
            },
        },
{
    if let Some(v) = first_bad_value(provides, false) {
        return Err(ExportFlagError::BadProvides(v));
    }
    if let Some(v) = first_bad_value(consumes, true) {
        return Err(ExportFlagError::BadConsumes(v));
    }
    Ok(())
}

// ---------------------------------------------------------------------------
// Parent and siblings
// ---------------------------------------------------------------------------

/// The rhei-local ids of a rhei's top-level tickets: the ticket ids that
/// are `rhei.` followed by a single segment.
pub open spec fn top_level_siblings(task_ids: Seq<Seq<char>>, rhei: Seq<char>) -> Seq<Seq<char>>
    decreases task_ids.len(),
{
    if task_ids.len() == 0 {
        Seq::empty()
    } else {
        let rest = top_level_siblings(task_ids.drop_last(), rhei);
        let id = task_ids.last();
        let prefix = rhei.push('.');
        if has_prefix(id, prefix) && !id.skip(prefix.len() as int).contains('.') {
            rest.push(id.skip(prefix.len() as int))
        } else {
            rest
        }
    }
}

/// The siblings of a top-level ticket in `rhei`, from every ticket id in the
/// plan.
pub fn top_level_sibling_ids(task_ids: &Vec<String>, rhei: &str) -> (r: Vec<String>)
    ensures
        string_views(r@) == top_level_siblings(string_views(task_ids@), rhei@),
{
    let ghost ids = string_views(task_ids@);
    let mut prefix = chars_of(rhei);
    prefix.push('.');
    let mut out: Vec<String> = Vec::new();
    let mut i: usize = 0;
    assert(ids.take(0) =~= Seq::<Seq<char>>::empty());
    while i < task_ids.len()
        invariant
            ids == string_views(task_ids@),
            prefix@ == rhei@.push('.'),
            i <= task_ids@.len(),
            string_views(out@) == top_level_siblings(ids.take(i as int), rhei@),
        decreases task_ids@.len() - i,
    {
        let v = chars_of(task_ids[i].as_str());
        assert(ids.take(i + 1).drop_last() =~= ids.take(i as int));
        assert(ids.take(i + 1).last() == v@);
        if starts_with(v.as_slice(), prefix.as_slice()) {
            let local = slice_vec(&v, prefix.len(), v.len());
            assert(local@ =~= v@.skip(prefix@.len() as int));
            if !crate::text::contains_char(local.as_slice(), '.') {
                let s = string_of(local.as_slice());
                let ghost before = out@;
                out.push(s);
                assert(string_views(out@) =~= string_views(before).push(s@));
            }
        }
        i += 1;
    }
    assert(ids.take(task_ids@.len() as int) =~= ids);
    out
}

/// The last segment of each child ticket id that has a `.`.
pub open spec fn last_segments(ids: Seq<Seq<char>>) -> Seq<Seq<char>>
    decreases ids.len(),
{
    if ids.len() == 0 {
        Seq::empty()
    } else {
        let rest = last_segments(ids.drop_last());
        let parts = split_on(ids.last(), '.');
        if parts.len() >= 2 {
            rest.push(parts.last())
        } else {
            rest
        }
    }
}

/// The siblings of a subtask: the last segment of each of the parent's
/// children.
pub fn child_sibling_ids(child_ids: &Vec<String>) -> (r: Vec<String>)
    ensures
        string_views(r@) == last_segments(string_views(child_ids@)),
{
    let ghost ids = string_views(child_ids@);
    let mut out: Vec<String> = Vec::new();
    let mut i: usize = 0;
    assert(ids.take(0) =~= Seq::<Seq<char>>::empty());
    while i < child_ids.len()
        invariant
            ids == string_views(child_ids@),
            i <= child_ids@.len(),
            string_views(out@) == last_segments(ids.take(i as int)),
        decreases child_ids@.len() - i,
    {
        let v = chars_of(child_ids[i].as_str());
        assert(ids.take(i + 1).drop_last() =~= ids.take(i as int));
        assert(ids.take(i + 1).last() == v@);
        let parts = split_chars(v.as_slice(), '.');
        if parts.len() >= 2 {
            let s = string_of(parts[parts.len() - 1].as_slice());
            let ghost before = out@;
            out.push(s);
            assert(string_views(out@) =~= string_views(before).push(s@));
        }
        i += 1;
    }
    assert(ids.take(child_ids@.len() as int) =~= ids);
    out
}

/// Where `--under` puts a new ticket: the rhei it joins, the parent
/// ticket's rhei-local id for a subtask, the siblings that number it, and
/// how the parent is named in messages.
#[derive(Debug, PartialEq)]
pub struct TicketParent {
    pub rhei_id: String,
    pub parent_local: Option<String>,
    pub siblings: Vec<String>,
    pub label: String,
}

/// Why `--under` names no parent.
#[derive(Debug, PartialEq)]
pub enum ParentError {
    /// `--under needs a rhei id or a ticket id`
    Empty,
    /// It names no rhei and no ticket of the project.
    Unknown,
}

/// Whether `ids` holds `x`.
pub open spec fn holds_id(ids: Seq<Seq<char>>, x: Seq<char>) -> bool {
    exists|i: int| 0 <= i < ids.len() && ids[i] == x
}

/// The parent `--under` names. Without a `.` it is a rhei: one of the
/// project's, or the basin, which is created on demand; its siblings are
/// its top-level tickets. With one it is a ticket, which must exist
/// (`children` holds its children's ids when it does); it belongs to the
/// rhei before the first `.`.
pub open spec fn parent_ok(
    parent: Seq<char>,
    rhei_ids: Seq<Seq<char>>,
    basin: Seq<char>,
    task_ids: Seq<Seq<char>>,
    children: Option<Seq<Seq<char>>>,
    r: Result<TicketParent, ParentError>,
) -> bool {
    if parent.len() == 0 {
        r == Err::<TicketParent, ParentError>(ParentError::Empty)
    } else {
        match first_index(parent, '.') {
            None => if !holds_id(rhei_ids, parent) && parent != basin {
                r == Err::<TicketParent, ParentError>(ParentError::Unknown)
            } else {
                r matches Ok(t) && t.rhei_id@ == parent && t.parent_local is None && string_views(t.siblings@)
                    == top_level_siblings(task_ids, parent) && t.label@ == "rhei '"@ + parent + "'"@
            },
            Some(d) => match children {
                None => r == Err::<TicketParent, ParentError>(ParentError::Unknown),
                Some(cs) => r matches Ok(t) && t.rhei_id@ == parent.take(d) && (t.parent_local matches Some(l) && l@
                    == parent.skip(d + 1)) && string_views(t.siblings@) == last_segments(cs) && t.label@ == "ticket "@
                    + parent,
            },
        }
    }
}

/// Resolve `--under`. `children` is the child ids of the ticket named
/// `parent`, when the plan holds one.
pub fn resolve_ticket_parent(
    parent: &str,
    rhei_ids: &Vec<String>,
    basin: &str,
    task_ids: &Vec<String>,
    children: Option<&Vec<String>>,
) -> (r: Result<TicketParent, ParentError>)
    ensures
        parent_ok(
            parent@,
            string_views(rhei_ids@),
            basin@,
            string_views(task_ids@),
            match children {
                Some(c) => Some(string_views(c@)),
                None => None,
            },
            r,
        ),
{
    let v = chars_of(parent);
    if v.len() == 0 {
        return Err(ParentError::Empty);
    }
    match find_char(&v, '.') {
        None => {
            let mut known = false;
            let mut i: usize = 0;
            while i < rhei_ids.len()
                invariant
                    i <= rhei_ids@.len(),
                    known <==> exists|k: int| 0 <= k < i && rhei_ids@[k]@ == parent@,
                decreases rhei_ids@.len() - i,
            {
                if str_eq(rhei_ids[i].as_str(), parent) {
                    known = true;
                }
                i += 1;
            }
            proof {
                if known {
                    let k = choose|k: int| 0 <= k < rhei_ids@.len() && rhei_ids@[k]@ == parent@;
                    assert(string_views(rhei_ids@)[k] == parent@);
                }
                if holds_id(string_views(rhei_ids@), parent@) {
                    let k = choose|k: int| 0 <= k < rhei_ids@.len() && string_views(rhei_ids@)[k] == parent@;
                    assert(rhei_ids@[k]@ == parent@);
                }
            }
            if !known && !str_eq(parent, basin) {
                return Err(ParentError::Unknown);
            }
            let siblings = top_level_sibling_ids(task_ids, parent);
            let mut label = String::from_str("rhei '");
            push_str(&mut label, parent);
            push_str(&mut label, "'");
            Ok(TicketParent { rhei_id: String::from_str(parent), parent_local: None, siblings, label })
        },
        Some(d) => {
            match children {
                None => Err(ParentError::Unknown),
                Some(cs) => {
                    let rhei = slice_vec(&v, 0, d);
                    let local = slice_vec(&v, d + 1, v.len());
                    let siblings = child_sibling_ids(cs);
                    let mut label = String::from_str("ticket ");
                    push_str(&mut label, parent);
                    assert(rhei@ =~= parent@.take(d as int));
                    assert(local@ =~= parent@.skip(d + 1));
                    Ok(TicketParent {
                        rhei_id: string_of(rhei.as_slice()),
                        parent_local: Some(string_of(local.as_slice())),
                        siblings,
                        label,
                    })
                },
            }
        },
    }
}

/// The rheis `--under` can name at the top: the project's, then the basin
/// when the project does not list it.
pub open spec fn known_parents(rhei_ids: Seq<Seq<char>>, basin: Seq<char>) -> Seq<Seq<char>> {
    if holds_id(rhei_ids, basin) {
        rhei_ids
    } else {
        rhei_ids.push(basin)
    }
}

/// The message for a `--under` that names nothing: the rheis it can name,
/// and the first of them as an example of a ticket id.
pub open spec fn unknown_parent_spec(parent: Seq<char>, rhei_ids: Seq<Seq<char>>, basin: Seq<char>) -> Seq<char> {
    let known = known_parents(rhei_ids, basin);
    "'"@ + parent
        + "' names no rhei or ticket in this project. --under takes a rhei id ("@
        + crate::text::join(known, ", "@) + ") for a top-level ticket, or a ticket id like `"@ + known[0]
        + ".1` for a subtask"@
}

/// The message for a `--under` that names nothing.
pub fn unknown_parent_message(parent: &str, rhei_ids: &Vec<String>, basin: &str) -> (r: String)
    ensures
        r@ == unknown_parent_spec(parent@, string_views(rhei_ids@), basin@),
{
    let mut known: Vec<String> = Vec::new();
    let mut listed = false;
    let mut i: usize = 0;
    while i < rhei_ids.len()
        invariant
            i <= rhei_ids@.len(),
            string_views(known@) == string_views(rhei_ids@).take(i as int),
            listed <==> exists|k: int| 0 <= k < i && rhei_ids@[k]@ == basin@,
        decreases rhei_ids@.len() - i,
    {
        if str_eq(rhei_ids[i].as_str(), basin) {
            listed = true;
        }
        let ghost before = string_views(known@);
        known.push(String::from_str(rhei_ids[i].as_str()));
        assert(string_views(known@) =~= before.push(rhei_ids@[i as int]@));
        assert(string_views(rhei_ids@).take(i + 1) =~= string_views(rhei_ids@).take(i as int).push(rhei_ids@[i as int]@));
        i += 1;
    }
    assert(string_views(rhei_ids@).take(rhei_ids@.len() as int) =~= string_views(rhei_ids@));
    proof {
        if listed {
            let k = choose|k: int| 0 <= k < rhei_ids@.len() && rhei_ids@[k]@ == basin@;
            assert(string_views(rhei_ids@)[k] == basin@);
        }
        if holds_id(string_views(rhei_ids@), basin@) {
            let k = choose|k: int| 0 <= k < rhei_ids@.len() && string_views(rhei_ids@)[k] == basin@;
            assert(rhei_ids@[k]@ == basin@);
        }
    }
    if !listed {
        let ghost before = string_views(known@);
        known.push(String::from_str(basin));
        assert(string_views(known@) =~= before.push(basin@));
    }
    let ghost kv = string_views(known@);
    assert(kv == known_parents(string_views(rhei_ids@), basin@));
    let joined = crate::text::join_strings(&known, ", ");
    assert(known@.map_values(|p: String| p@) =~= kv);
    let mut msg = String::from_str("'");
    push_str(&mut msg, parent);
    push_str(&mut msg, "' names no rhei or ticket in this project. --under takes a rhei id (");
    push_str(&mut msg, joined.as_str());
    push_str(&mut msg, ") for a top-level ticket, or a ticket id like `");
    push_str(&mut msg, known[0].as_str());
    push_str(&mut msg, ".1` for a subtask");
    msg
}

/// The ids a new ticket is written under: its rhei-local id (the parent's
/// local id and the segment, dotted, or the segment alone at the top), its
/// depth (the number of segments, kept to a `u8` as it is stored), and its
/// project-qualified id.
pub open spec fn ticket_ids_spec(rhei_id: Seq<char>, parent_local: Option<Seq<char>>, segment: Seq<char>) -> (Seq<char>, u8, Seq<char>) {
    let local = match parent_local {
        Some(p) => p + "."@ + segment,
        None => segment,
    };
    (local, (split_on(local, '.').len() % 256) as u8, rhei_id + "."@ + local)
}

/// Compose the ids of a new ticket.
pub fn compose_ticket_ids(rhei_id: &str, parent_local: Option<&str>, segment: &str) -> (r: (String, u8, String))
    ensures
        (r.0@, r.1, r.2@) == ticket_ids_spec(rhei_id@, opt_str(parent_local), segment@),
{
    let local = match parent_local {
        Some(p) => {
            let mut l = String::from_str(p);
            push_str(&mut l, ".");
            push_str(&mut l, segment);
            l
        },
        None => String::from_str(segment),
    };
    let lv = chars_of(local.as_str());
    let parts = split_chars(lv.as_slice(), '.');
    let depth = (parts.len() % 256) as u8;
    let mut qualified = String::from_str(rhei_id);
    push_str(&mut qualified, ".");
    push_str(&mut qualified, local.as_str());
    (local, depth, qualified)
}

/// The items that start with `prefix`, in order.
pub open spec fn with_prefix(items: Seq<Seq<char>>, prefix: Seq<char>, k: int) -> Seq<Seq<char>>
    decreases k,
{
    if k <= 0 {
        Seq::empty()
    } else if has_prefix(items[k - 1], prefix) {
        with_prefix(items, prefix, k - 1).push(items[k - 1])
    } else {
        with_prefix(items, prefix, k - 1)
    }
}

/// Shell completion: the candidates that start with what was typed (node
/// kinds for `--kind`, ids for `--under`).
pub fn completions(items: &Vec<String>, prefix: &str) -> (r: Vec<String>)
    ensures
        string_views(r@) == with_prefix(string_views(items@), prefix@, items@.len() as int),
{
    let pv = chars_of(prefix);
    let mut out: Vec<String> = Vec::new();
    let mut i: usize = 0;
    assert(string_views(out@) =~= Seq::<Seq<char>>::empty());
    while i < items.len()
        invariant
            pv@ == prefix@,
            i <= items@.len(),
            string_views(out@) == with_prefix(string_views(items@), prefix@, i as int),
        decreases items@.len() - i,
    {
        let v = chars_of(items[i].as_str());
        assert(string_views(items@)[i as int] == v@);
        if starts_with(v.as_slice(), pv.as_slice()) {
            let ghost before = out@;
            let c = String::from_str(items[i].as_str());
            out.push(c);
            assert(string_views(out@) =~= string_views(before).push(c@));
        }
        i += 1;
    }
    out
}

// ---------------------------------------------------------------------------
// Where the ticket lands
// ---------------------------------------------------------------------------

/// `4-rotate-signing-keys.md`: the id first so the directory sorts the way
/// the plan reads, the title's slug so a human can find the file.
pub open spec fn task_file_name_spec(local_id: Seq<char>, title: Seq<char>) -> Seq<char> {
    match derive_rhei_id_spec(title) {
        Some(slug) => local_id + "-"@ + slug + ".md"@,
        None => local_id + ".md"@,
    }
}

/// The file name of a new task file.
pub fn task_file_name(local_id: &str, title: &str) -> (r: String)
    ensures
        r@ == task_file_name_spec(local_id@, title@),
{
    let mut out = String::from_str(local_id);
    match derive_rhei_id(title) {
        Some(slug) => {
            push_str(&mut out, "-");
            push_str(&mut out, slug.as_str());
            push_str(&mut out, ".md");
        },
        None => {
            push_str(&mut out, ".md");
        },
    }
    out
}

/// A rhei's on-disk shape, which decides where a ticket goes.
#[derive(Debug, PartialEq)]
pub enum RheiLayout {
    /// One `.rhei.md` holding every ticket.
    SingleFile,
    /// A directory workspace whose tickets live in `tasks/` files.
    Workspace,
    /// The project basin: a directory of task files, created on demand.
    Basin,
}

/// The decided write for one ticket.
#[derive(Debug, PartialEq)]
pub enum Placement {
    /// New contents for the file that already holds the parent (or, for a
    /// single-file rhei, every ticket).
    Existing { contents: String },
    /// A new task file with the block as its contents, in the rhei's
    /// `tasks/` directory (workspace) or in the basin directory.
    NewFile { name: String, in_tasks_dir: bool, contents: String },
}

/// Where a ticket lands: a subtask is spliced after its parent's subtree in
/// the file holding the parent (`None` when the parent's heading is not
/// there); a top-level ticket is appended to a single-file rhei, or becomes
/// a new task file.
pub open spec fn place_spec(
    layout: RheiLayout,
    parent_local: Option<Seq<char>>,
    local_id: Seq<char>,
    title: Seq<char>,
    block: Seq<char>,
    existing: Seq<char>,
) -> Option<(bool, Seq<char>, bool, Seq<char>)> {
    match parent_local {
        Some(p) => match insert_spec(existing, p, block) {
            Some(c) => Some((true, Seq::empty(), false, c)),
            None => None,
        },
        None => match layout {
            RheiLayout::SingleFile => Some((true, Seq::empty(), false, append_spec(existing, block))),
            RheiLayout::Workspace => Some((false, task_file_name_spec(local_id, title), true, block)),
            RheiLayout::Basin => Some((false, task_file_name_spec(local_id, title), false, block)),
        },
    }
}

/// A placement as (existing file?, new file name, in `tasks/`?, contents).
pub open spec fn placement_view(p: Placement) -> (bool, Seq<char>, bool, Seq<char>) {
    match p {
        Placement::Existing { contents } => (true, Seq::empty(), false, contents@),
        Placement::NewFile { name, in_tasks_dir, contents } => (false, name@, in_tasks_dir, contents@),
    }
}

/// Decide the file and its new contents. `existing` is the text of the file
/// that receives the ticket when it goes into one.
pub fn place_ticket(
    layout: &RheiLayout,
    parent_local: Option<&str>,
    local_id: &str,
    title: &str,
    block: &str,
    existing: &str,
) -> (r: Option<Placement>)
    ensures
        match r {
            Some(p) => place_spec(*layout, opt_str(parent_local), local_id@, title@, block@, existing@)
                == Some(placement_view(p)),
            None => place_spec(*layout, opt_str(parent_local), local_id@, title@, block@, existing@)
                is None,
        },
{
    match parent_local {
        Some(p) => match insert_ticket_after_subtree(existing, p, block) {
            Some(contents) => Some(Placement::Existing { contents }),
            None => None,
        },
        None => match layout {
            RheiLayout::SingleFile => Some(Placement::Existing { contents: append_ticket(existing, block) }),
            RheiLayout::Workspace => Some(
                Placement::NewFile {
                    name: task_file_name(local_id, title),
                    in_tasks_dir: true,
                    contents: String::from_str(block),
                },
            ),
            RheiLayout::Basin => Some(
                Placement::NewFile {
                    name: task_file_name(local_id, title),
                    in_tasks_dir: false,
                    contents: String::from_str(block),
                },
            ),
        },
    }
}


// ---------------------------------------------------------------------------
// Rhei entries on disk
// ---------------------------------------------------------------------------

/// A project entry names the rhei `id`: a directory named `id`, or a file
/// named `id.rhei.md`.
pub open spec fn entry_names(name: Seq<char>, is_dir: bool, id: Seq<char>) -> bool {
    if is_dir {
        name == id
    } else {
        name == id + ".rhei.md"@
    }
}

/// The first of the first `k` entries that names `id`.
pub open spec fn first_entry(entries: Seq<(Seq<char>, bool)>, id: Seq<char>, k: int) -> Option<int>
    decreases k,
{
    if k <= 0 {
        None
    } else {
        match first_entry(entries, id, k - 1) {
            Some(i) => Some(i),
            None => if entry_names(entries[k - 1].0, entries[k - 1].1, id) {
                Some(k - 1)
            } else {
                None
            },
        }
    }
}

pub open spec fn entry_views(entries: Seq<(String, bool)>) -> Seq<(Seq<char>, bool)> {
    Seq::new(entries.len(), |i: int| (entries[i].0@, entries[i].1))
}

/// Which of a project's rhei entries (each a file or directory name, and
/// whether it is a directory, in the order discovered) holds rhei `id`.
pub fn find_rhei_entry(entries: &Vec<(String, bool)>, id: &str) -> (r: Option<usize>)
    ensures
        match r {
            Some(i) => first_entry(entry_views(entries@), id@, entries@.len() as int) == Some(i as int),
            None => first_entry(entry_views(entries@), id@, entries@.len() as int) is None,
        },
{
    let ghost ev = entry_views(entries@);
    let mut file_name = String::from_str(id);
    push_str(&mut file_name, ".rhei.md");
    let mut i: usize = 0;
    while i < entries.len()
        invariant
            ev == entry_views(entries@),
            file_name@ == id@ + ".rhei.md"@,
            i <= entries@.len(),
            first_entry(ev, id@, i as int) is None,
        decreases entries@.len() - i,
    {
        let (name, is_dir) = (&entries[i].0, entries[i].1);
        let hit = if is_dir {
            str_eq(name.as_str(), id)
        } else {
            str_eq(name.as_str(), file_name.as_str())
        };
        assert(ev[i as int] == (entries@[i as int].0@, entries@[i as int].1));
        if hit {
            proof {
                lemma_first_entry_stays(ev, id@, i as int + 1, entries@.len() as int);
            }
            return Some(i);
        }
        i += 1;
    }
    None
}

proof fn lemma_first_entry_stays(entries: Seq<(Seq<char>, bool)>, id: Seq<char>, k: int, n: int)
    requires
        0 < k <= n,
        first_entry(entries, id, k - 1) is None,
        entry_names(entries[k - 1].0, entries[k - 1].1, id),
    ensures
        first_entry(entries, id, n) == Some(k - 1),
    decreases n - k,
{
    if n > k {
        lemma_first_entry_stays(entries, id, k, n - 1);
    }
}

/// Where a new rhei is written, relative to its project: a directory
/// workspace `<id>/index.rhei.md` with `<id>` and `<id>/tasks` made first,
/// or one file `<id>.rhei.md`; and the command that follows its creation.
pub fn new_rhei_layout(id: &str, as_dir: bool) -> (r: (String, Vec<String>, String))
    ensures
        r.0@ == if as_dir {
            id@ + "/index.rhei.md"@
        } else {
            id@ + ".rhei.md"@
        },
        Seq::new(r.1@.len(), |i: int| r.1@[i]@) == if as_dir {
            seq![id@, id@ + "/tasks"@]
        } else {
            Seq::empty()
        },
        r.2@ == "`rhei new \"<first ticket>\" --under "@ + id@ + "`"@,
{
    let mut hint = String::from_str("`rhei new \"<first ticket>\" --under ");
    push_str(&mut hint, id);
    push_str(&mut hint, "`");
    if as_dir {
        let mut path = String::from_str(id);
        push_str(&mut path, "/index.rhei.md");
        let mut tasks = String::from_str(id);
        push_str(&mut tasks, "/tasks");
        let dirs = vec![String::from_str(id), tasks];
        assert(Seq::new(dirs@.len(), |i: int| dirs@[i]@) =~= seq![id@, id@ + "/tasks"@]);
        (path, dirs, hint)
    } else {
        let mut path = String::from_str(id);
        push_str(&mut path, ".rhei.md");
        let dirs: Vec<String> = Vec::new();
        assert(Seq::new(dirs@.len(), |i: int| dirs@[i]@) =~= Seq::<Seq<char>>::empty());
        (path, dirs, hint)
    }
}

/// The error for a rhei id already taken on disk, and its hint.
pub fn existing_rhei_error(id: &str, taken_at: &str) -> (r: (String, String))
    ensures
        r.0@ == "rhei '"@ + id@ + "' already exists at "@ + taken_at@,
        r.1@ == "pick another id with --id, or add a ticket to the existing rhei with `--under`."@,
{
    let mut m = String::from_str("rhei '");
    push_str(&mut m, id);
    push_str(&mut m, "' already exists at ");
    push_str(&mut m, taken_at);
    (m, String::from_str("pick another id with --id, or add a ticket to the existing rhei with `--under`."))
}

// ---------------------------------------------------------------------------
// Keying and checking a new ticket
// ---------------------------------------------------------------------------

/// Why a new ticket cannot be keyed or placed where `--under` puts it.
#[derive(Debug, PartialEq)]
pub enum NewTicketError {
    Id(crate::ids::IdError),
    Depth(DepthError),
    Kind(KindError),
}

/// A new ticket, keyed: its rhei-local id, its id qualified by its rhei,
/// its depth, and its heading keyword.
#[derive(Debug, PartialEq)]
pub struct NewTicketPlan {
    pub local_id: String,
    pub qualified: String,
    pub depth: u8,
    pub kind: String,
}

/// The segment a new ticket is keyed by: the next sibling number, or
/// `--id` trimmed.
pub open spec fn segment_spec(explicit: Option<Seq<char>>, siblings: Seq<Seq<char>>) -> Seq<char> {
    match explicit {
        None => crate::text::decimal(crate::ids::next_sibling_spec(siblings) as nat),
        Some(e) => trim(e),
    }
}

/// Whether that segment is usable: always for the next number; for `--id`,
/// when it is a legal segment no sibling has.
pub open spec fn segment_usable(explicit: Option<Seq<char>>, siblings: Seq<Seq<char>>) -> bool {
    match explicit {
        None => true,
        Some(e) => legal_ticket_segment(trim(e)) && !siblings.contains(trim(e)),
    }
}

/// The rhei-local id: the segment under the parent ticket, if there is one.
pub open spec fn local_id_spec(parent_local: Option<Seq<char>>, segment: Seq<char>) -> Seq<char> {
    match parent_local {
        Some(p) => p + "."@ + segment,
        None => segment,
    }
}

/// Some declared node kind matches the requested one, ignoring case.
pub open spec fn kind_declared(requested: Option<Seq<char>>, node_kinds: Seq<Seq<char>>) -> bool {
    exists|i: int| 0 <= i < node_kinds.len() && eq_ignore_case(#[trigger] node_kinds[i], requested_kind(requested))
}

/// Key a new ticket under `parent` and check it, in this order: its id
/// segment (`--id`), its depth against `structure.maxLevels` (the number of
/// segments in its local id, kept to a byte as the plan stores it), and its
/// kind (`--kind`) against the rhei's node kinds.
pub fn new_ticket_plan(
    explicit_id: Option<&str>,
    requested_kind: Option<&str>,
    parent: &TicketParent,
    node_kinds: &Vec<String>,
    max_levels: u8,
    declared: bool,
) -> (r: Result<NewTicketPlan, NewTicketError>)
    ensures
        !segment_usable(opt_str(explicit_id), string_views(parent.siblings@)) ==> r matches Err(NewTicketError::Id(_)),
        r matches Err(NewTicketError::Id(_)) ==> !segment_usable(opt_str(explicit_id), string_views(parent.siblings@)),
        segment_usable(opt_str(explicit_id), string_views(parent.siblings@)) ==> {
            let local = local_id_spec(
                opt_view(parent.parent_local),
                segment_spec(opt_str(explicit_id), string_views(parent.siblings@)),
            );
            let depth = (split_on(local, '.').len() as u8);
            if depth > max_levels {
                r == Err::<NewTicketPlan, NewTicketError>(
                    NewTicketError::Depth(DepthError { depth, max_levels, declared }),
                )
            } else if !kind_declared(opt_str(requested_kind), string_views(node_kinds@)) {
                r matches Err(NewTicketError::Kind(_))
            } else {
                r matches Ok(p) && p.local_id@ == local && p.qualified@ == parent.rhei_id@ + "."@ + local && p.depth
                    == depth && p.kind@ == crate::placement::requested_kind(opt_str(requested_kind))
            }
        },
{
    let segment = match crate::ids::resolve_new_ticket_segment(explicit_id, &parent.siblings, parent.label.as_str()) {
        Ok(s) => s,
        Err(e) => {
            return Err(NewTicketError::Id(e));
        },
    };
    let local_id = match &parent.parent_local {
        Some(p) => {
            let mut l = String::from_str(p.as_str());
            push_str(&mut l, ".");
            push_str(&mut l, segment.as_str());
            l
        },
        None => segment,
    };
    let lv = chars_of(local_id.as_str());
    let pieces = split_chars(lv.as_slice(), '.');
    let depth = pieces.len() as u8;
    match reject_excess_depth(depth, max_levels, declared) {
        Ok(()) => {},
        Err(e) => {
            return Err(NewTicketError::Depth(e));
        },
    }
    let kind = match resolve_ticket_kind(requested_kind, node_kinds, parent.rhei_id.as_str()) {
        Ok(k) => k,
        Err(e) => {
            return Err(NewTicketError::Kind(e));
        },
    };
    let mut qualified = String::from_str(parent.rhei_id.as_str());
    push_str(&mut qualified, ".");
    push_str(&mut qualified, local_id.as_str());
    Ok(NewTicketPlan { local_id, qualified, depth, kind })
}

/// `f` carries the new ticket's fields: keyed as `plan` says, in `state`,
/// with the authored fields of `options` and the resolved `description`.
pub open spec fn fields_for(
    f: crate::markdown::TicketFields,
    plan: NewTicketPlan,
    state: Seq<char>,
    options: crate::create::NewOptions,
    description: Option<Seq<char>>,
) -> bool {
    &&& f.kind@ == plan.kind@
    &&& f.local_id@ == plan.local_id@
    &&& f.title@ == options.title@
    &&& f.state@ == state
    &&& string_views(f.prior@) == string_views(options.prior@)
    &&& string_views(f.provides@) == string_views(options.provides@)
    &&& string_views(f.consumes@) == string_views(options.consumes@)
    &&& opt_view(f.assignee) == opt_view(options.assignee)
    &&& opt_view(f.model) == opt_view(options.model)
    &&& opt_view(f.target) == opt_view(options.target)
    &&& opt_view(f.description) == description
}

fn copy_opt(o: &Option<String>) -> (r: Option<String>)
    ensures
        opt_view(r) == opt_view(*o),
{
    match o {
        Some(x) => Some(String::from_str(x.as_str())),
        None => None,
    }
}

/// Write a keyed ticket: render its node from its fields and decide the
/// file and contents it goes into (`existing`: the text of the file that
/// receives it, when it goes into one).
pub fn new_ticket_write(
    plan: &NewTicketPlan,
    state: &str,
    options: &crate::create::NewOptions,
    description: Option<String>,
    layout: &RheiLayout,
    parent_local: Option<&str>,
    existing: &str,
) -> (r: Option<Placement>)
    ensures
        exists|f: crate::markdown::TicketFields|
            #[trigger] fields_for(f, *plan, state@, *options, opt_view(description)) && match r {
                Some(p) => place_spec(
                    *layout,
                    opt_str(parent_local),
                    plan.local_id@,
                    options.title@,
                    crate::markdown::render_ticket_spec(f),
                    existing@,
                ) == Some(placement_view(p)),
                None => place_spec(
                    *layout,
                    opt_str(parent_local),
                    plan.local_id@,
                    options.title@,
                    crate::markdown::render_ticket_spec(f),
                    existing@,
                ) is None,
            },
{
    let ghost dv = opt_view(description);
    let f = crate::markdown::TicketFields {
        kind: String::from_str(plan.kind.as_str()),
        local_id: String::from_str(plan.local_id.as_str()),
        title: String::from_str(options.title.as_str()),
        state: String::from_str(state),
        prior: copy_strings(&options.prior),
        provides: copy_strings(&options.provides),
        consumes: copy_strings(&options.consumes),
        assignee: copy_opt(&options.assignee),
        model: copy_opt(&options.model),
        target: copy_opt(&options.target),
        description,
    };
    let block = crate::markdown::render_ticket(&f);
    let r = place_ticket(layout, parent_local, plan.local_id.as_str(), options.title.as_str(), block.as_str(), existing);
    assert(fields_for(f, *plan, state@, *options, dv));
    r
}

} // verus!
