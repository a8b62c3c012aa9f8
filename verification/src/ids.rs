//! The ids `rhei new` writes: a rhei id derived from a title or given with
//! `--id`, and a ticket id segment numbered after its siblings or given with
//! `--id`. An id is what every reference, runtime path and listing is keyed
//! by, so anything that would not load is refused here.
use vstd::prelude::*;
use crate::recipe::{is_valid_rhei_id, valid_rhei_id};
use crate::text::{
    all_digits, chars_of, is_alnum, is_alpha, is_ascii_alnum, is_ascii_alpha, is_ascii_digit,
    is_digit, lower, lower_seq, parse_u64, parse_u64_spec, slice_vec, str_eq, string_of, to_ascii_lower,
    trim, trim_string, u64_to_string, decimal, split_chars, split_on,
};

verus! {

/// The project basin: the synthetic rhei that holds tickets with no owning
/// rhei. Its id is reserved.
pub open spec fn basin_id() -> Seq<char> {
    "basin"@
}

// ---------------------------------------------------------------------------
// Deriving a rhei id from a title
// ---------------------------------------------------------------------------

/// A character a rhei id keeps (after lowercasing).
pub open spec fn kept_char(c: char) -> bool {
    is_alnum(c) || c == '_' || c == '-'
}

/// The title lowercased, with every run of other characters collapsed to one
/// `-` (none before the first kept character).
pub open spec fn slug(s: Seq<char>) -> Seq<char>
    decreases s.len(),
{
    if s.len() == 0 {
        Seq::empty()
    } else {
        let o = slug(s.drop_last());
        let c = lower(s.last());
        if kept_char(c) {
            o.push(c)
        } else if o.len() > 0 && o.last() != '-' {
            o.push('-')
        } else {
            o
        }
    }
}

/// Leading `-` removed.
pub open spec fn strip_leading_dashes(s: Seq<char>) -> Seq<char>
    decreases s.len(),
{
    if s.len() > 0 && s[0] == '-' {
        strip_leading_dashes(s.drop_first())
    } else {
        s
    }
}

/// Trailing `-` removed.
pub open spec fn strip_trailing_dashes(s: Seq<char>) -> Seq<char>
    decreases s.len(),
{
    if s.len() > 0 && s.last() == '-' {
        strip_trailing_dashes(s.drop_last())
    } else {
        s
    }
}

/// Leading characters that are not ASCII letters removed.
pub open spec fn skip_to_letter(s: Seq<char>) -> Seq<char>
    decreases s.len(),
{
    if s.len() > 0 && !is_alpha(s[0]) {
        skip_to_letter(s.drop_first())
    } else {
        s
    }
}

/// The rhei id a title gives: its slug with `-` trimmed from both ends and
/// any leading non-letter dropped; `None` when nothing is left.
pub open spec fn derive_rhei_id_spec(title: Seq<char>) -> Option<Seq<char>> {
    let d = skip_to_letter(strip_trailing_dashes(strip_leading_dashes(slug(title))));
    if d.len() == 0 {
        None
    } else {
        Some(d)
    }
}

/// Derive a rhei id from a title: lowercase, every run of characters outside
/// `[a-z0-9_-]` collapsed to a single `-`, trimmed of `-`, and any leading
/// non-letter dropped. `None` when nothing usable survives.
pub fn derive_rhei_id(title: &str) -> (r: Option<String>)
    ensures
        match r {
            Some(id) => derive_rhei_id_spec(title@) == Some(id@),
            None => derive_rhei_id_spec(title@) is None,
        },
{
    let v = chars_of(title);
    let mut out: Vec<char> = Vec::new();
    let mut i: usize = 0;
    assert(v@.take(0) =~= Seq::<char>::empty());
    while i < v.len()
        invariant
            i <= v@.len(),
            out@ == slug(v@.take(i as int)),
        decreases v@.len() - i,
    {
        assert(v@.take(i + 1).drop_last() =~= v@.take(i as int));
        let c = to_ascii_lower(v[i]);
        if is_ascii_alnum(c) || c == '_' || c == '-' {
            out.push(c);
        } else if out.len() > 0 && out[out.len() - 1] != '-' {
            out.push('-');
        }
        i += 1;
    }
    assert(v@.take(v@.len() as int) =~= v@);
    let ghost s0 = out@;
    // leading dashes
    let mut a: usize = 0;
    assert(s0.subrange(0, s0.len() as int) =~= s0);
    while a < out.len() && out[a] == '-'
        invariant
            s0 == out@,
            a <= out@.len(),
            strip_leading_dashes(s0.subrange(a as int, s0.len() as int)) == strip_leading_dashes(s0),
        decreases out@.len() - a,
    {
        assert(s0.subrange(a as int, s0.len() as int).drop_first() =~= s0.subrange(a + 1, s0.len() as int));
        a += 1;
    }
    let ghost s1 = s0.subrange(a as int, s0.len() as int);
    // trailing dashes
    let mut b: usize = out.len();
    assert(s1 =~= s0.subrange(a as int, b as int));
    while b > a && out[b - 1] == '-'
        invariant
            s0 == out@,
            a <= b <= out@.len(),
            s1 == s0.subrange(a as int, s0.len() as int),
            strip_trailing_dashes(s0.subrange(a as int, b as int)) == strip_trailing_dashes(s1),
        decreases b,
    {
        assert(s0.subrange(a as int, b as int).drop_last() =~= s0.subrange(a as int, b - 1));
        b -= 1;
    }
    proof {
        assert(s0.subrange(a as int, b as int) == strip_trailing_dashes(s1)) by {
            let t = s0.subrange(a as int, b as int);
            if t.len() > 0 {
                assert(t.last() == s0[b - 1]);
            }
        }
    }
    let ghost s2 = s0.subrange(a as int, b as int);
    // leading non-letters
    let mut c: usize = a;
    assert(s2 =~= s0.subrange(c as int, b as int));
    while c < b && !is_ascii_alpha(out[c])
        invariant
            s0 == out@,
            a <= c <= b <= out@.len(),
            s2 == s0.subrange(a as int, b as int),
            skip_to_letter(s0.subrange(c as int, b as int)) == skip_to_letter(s2),
        decreases b - c,
    {
        assert(s0.subrange(c as int, b as int).drop_first() =~= s0.subrange(c + 1, b as int));
        c += 1;
    }
    proof {
        let t = s0.subrange(c as int, b as int);
        if t.len() > 0 {
            assert(t[0] == s0[c as int]);
        }
        assert(t == skip_to_letter(s2));
    }
    if c == b {
        None
    } else {
        let id = slice_vec(&out, c, b);
        Some(string_of(id.as_slice()))
    }
}

/// Whether `id` is a legal single-segment rhei id: a letter, then letters,
/// digits, `_`, or `-`.
pub fn is_legal_rhei_id(id: &str) -> (r: bool)
    ensures
        r == valid_rhei_id(id@),
{
    is_valid_rhei_id(id)
}

// ---------------------------------------------------------------------------
// Ticket id segments
// ---------------------------------------------------------------------------

/// A legal ticket id segment: a number without leading zeros, or an
/// identifier that starts with a letter.
pub open spec fn legal_ticket_segment(id: Seq<char>) -> bool {
    &&& id.len() > 0
    &&& if all_digits(id) {
        id == "0"@ || id[0] != '0'
    } else {
        valid_rhei_id(id)
    }
}

/// Whether `id` is a legal ticket id segment.
pub fn is_legal_ticket_segment(id: &str) -> (r: bool)
    ensures
        r == legal_ticket_segment(id@),
{
    let v = chars_of(id);
    if v.len() == 0 {
        return false;
    }
    let mut k: usize = 0;
    let mut digits = true;
    while k < v.len()
        invariant
            v@ == id@,
            k <= v@.len(),
            digits == (forall|q: int| 0 <= q < k ==> is_digit(#[trigger] v@[q])),
        decreases v@.len() - k,
    {
        if !is_ascii_digit(v[k]) {
            digits = false;
        }
        k += 1;
    }
    if digits {
        proof {
            reveal_strlit("0");
        }
        str_eq(id, "0") || v[0] != '0'
    } else {
        is_valid_rhei_id(id)
    }
}

/// `u32::from_str`.
pub open spec fn parse_u32_spec(s: Seq<char>) -> Option<u32> {
    match parse_u64_spec(s) {
        Some(n) => if n <= u32::MAX {
            Some(n as u32)
        } else {
            None
        },
        None => None,
    }
}

/// The highest number among the first `k` sibling ids that parse as one.
pub open spec fn highest_sibling(ids: Seq<Seq<char>>, k: int) -> Option<u32>
    decreases k,
{
    if k <= 0 {
        None
    } else {
        let h = highest_sibling(ids, k - 1);
        match parse_u32_spec(ids[k - 1]) {
            Some(n) => match h {
                Some(m) => if n > m {
                    Some(n)
                } else {
                    Some(m)
                },
                None => Some(n),
            },
            None => h,
        }
    }
}

/// The number the next sibling takes: one more than the highest numeric
/// sibling (saturating), or 1 when there is none.
pub open spec fn next_sibling_spec(ids: Seq<Seq<char>>) -> u32 {
    match highest_sibling(ids, ids.len() as int) {
        Some(h) => if h == u32::MAX {
            h
        } else {
            (h + 1) as u32
        },
        None => 1,
    }
}

pub open spec fn string_views(v: Seq<String>) -> Seq<Seq<char>> {
    Seq::new(v.len(), |i: int| v[i]@)
}

/// The next free ticket number among `siblings`.
pub fn next_sibling_number(siblings: &Vec<String>) -> (r: u32)
    ensures
        r == next_sibling_spec(string_views(siblings@)),
{
    let ghost ids = string_views(siblings@);
    let mut best: Option<u32> = None;
    let mut i: usize = 0;
    while i < siblings.len()
        invariant
            ids == string_views(siblings@),
            i <= siblings@.len(),
            best == highest_sibling(ids, i as int),
        decreases siblings@.len() - i,
    {
        let v = chars_of(siblings[i].as_str());
        assert(ids[i as int] == v@);
        match parse_u64(v.as_slice()) {
            Some(n) => {
                if n <= 4294967295u64 {
                    let m = n as u32;
                    best = match best {
                        Some(b) => if m > b {
                            Some(m)
                        } else {
                            Some(b)
                        },
                        None => Some(m),
                    };
                }
            },
            None => {},
        }
        i += 1;
    }
    match best {
        Some(h) => if h == u32::MAX {
            h
        } else {
            h + 1
        },
        None => 1,
    }
}

// ---------------------------------------------------------------------------
// Resolving the ids of a create
// ---------------------------------------------------------------------------

/// Why an id given to, or derived for, `rhei new` is refused.
#[derive(Debug, PartialEq)]
pub enum IdError {
    /// No rhei id survives deriving one from the title.
    NoIdFromTitle { title: String },
    /// An explicit rhei id that is not a legal segment, with the id deriving
    /// would make of it.
    IllegalRheiId { id: String, suggestion: Option<String> },
    /// The basin's id.
    ReservedRheiId { id: String },
    /// An explicit ticket id that is not a legal segment.
    IllegalTicketId { id: String },
    /// An explicit ticket id a sibling already has.
    TicketIdTaken { parent: String, id: String },
}

/// The rhei id a create uses: `--id` trimmed, or the one derived from the
/// title.
pub open spec fn candidate_rhei_id(title: Seq<char>, explicit: Option<Seq<char>>) -> Option<Seq<char>> {
    match explicit {
        Some(e) => Some(trim(e)),
        None => derive_rhei_id_spec(title),
    }
}

/// The rhei id `rhei new` will create, from `--id` or the title, refusing an
/// id that would not load and the basin's id.
pub fn resolve_new_rhei_id(title: &str, explicit: Option<&str>) -> (r: Result<String, IdError>)
    ensures
        match r {
            Ok(id) => candidate_rhei_id(title@, opt_view(explicit)) == Some(id@) && valid_rhei_id(id@)
                && id@ != basin_id(),
            Err(IdError::NoIdFromTitle { title: t }) => explicit is None && derive_rhei_id_spec(title@)
                is None && t@ == title@,
            Err(IdError::IllegalRheiId { id, suggestion }) => candidate_rhei_id(title@, opt_view(explicit))
                == Some(id@) && !valid_rhei_id(id@) && match suggestion {
                Some(s) => derive_rhei_id_spec(id@) == Some(s@),
                None => derive_rhei_id_spec(id@) is None,
            },
            Err(IdError::ReservedRheiId { id }) => candidate_rhei_id(title@, opt_view(explicit)) == Some(id@)
                && valid_rhei_id(id@) && id@ == basin_id(),
            Err(_) => false,
        },
{
    let id = match explicit {
        Some(e) => trim_string(e),
        None => match derive_rhei_id(title) {
            Some(d) => d,
            None => {
                return Err(IdError::NoIdFromTitle { title: String::from_str(title) });
            },
        },
    };
    if !is_legal_rhei_id(id.as_str()) {
        let suggestion = derive_rhei_id(id.as_str());
        return Err(IdError::IllegalRheiId { id, suggestion });
    }
    proof {
        reveal_strlit("basin");
    }
    if str_eq(id.as_str(), "basin") {
        return Err(IdError::ReservedRheiId { id });
    }
    Ok(id)
}

pub open spec fn opt_view(s: Option<&str>) -> Option<Seq<char>> {
    match s {
        Some(x) => Some(x@),
        None => None,
    }
}

/// What a ticket create keys the new ticket by: the next sibling number, or
/// `--id` trimmed when it is a legal segment no sibling has.
pub fn resolve_new_ticket_segment(explicit: Option<&str>, siblings: &Vec<String>, parent_label: &str) -> (r: Result<String, IdError>)
    ensures
        match r {
            Ok(id) => match explicit {
                None => id@ == decimal(next_sibling_spec(string_views(siblings@)) as nat),
                Some(e) => id@ == trim(e@) && legal_ticket_segment(id@) && !string_views(siblings@).contains(id@),
            },
            Err(IdError::IllegalTicketId { id }) => explicit matches Some(e) && id@ == trim(e@)
                && !legal_ticket_segment(id@),
            Err(IdError::TicketIdTaken { parent, id }) => explicit matches Some(e) && id@ == trim(e@)
                && legal_ticket_segment(id@) && string_views(siblings@).contains(id@) && parent@ == parent_label@,
            Err(_) => false,
        },
{
    let e = match explicit {
        None => {
            let n = next_sibling_number(siblings);
            return Ok(u64_to_string(n as u64));
        },
        Some(e) => e,
    };
    let id = trim_string(e);
    if !is_legal_ticket_segment(id.as_str()) {
        return Err(IdError::IllegalTicketId { id });
    }
    let ghost ids = string_views(siblings@);
    let mut i: usize = 0;
    while i < siblings.len()
        invariant
            ids == string_views(siblings@),
            i <= siblings@.len(),
            forall|q: int| 0 <= q < i ==> ids[q] != id@,
            explicit == Some(e),
            id@ == trim(e@),
            legal_ticket_segment(id@),
        decreases siblings@.len() - i,
    {
        if str_eq(siblings[i].as_str(), id.as_str()) {
            assert(ids[i as int] == id@);
            assert(ids.contains(id@));
            return Err(IdError::TicketIdTaken { parent: String::from_str(parent_label), id });
        }
        i += 1;
    }
    assert(!ids.contains(id@));
    Ok(id)
}

// ---------------------------------------------------------------------------
// Laws
// ---------------------------------------------------------------------------

pub open spec fn all_id_chars(s: Seq<char>) -> bool {
    forall|k: int| 0 <= k < s.len() ==> crate::recipe::is_id_char(#[trigger] s[k])
}

proof fn lemma_slug_id_chars(s: Seq<char>)
    ensures
        all_id_chars(slug(s)),
    decreases s.len(),
{
    if s.len() > 0 {
        lemma_slug_id_chars(s.drop_last());
        let o = slug(s.drop_last());
        let r = slug(s);
        assert forall|k: int| 0 <= k < r.len() implies crate::recipe::is_id_char(#[trigger] r[k]) by {
            if k < o.len() {
                assert(r[k] == o[k]);
            }
        }
    }
}

proof fn lemma_strip_leading_id_chars(s: Seq<char>)
    requires
        all_id_chars(s),
    ensures
        all_id_chars(strip_leading_dashes(s)),
    decreases s.len(),
{
    if s.len() > 0 && s[0] == '-' {
        let t = s.drop_first();
        assert forall|k: int| 0 <= k < t.len() implies crate::recipe::is_id_char(#[trigger] t[k]) by {
            assert(t[k] == s[k + 1]);
        }
        lemma_strip_leading_id_chars(t);
    }
}

proof fn lemma_strip_trailing_id_chars(s: Seq<char>)
    requires
        all_id_chars(s),
    ensures
        all_id_chars(strip_trailing_dashes(s)),
    decreases s.len(),
{
    if s.len() > 0 && s.last() == '-' {
        let t = s.drop_last();
        assert forall|k: int| 0 <= k < t.len() implies crate::recipe::is_id_char(#[trigger] t[k]) by {
            assert(t[k] == s[k]);
        }
        lemma_strip_trailing_id_chars(t);
    }
}

proof fn lemma_skip_to_letter(s: Seq<char>)
    requires
        all_id_chars(s),
    ensures
        all_id_chars(skip_to_letter(s)),
        skip_to_letter(s).len() > 0 ==> is_alpha(skip_to_letter(s)[0]),
    decreases s.len(),
{
    if s.len() > 0 && !is_alpha(s[0]) {
        let t = s.drop_first();
        assert forall|k: int| 0 <= k < t.len() implies crate::recipe::is_id_char(#[trigger] t[k]) by {
            assert(t[k] == s[k + 1]);
        }
        lemma_skip_to_letter(t);
    }
}

/// An id derived from a title is always a legal rhei id: deriving never
/// produces an id that would not load.
pub proof fn lemma_derived_id_is_legal(title: Seq<char>)
    ensures
        derive_rhei_id_spec(title) matches Some(id) ==> valid_rhei_id(id),
{
    let s0 = slug(title);
    lemma_slug_id_chars(title);
    lemma_strip_leading_id_chars(s0);
    let s1 = strip_leading_dashes(s0);
    lemma_strip_trailing_id_chars(s1);
    let s2 = strip_trailing_dashes(s1);
    lemma_skip_to_letter(s2);
}

pub open spec fn has_letter(s: Seq<char>) -> bool {
    exists|k: int| 0 <= k < s.len() && is_alpha(#[trigger] s[k])
}

pub open spec fn no_upper(s: Seq<char>) -> bool {
    forall|k: int| 0 <= k < s.len() ==> !crate::text::is_upper(#[trigger] s[k])
}

proof fn lemma_lower_not_upper(c: char)
    ensures
        !crate::text::is_upper(lower(c)),
        is_alpha(lower(c)) == is_alpha(c),
        kept_char(lower(c)) == crate::recipe::is_id_char(lower(c)),
{
    if crate::text::is_upper(c) {
        assert((c as u32) + 32 >= 'a' as u32 && (c as u32) + 32 <= 'z' as u32);
    }
}

proof fn lemma_slug_letters_case(s: Seq<char>)
    ensures
        has_letter(slug(s)) == has_letter(s),
        no_upper(slug(s)),
        slug(s.drop_last()).len() <= slug(s).len() || s.len() == 0,
    decreases s.len(),
{
    if s.len() > 0 {
        let t = s.drop_last();
        lemma_slug_letters_case(t);
        let o = slug(t);
        let r = slug(s);
        let c = lower(s.last());
        lemma_lower_not_upper(s.last());
        assert forall|k: int| 0 <= k < o.len() implies r[k] == o[k] by {}
        assert forall|k: int| 0 <= k < r.len() implies !crate::text::is_upper(#[trigger] r[k]) by {
            if k < o.len() {
                assert(r[k] == o[k]);
            }
        }
        if has_letter(s) {
            let k = choose|k: int| 0 <= k < s.len() && is_alpha(#[trigger] s[k]);
            if k < t.len() {
                assert(t[k] == s[k]);
                assert(has_letter(t));
                let j = choose|j: int| 0 <= j < o.len() && is_alpha(#[trigger] o[j]);
                assert(r[j] == o[j]);
            } else {
                assert(r[r.len() - 1] == c);
            }
        }
        if has_letter(r) {
            let j = choose|j: int| 0 <= j < r.len() && is_alpha(#[trigger] r[j]);
            if j < o.len() {
                assert(r[j] == o[j]);
                assert(has_letter(o));
                let k = choose|k: int| 0 <= k < t.len() && is_alpha(#[trigger] t[k]);
                assert(s[k] == t[k]);
            } else {
                assert(r[j] == c);
                assert(s[s.len() - 1] == s.last());
            }
        }
    }
}

proof fn lemma_strip_leading_shape(s: Seq<char>)
    ensures
        strip_leading_dashes(s).len() <= s.len(),
        strip_leading_dashes(s) == s.subrange(s.len() - strip_leading_dashes(s).len(), s.len() as int),
        forall|k: int| 0 <= k < s.len() - strip_leading_dashes(s).len() ==> #[trigger] s[k] == '-',
        strip_leading_dashes(s).len() > 0 ==> strip_leading_dashes(s)[0] != '-',
    decreases s.len(),
{
    if s.len() > 0 && s[0] == '-' {
        let t = s.drop_first();
        lemma_strip_leading_shape(t);
        assert forall|k: int| 0 <= k < s.len() - strip_leading_dashes(s).len() implies #[trigger] s[k] == '-' by {
            if k > 0 {
                assert(s[k] == t[k - 1]);
            }
        }
        assert(strip_leading_dashes(t).len() <= t.len());
        assert(t.subrange(t.len() - strip_leading_dashes(t).len(), t.len() as int) =~= s.subrange(
            s.len() - strip_leading_dashes(s).len(),
            s.len() as int,
        ));
    } else {
        assert(s.subrange(0, s.len() as int) =~= s);
    }
}

proof fn lemma_strip_trailing_shape(s: Seq<char>)
    ensures
        strip_trailing_dashes(s).len() <= s.len(),
        strip_trailing_dashes(s) == s.subrange(0, strip_trailing_dashes(s).len() as int),
        forall|k: int| strip_trailing_dashes(s).len() <= k < s.len() ==> #[trigger] s[k] == '-',
        strip_trailing_dashes(s).len() > 0 ==> strip_trailing_dashes(s).last() != '-',
    decreases s.len(),
{
    if s.len() > 0 && s.last() == '-' {
        let t = s.drop_last();
        lemma_strip_trailing_shape(t);
        assert forall|k: int| strip_trailing_dashes(s).len() <= k < s.len() implies #[trigger] s[k] == '-' by {
            if k < t.len() {
                assert(s[k] == t[k]);
            }
        }
        assert(strip_trailing_dashes(t).len() <= t.len());
        assert(t.subrange(0, strip_trailing_dashes(t).len() as int) =~= s.subrange(
            0,
            strip_trailing_dashes(s).len() as int,
        ));
    } else {
        assert(s.subrange(0, s.len() as int) =~= s);
    }
}

proof fn lemma_skip_to_letter_shape(s: Seq<char>)
    ensures
        skip_to_letter(s).len() <= s.len(),
        skip_to_letter(s) == s.subrange(s.len() - skip_to_letter(s).len(), s.len() as int),
        forall|k: int| 0 <= k < s.len() - skip_to_letter(s).len() ==> !is_alpha(#[trigger] s[k]),
        skip_to_letter(s).len() > 0 ==> is_alpha(skip_to_letter(s)[0]),
    decreases s.len(),
{
    if s.len() > 0 && !is_alpha(s[0]) {
        let t = s.drop_first();
        lemma_skip_to_letter_shape(t);
        assert forall|k: int| 0 <= k < s.len() - skip_to_letter(s).len() implies !is_alpha(#[trigger] s[k]) by {
            if k > 0 {
                assert(s[k] == t[k - 1]);
            }
        }
        assert(skip_to_letter(t).len() <= t.len());
        assert(t.subrange(t.len() - skip_to_letter(t).len(), t.len() as int) =~= s.subrange(
            s.len() - skip_to_letter(s).len(),
            s.len() as int,
        ));
    } else {
        assert(s.subrange(0, s.len() as int) =~= s);
    }
}

/// A subrange keeps the absence of upper-case letters.
proof fn lemma_no_upper_subrange(s: Seq<char>, a: int, b: int)
    requires
        no_upper(s),
        0 <= a <= b <= s.len(),
    ensures
        no_upper(s.subrange(a, b)),
{
    assert forall|k: int| 0 <= k < b - a implies !crate::text::is_upper(#[trigger] s.subrange(a, b)[k]) by {
        assert(s.subrange(a, b)[k] == s[a + k]);
    }
}

/// A text made of lower-case id characters is its own slug.
proof fn lemma_slug_fixed(s: Seq<char>)
    requires
        forall|k: int| 0 <= k < s.len() ==> crate::recipe::is_id_char(#[trigger] s[k]),
        no_upper(s),
    ensures
        slug(s) == s,
    decreases s.len(),
{
    if s.len() > 0 {
        let t = s.drop_last();
        assert forall|k: int| 0 <= k < t.len() implies crate::recipe::is_id_char(#[trigger] t[k]) by {
            assert(t[k] == s[k]);
        }
        assert forall|k: int| 0 <= k < t.len() implies !crate::text::is_upper(#[trigger] t[k]) by {
            assert(t[k] == s[k]);
        }
        lemma_slug_fixed(t);
        assert(crate::recipe::is_id_char(s[s.len() - 1]));
        assert(!crate::text::is_upper(s[s.len() - 1]));
        assert(t.push(s.last()) =~= s);
    }
}

/// What deriving a rhei id from a title gives: a legal id in lower case that
/// does not end in `-` and derives to itself; and nothing exactly when the
/// title holds no ASCII letter.
pub proof fn lemma_derived_id_shape(title: Seq<char>)
    ensures
        derive_rhei_id_spec(title) is None <==> !has_letter(title),
        derive_rhei_id_spec(title) matches Some(id) ==> {
            &&& valid_rhei_id(id)
            &&& lower_seq(id) == id
            &&& id.last() != '-'
            &&& derive_rhei_id_spec(id) == Some(id)
        },
{
    lemma_derived_id_is_legal(title);
    let s0 = slug(title);
    lemma_slug_letters_case(title);
    let s1 = strip_leading_dashes(s0);
    lemma_strip_leading_shape(s0);
    let s2 = strip_trailing_dashes(s1);
    lemma_strip_trailing_shape(s1);
    let d = skip_to_letter(s2);
    lemma_skip_to_letter_shape(s2);
    // letters survive the dashes being stripped
    if has_letter(s0) {
        let k = choose|k: int| 0 <= k < s0.len() && is_alpha(#[trigger] s0[k]);
        let off = s0.len() - s1.len();
        assert(k >= off);
        assert(s1[k - off] == s0[k]);
        assert(has_letter(s1));
        let j = choose|j: int| 0 <= j < s1.len() && is_alpha(#[trigger] s1[j]);
        assert(j < s2.len());
        assert(s2[j] == s1[j]);
        assert(has_letter(s2));
        let i = choose|i: int| 0 <= i < s2.len() && is_alpha(#[trigger] s2[i]);
        assert(d.len() > 0);
    }
    if d.len() > 0 {
        assert(d[0] == s2[s2.len() - d.len()]);
        let i = s2.len() - d.len();
        assert(s1[i] == s2[i]);
        let off = s0.len() - s1.len();
        assert(s0[i + off] == s1[i]);
        assert(has_letter(s0));
        // lower case throughout
        lemma_no_upper_subrange(s0, off, s0.len() as int);
        lemma_no_upper_subrange(s1, 0, s2.len() as int);
        lemma_no_upper_subrange(s2, i, s2.len() as int);
        assert(lower_seq(d) =~= d) by {
            assert forall|k: int| 0 <= k < d.len() implies lower_seq(d)[k] == d[k] by {
                assert(!crate::text::is_upper(d[k]));
            }
        }
        // the last character is the stripped text's last
        assert(d.last() == s2.last());
        // deriving again changes nothing
        lemma_slug_fixed(d);
        assert(strip_leading_dashes(d) == d);
        assert(strip_trailing_dashes(d) == d);
        assert(skip_to_letter(d) == d);
    }
}

proof fn lemma_highest_bounds(ids: Seq<Seq<char>>, k: int, j: int)
    requires
        0 <= j < k <= ids.len(),
        parse_u32_spec(ids[j]) is Some,
    ensures
        highest_sibling(ids, k) matches Some(h) && parse_u32_spec(ids[j])->0 <= h,
    decreases k,
{
    if j < k - 1 {
        lemma_highest_bounds(ids, k - 1, j);
    }
}

/// The number the next sibling takes is no sibling's id, unless the
/// numbering is saturated at `u32::MAX`: a create never hands out an id
/// that is already taken.
pub proof fn lemma_next_sibling_is_free(ids: Seq<Seq<char>>)
    requires
        !(highest_sibling(ids, ids.len() as int) matches Some(h) && h == u32::MAX),
    ensures
        !ids.contains(decimal(next_sibling_spec(ids) as nat)),
{
    let n = next_sibling_spec(ids);
    if ids.contains(decimal(n as nat)) {
        let j = choose|j: int| 0 <= j < ids.len() && ids[j] == decimal(n as nat);
        crate::text::lemma_parse_decimal(n as u64);
        assert(parse_u32_spec(ids[j]) == Some(n));
        lemma_highest_bounds(ids, ids.len() as int, j);
    }
}


// ---------------------------------------------------------------------------
// Task ids as typed
// ---------------------------------------------------------------------------

/// One segment of a task id: a number, or a name.
#[derive(Debug, PartialEq)]
pub enum IdSegment {
    Number(u32),
    Named(String),
}

pub enum SegmentView {
    Number(u32),
    Named(Seq<char>),
}

pub open spec fn segment_view(s: IdSegment) -> SegmentView {
    match s {
        IdSegment::Number(n) => SegmentView::Number(n),
        IdSegment::Named(t) => SegmentView::Named(t@),
    }
}

/// A typed task id: each `.`-separated part a number when it parses as a
/// `u32`, else a name; an empty id, or one with an empty part, is a single
/// named segment, so a lookup of it fails as "not found".
pub open spec fn task_id_spec(s: Seq<char>) -> Seq<SegmentView> {
    let parts = split_on(s, '.');
    if s.len() == 0 || exists|k: int| 0 <= k < parts.len() && (#[trigger] parts[k]).len() == 0 {
        seq![SegmentView::Named(s)]
    } else {
        Seq::new(
            parts.len(),
            |k: int|
                match parse_u32_spec(parts[k]) {
                    Some(n) => SegmentView::Number(n),
                    None => SegmentView::Named(parts[k]),
                },
        )
    }
}

/// Parse a task id as typed on the command line.
pub fn parse_task_id(s: &str) -> (r: Vec<IdSegment>)
    ensures
        Seq::new(r@.len(), |k: int| segment_view(r@[k])) == task_id_spec(s@),
{
    let v = chars_of(s);
    let parts = split_chars(v.as_slice(), '.');
    let ghost ps = split_on(s@, '.');
    if v.len() == 0 {
        let out = vec![IdSegment::Named(String::from_str(s))];
        assert(Seq::new(out@.len(), |k: int| segment_view(out@[k])) =~= task_id_spec(s@));
        return out;
    }
    let mut out: Vec<IdSegment> = Vec::new();
    let mut k: usize = 0;
    while k < parts.len()
        invariant
            v@ == s@,
            v@.len() > 0,
            ps == split_on(s@, '.'),
            parts@.len() == ps.len(),
            forall|q: int| 0 <= q < parts@.len() ==> (#[trigger] parts@[q])@ == ps[q],
            k <= parts@.len(),
            forall|q: int| 0 <= q < k ==> (#[trigger] ps[q]).len() > 0,
            out@.len() == k,
            forall|q: int|
                0 <= q < k ==> segment_view(#[trigger] out@[q]) == match parse_u32_spec(ps[q]) {
                    Some(n) => SegmentView::Number(n),
                    None => SegmentView::Named(ps[q]),
                },
        decreases parts@.len() - k,
    {
        if parts[k].len() == 0 {
            let named = vec![IdSegment::Named(String::from_str(s))];
            assert(ps[k as int].len() == 0);
            assert(Seq::new(named@.len(), |q: int| segment_view(named@[q])) =~= task_id_spec(s@));
            return named;
        }
        let piece = string_of(parts[k].as_slice());
        let n = parse_u64(parts[k].as_slice());
        let seg = match n {
            Some(x) => if x <= 4294967295u64 {
                IdSegment::Number(x as u32)
            } else {
                IdSegment::Named(piece)
            },
            None => IdSegment::Named(piece),
        };
        out.push(seg);
        k += 1;
    }
    assert(Seq::new(out@.len(), |q: int| segment_view(out@[q])) =~= task_id_spec(s@));
    out
}

} // verus!
