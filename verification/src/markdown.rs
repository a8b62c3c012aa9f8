//! The markdown `rhei new` writes, and where it goes: a rhei file's header,
//! one ticket node, and splicing a rendered block into an authored file
//! without touching the text on either side of it, in the file's own line
//! terminator.
use vstd::prelude::*;
use crate::recipe::{find_char, first_index};
use crate::text::{
    chars_of, has_prefix, starts_with, trim_start, trimmed_start, has_suffix, join, join_strings, lower, lower_seq, push_char, push_chars, push_str,
    slice_vec, split_on, split_chars, string_of, to_ascii_lower, to_ascii_upper, trim, trim_string,
    trimmed, u64_to_string, upper, decimal,
};

verus! {

pub open spec fn opt_view(o: Option<String>) -> Option<Seq<char>> {
    match o {
        Some(s) => Some(s@),
        None => None,
    }
}

pub open spec fn string_views(v: Seq<String>) -> Seq<Seq<char>> {
    Seq::new(v.len(), |i: int| v[i]@)
}

// ---------------------------------------------------------------------------
// Rendering
// ---------------------------------------------------------------------------

/// A description trimmed to a body worth writing; `None` when it is blank.
pub open spec fn description_body_spec(d: Option<Seq<char>>) -> Option<Seq<char>> {
    match d {
        Some(s) => if trim(s).len() == 0 {
            None
        } else {
            Some(trim(s))
        },
        None => None,
    }
}

/// Trim a description to a body worth writing, or `None` when it is blank.
pub fn description_body(description: &Option<String>) -> (r: Option<String>)
    ensures
        opt_view(r) == description_body_spec(opt_view(*description)),
{
    match description {
        None => None,
        Some(d) => {
            let body = trim_string(d.as_str());
            if crate::text::char_len(body.as_str()) == 0 {
                None
            } else {
                Some(body)
            }
        },
    }
}

/// A blank line, then the description, when there is one.
pub open spec fn description_part(d: Option<Seq<char>>) -> Seq<char> {
    match description_body_spec(d) {
        Some(b) => "\n"@ + b + "\n"@,
        None => Seq::empty(),
    }
}

fn push_description(out: &mut String, description: &Option<String>)
    ensures
        final(out)@ == old(out)@ + description_part(opt_view(*description)),
{
    match description_body(description) {
        Some(b) => {
            push_str(out, "\n");
            push_str(out, b.as_str());
            push_str(out, "\n");
        },
        None => {},
    }
}

/// Header fields shared by a single-file rhei and a workspace index.
#[derive(Debug, PartialEq)]
pub struct RheiHeader {
    pub title: String,
    pub states: Option<String>,
    pub max_levels: Option<u8>,
    pub node_kinds: Vec<String>,
    pub description: Option<String>,
}

/// Node kinds as the `nodeKinds:` list writes them: trimmed, lowercased.
pub open spec fn kinds_list(kinds: Seq<Seq<char>>) -> Seq<char> {
    join(Seq::new(kinds.len(), |i: int| lower_seq(trim(kinds[i]))), ", "@)
}

/// A rhei's header in the order the plan language fixes: heading,
/// `**States:**`, the `structure:` frontmatter, description, and the
/// `## Tasks` heading when asked for.
pub open spec fn render_rhei_spec(
    title: Seq<char>,
    states: Option<Seq<char>>,
    max_levels: Option<u8>,
    kinds: Seq<Seq<char>>,
    description: Option<Seq<char>>,
    with_tasks: bool,
) -> Seq<char> {
    let heading = "# Rhei: "@ + trim(title) + "\n"@;
    let states_line = match states {
        Some(s) => "**States:** "@ + trim(s) + "\n"@,
        None => Seq::empty(),
    };
    let structure = if max_levels is Some || kinds.len() > 0 {
        "\n---\nstructure:\n"@ + match max_levels {
            Some(m) => "  maxLevels: "@ + decimal(m as nat) + "\n"@,
            None => Seq::empty(),
        } + if kinds.len() > 0 {
            "  nodeKinds: ["@ + kinds_list(kinds) + "]\n"@
        } else {
            Seq::empty()
        } + "---\n"@
    } else {
        Seq::empty()
    };
    let tasks = if with_tasks {
        "\n## Tasks\n"@
    } else {
        Seq::empty()
    };
    heading + states_line + structure + description_part(description) + tasks
}

fn lowercase_string(s: &str) -> (r: String)
    ensures
        r@ == lower_seq(s@),
{
    let v = chars_of(s);
    let mut out = String::new();
    let mut i: usize = 0;
    while i < v.len()
        invariant
            v@ == s@,
            i <= v@.len(),
            out@ == lower_seq(v@.take(i as int)),
        decreases v@.len() - i,
    {
        push_char(&mut out, to_ascii_lower(v[i]));
        assert(lower_seq(v@.take(i + 1)) =~= lower_seq(v@.take(i as int)).push(lower(v@[i as int])));
        i += 1;
    }
    assert(v@.take(v@.len() as int) =~= v@);
    out
}

/// Each string trimmed, and lowercased when asked.
fn trimmed_all(values: &Vec<String>, lowercase: bool) -> (r: Vec<String>)
    ensures
        r@.len() == values@.len(),
        string_views(r@) == Seq::new(
            values@.len(),
            |q: int|
                if lowercase {
                    lower_seq(trim(values@[q]@))
                } else {
                    trim(values@[q]@)
                },
        ),
{
    let ghost want = Seq::new(
        values@.len(),
        |q: int|
            if lowercase {
                lower_seq(trim(values@[q]@))
            } else {
                trim(values@[q]@)
            },
    );
    let mut out: Vec<String> = Vec::new();
    let mut i: usize = 0;
    while i < values.len()
        invariant
            i <= values@.len(),
            want == Seq::new(
                values@.len(),
                |q: int|
                    if lowercase {
                        lower_seq(trim(values@[q]@))
                    } else {
                        trim(values@[q]@)
                    },
            ),
            string_views(out@) == want.take(i as int),
        decreases values@.len() - i,
    {
        let t = trim_string(values[i].as_str());
        let x = if lowercase {
            lowercase_string(t.as_str())
        } else {
            t
        };
        let ghost before = out@;
        out.push(x);
        assert(string_views(out@) =~= string_views(before).push(x@));
        assert(want.take(i + 1) =~= want.take(i as int).push(want[i as int]));
        i += 1;
    }
    assert(want.take(values@.len() as int) =~= want);
    out
}

/// The `nodeKinds:` list text.
fn kinds_text(kinds: &Vec<String>) -> (r: String)
    ensures
        r@ == kinds_list(string_views(kinds@)),
{
    let lowered = trimmed_all(kinds, true);
    let joined = join_strings(&lowered, ", ");
    proof {
        assert forall|q: int| 0 <= q < kinds@.len() implies #[trigger] lowered@[q]@ == lower_seq(
            trim(string_views(kinds@)[q]),
        ) by {
            assert(string_views(lowered@)[q] == lowered@[q]@);
        }
        assert(lowered@.map_values(|p: String| p@) =~= Seq::new(
            kinds@.len(),
            |q: int| lower_seq(trim(string_views(kinds@)[q])),
        ));
    }
    joined
}

fn structure_text(max_levels: Option<u8>, kinds: &Vec<String>) -> (r: String)
    ensures
        r@ == (if max_levels is Some || kinds@.len() > 0 {
            "\n---\nstructure:\n"@ + match max_levels {
                Some(m) => "  maxLevels: "@ + decimal(m as nat) + "\n"@,
                None => Seq::empty(),
            } + if kinds@.len() > 0 {
                "  nodeKinds: ["@ + kinds_list(string_views(kinds@)) + "]\n"@
            } else {
                Seq::empty()
            } + "---\n"@
        } else {
            Seq::empty()
        }),
{
    let mut out = String::new();
    if max_levels.is_some() || kinds.len() > 0 {
        push_str(&mut out, "\n---\nstructure:\n");
        let ghost a = out@;
        match max_levels {
            Some(m) => {
                push_str(&mut out, "  maxLevels: ");
                let d = u64_to_string(m as u64);
                push_str(&mut out, d.as_str());
                push_str(&mut out, "\n");
            },
            None => {},
        }
        let ghost b = out@;
        if kinds.len() > 0 {
            let k = kinds_text(kinds);
            push_str(&mut out, "  nodeKinds: [");
            push_str(&mut out, k.as_str());
            push_str(&mut out, "]\n");
        }
        push_str(&mut out, "---\n");
    }
    out
}

/// Render a rhei's header. `with_tasks_section` appends the `## Tasks`
/// heading a single-file rhei requires and a workspace index must not have.
pub fn render_rhei_file(header: &RheiHeader, with_tasks_section: bool) -> (r: String)
    ensures
        r@ == render_rhei_spec(
            header.title@,
            opt_view(header.states),
            header.max_levels,
            string_views(header.node_kinds@),
            opt_view(header.description),
            with_tasks_section,
        ),
{
    let mut out = String::new();
    push_str(&mut out, "# Rhei: ");
    let t = trim_string(header.title.as_str());
    push_str(&mut out, t.as_str());
    push_str(&mut out, "\n");
    match &header.states {
        Some(s) => {
            push_str(&mut out, "**States:** ");
            let st = trim_string(s.as_str());
            push_str(&mut out, st.as_str());
            push_str(&mut out, "\n");
        },
        None => {},
    }
    let structure = structure_text(header.max_levels, &header.node_kinds);
    push_str(&mut out, structure.as_str());
    push_description(&mut out, &header.description);
    if with_tasks_section {
        push_str(&mut out, "\n## Tasks\n");
    }
    proof {
        assert(out@ =~= render_rhei_spec(
            header.title@,
            opt_view(header.states),
            header.max_levels,
            string_views(header.node_kinds@),
            opt_view(header.description),
            with_tasks_section,
        ));
    }
    out
}

/// Every metadata field a new ticket can carry, in plan-language order.
#[derive(Debug, PartialEq)]
pub struct TicketFields {
    pub kind: String,
    pub local_id: String,
    pub title: String,
    pub state: String,
    pub prior: Vec<String>,
    pub provides: Vec<String>,
    pub consumes: Vec<String>,
    pub assignee: Option<String>,
    pub model: Option<String>,
    pub target: Option<String>,
    pub description: Option<String>,
}

/// A node kind as a heading writes it: its first character upper-cased.
pub open spec fn title_case(kind: Seq<char>) -> Seq<char> {
    if kind.len() == 0 {
        kind
    } else {
        kind.update(0, upper(kind[0]))
    }
}

/// The kind as a node heading writes it.
pub fn title_case_kind(kind: &str) -> (r: String)
    ensures
        r@ == title_case(kind@),
{
    let mut v = chars_of(kind);
    if v.len() > 0 {
        let c = to_ascii_upper(v[0]);
        v.set(0, c);
    }
    string_of(v.as_slice())
}

/// `**Label:** a, b, c` for a non-empty list of values, each trimmed.
pub open spec fn list_field(label: Seq<char>, values: Seq<Seq<char>>) -> Seq<char> {
    if values.len() == 0 {
        Seq::empty()
    } else {
        "**"@ + label + ":** "@ + join(Seq::new(values.len(), |i: int| trim(values[i])), ", "@)
            + "\n"@
    }
}

/// `**Label:** value` for a value that is there, trimmed.
pub open spec fn opt_field(label: Seq<char>, value: Option<Seq<char>>) -> Seq<char> {
    match value {
        Some(v) => "**"@ + label + ":** "@ + trim(v) + "\n"@,
        None => Seq::empty(),
    }
}

/// A ticket node. The heading level follows the id depth: a rhei-local
/// `1.2` is a `####`.
pub open spec fn render_ticket_spec(f: TicketFields) -> Seq<char> {
    let depth = split_on(f.local_id@, '.').len();
    let hashes = Seq::new(depth + 2, |i: int| '#');
    hashes + " "@ + title_case(f.kind@) + " "@ + f.local_id@ + ": "@ + trim(f.title@) + "\n"@
        + "**State:** "@ + f.state@ + "\n"@
        + list_field("Prior"@, string_views(f.prior@))
        + list_field("Provides"@, string_views(f.provides@))
        + list_field("Consumes"@, string_views(f.consumes@))
        + opt_field("Assignee"@, opt_view(f.assignee))
        + opt_field("Model"@, opt_view(f.model))
        + opt_field("Target"@, opt_view(f.target))
        + description_part(opt_view(f.description))
}

fn push_list_field(out: &mut String, label: &str, values: &Vec<String>)
    ensures
        final(out)@ == old(out)@ + list_field(label@, string_views(values@)),
{
    if values.len() > 0 {
        let parts = trimmed_all(values, false);
        let joined = join_strings(&parts, ", ");
        proof {
            assert forall|q: int| 0 <= q < values@.len() implies #[trigger] parts@[q]@ == trim(
                string_views(values@)[q],
            ) by {
                assert(string_views(parts@)[q] == parts@[q]@);
            }
            assert(parts@.map_values(|p: String| p@) =~= Seq::new(
                values@.len(),
                |q: int| trim(string_views(values@)[q]),
            ));
        }
        push_str(out, "**");
        push_str(out, label);
        push_str(out, ":** ");
        push_str(out, joined.as_str());
        push_str(out, "\n");
    }
}

fn push_opt_field(out: &mut String, label: &str, value: &Option<String>)
    ensures
        final(out)@ == old(out)@ + opt_field(label@, opt_view(*value)),
{
    match value {
        Some(v) => {
            push_str(out, "**");
            push_str(out, label);
            push_str(out, ":** ");
            let t = trim_string(v.as_str());
            push_str(out, t.as_str());
            push_str(out, "\n");
        },
        None => {},
    }
}

/// Render one ticket node.
pub fn render_ticket(fields: &TicketFields) -> (r: String)
    ensures
        r@ == render_ticket_spec(*fields),
{
    let id = chars_of(fields.local_id.as_str());
    let pieces = split_chars(id.as_slice(), '.');
    let depth = pieces.len();
    let mut out = String::new();
    push_str(&mut out, "##");
    proof {
        reveal_strlit("##");
        assert(out@ =~= Seq::new(2nat, |i: int| '#'));
    }
    let mut k: usize = 0;
    while k < depth
        invariant
            k <= depth,
            out@ == Seq::new((k + 2) as nat, |i: int| '#'),
        decreases depth - k,
    {
        push_char(&mut out, '#');
        assert(out@ =~= Seq::new((k + 3) as nat, |i: int| '#'));
        k += 1;
    }
    push_str(&mut out, " ");
    let kind = title_case_kind(fields.kind.as_str());
    push_str(&mut out, kind.as_str());
    push_str(&mut out, " ");
    push_str(&mut out, fields.local_id.as_str());
    push_str(&mut out, ": ");
    let title = trim_string(fields.title.as_str());
    push_str(&mut out, title.as_str());
    push_str(&mut out, "\n");
    push_str(&mut out, "**State:** ");
    push_str(&mut out, fields.state.as_str());
    push_str(&mut out, "\n");
    push_list_field(&mut out, "Prior", &fields.prior);
    push_list_field(&mut out, "Provides", &fields.provides);
    push_list_field(&mut out, "Consumes", &fields.consumes);
    push_opt_field(&mut out, "Assignee", &fields.assignee);
    push_opt_field(&mut out, "Model", &fields.model);
    push_opt_field(&mut out, "Target", &fields.target);
    push_description(&mut out, &fields.description);
    proof {
        assert(out@ =~= render_ticket_spec(*fields));
    }
    out
}

// ---------------------------------------------------------------------------
// Line terminators
// ---------------------------------------------------------------------------

/// The number of `\n` in `s`.
pub open spec fn count_lf(s: Seq<char>) -> nat
    decreases s.len(),
{
    if s.len() == 0 {
        0
    } else {
        count_lf(s.drop_last()) + if s.last() == '\n' {
            1nat
        } else {
            0nat
        }
    }
}

/// The number of `\r\n` in `s`.
pub open spec fn count_crlf(s: Seq<char>) -> nat
    decreases s.len(),
{
    if s.len() == 0 {
        0
    } else {
        count_crlf(s.drop_last()) + if s.len() >= 2 && s.last() == '\n' && s[s.len() - 2] == '\r' {
            1nat
        } else {
            0nat
        }
    }
}

proof fn lemma_crlf_le_lf(s: Seq<char>)
    ensures
        count_crlf(s) <= count_lf(s),
    decreases s.len(),
{
    if s.len() > 0 {
        lemma_crlf_le_lf(s.drop_last());
    }
}

/// The terminator a file already uses: `\r\n` when CRLF is the majority,
/// `\n` otherwise.
pub open spec fn eol_spec(raw: Seq<char>) -> Seq<char> {
    if count_crlf(raw) > count_lf(raw) - count_crlf(raw) {
        seq!['\r', '\n']
    } else {
        seq!['\n']
    }
}

/// The line terminator `raw` mostly uses. A splice that re-joined with `\n`
/// would rewrite every line of a CRLF file.
pub fn dominant_line_ending(raw: &str) -> (r: String)
    ensures
        r@ == eol_spec(raw@),
{
    let v = chars_of(raw);
    let mut crlf: usize = 0;
    let mut lf: usize = 0;
    let mut i: usize = 0;
    assert(v@.take(0) =~= Seq::<char>::empty());
    while i < v.len()
        invariant
            v@ == raw@,
            i <= v@.len(),
            crlf == count_crlf(v@.take(i as int)),
            lf == count_lf(v@.take(i as int)),
            lf <= i,
        decreases v@.len() - i,
    {
        let ghost t = v@.take(i + 1);
        assert(t.drop_last() =~= v@.take(i as int));
        if v[i] == '\n' {
            lf += 1;
            if i >= 1 && v[i - 1] == '\r' {
                proof {
                    lemma_crlf_le_lf(v@.take(i as int));
                }
                crlf += 1;
            }
        }
        i += 1;
    }
    assert(v@.take(v@.len() as int) =~= v@);
    proof {
        lemma_crlf_le_lf(v@);
    }
    let mut out = String::new();
    if crlf > lf - crlf {
        push_char(&mut out, '\r');
    }
    push_char(&mut out, '\n');
    assert(out@ =~= eol_spec(raw@));
    out
}

/// `text` without one line terminator, CRLF before LF; `None` when it does
/// not end on a line boundary.
pub open spec fn strip_eol(s: Seq<char>) -> Option<Seq<char>> {
    if s.len() >= 2 && s.last() == '\n' && s[s.len() - 2] == '\r' {
        Some(s.take(s.len() - 2))
    } else if s.len() >= 1 && s.last() == '\n' {
        Some(s.drop_last())
    } else {
        None
    }
}

/// Strip one line terminator from the end of `text`.
pub fn strip_one_line_ending(text: &str) -> (r: Option<String>)
    ensures
        opt_view(r) == strip_eol(text@),
{
    let v = chars_of(text);
    let n = v.len();
    if n >= 2 && v[n - 1] == '\n' && v[n - 2] == '\r' {
        let body = slice_vec(&v, 0, n - 2);
        assert(body@ =~= v@.take(n - 2));
        Some(string_of(body.as_slice()))
    } else if n >= 1 && v[n - 1] == '\n' {
        let body = slice_vec(&v, 0, n - 1);
        assert(body@ =~= v@.drop_last());
        Some(string_of(body.as_slice()))
    } else {
        None
    }
}

/// Text that already ends in a blank line.
pub open spec fn ends_blank(raw: Seq<char>) -> bool {
    match strip_eol(raw) {
        Some(b) => b.len() == 0 || strip_eol(b) is Some,
        None => false,
    }
}

/// True when `raw` already ends in a blank line, so a separator would make a
/// second one.
pub fn ends_with_blank_line(raw: &str) -> (r: bool)
    ensures
        r == ends_blank(raw@),
{
    match strip_one_line_ending(raw) {
        None => false,
        Some(body) => crate::text::char_len(body.as_str()) == 0 || strip_one_line_ending(body.as_str()).is_some(),
    }
}

/// Trailing `c` removed.
pub open spec fn trim_end_char(s: Seq<char>, c: char) -> Seq<char>
    decreases s.len(),
{
    if s.len() > 0 && s.last() == c {
        trim_end_char(s.drop_last(), c)
    } else {
        s
    }
}

/// The end of `v[from..to]` once trailing `c` are removed.
fn trim_end_char_at(v: &Vec<char>, from: usize, to: usize, c: char) -> (j: usize)
    requires
        from <= to <= v@.len(),
    ensures
        from <= j <= to,
        v@.subrange(from as int, j as int) == trim_end_char(v@.subrange(from as int, to as int), c),
{
    let mut j: usize = to;
    while j > from && v[j - 1] == c
        invariant
            from <= j <= to <= v@.len(),
            trim_end_char(v@.subrange(from as int, j as int), c) == trim_end_char(
                v@.subrange(from as int, to as int),
                c,
            ),
        decreases j,
    {
        assert(v@.subrange(from as int, j as int).drop_last() =~= v@.subrange(from as int, j - 1));
        j -= 1;
    }
    proof {
        let t = v@.subrange(from as int, j as int);
        if t.len() > 0 {
            assert(t.last() == v@[j - 1]);
        }
    }
    j
}

/// Each line with trailing `\r` removed, followed by `eol`.
pub open spec fn with_eol(ls: Seq<Seq<char>>, eol: Seq<char>) -> Seq<char>
    decreases ls.len(),
{
    if ls.len() == 0 {
        Seq::empty()
    } else {
        with_eol(ls.drop_last(), eol) + trim_end_char(ls.last(), '\r') + eol
    }
}

/// A rendered block as written into a file: trailing `\n` removed, then
/// each line in the file's terminator.
pub open spec fn block_text(block: Seq<char>, eol: Seq<char>) -> Seq<char> {
    with_eol(split_on(trim_end_char(block, '\n'), '\n'), eol)
}

/// Append `block` to `out` line by line, each terminated with `eol`.
pub fn push_block_with(out: &mut String, block: &str, eol: &str)
    ensures
        final(out)@ == old(out)@ + block_text(block@, eol@),
{
    let v = chars_of(block);
    let end = trim_end_char_at(&v, 0, v.len(), '\n');
    let body = slice_vec(&v, 0, end);
    assert(v@.subrange(0, v@.len() as int) =~= v@);
    let pieces = split_chars(body.as_slice(), '\n');
    let ghost ls = split_on(trim_end_char(block@, '\n'), '\n');
    let ghost start = out@;
    let mut i: usize = 0;
    assert(ls.take(0) =~= Seq::<Seq<char>>::empty());
    while i < pieces.len()
        invariant
            pieces@.len() == ls.len(),
            forall|k: int| 0 <= k < pieces@.len() ==> (#[trigger] pieces@[k])@ == ls[k],
            i <= pieces@.len(),
            out@ == start + with_eol(ls.take(i as int), eol@),
        decreases pieces@.len() - i,
    {
        let p = &pieces[i];
        let e = trim_end_char_at(p, 0, p.len(), '\r');
        proof {
            assert(p@.subrange(0, p@.len() as int) =~= p@);
        }
        let line = slice_vec(p, 0, e);
        push_chars(out, line.as_slice());
        push_str(out, eol);
        proof {
            assert(ls.take(i + 1).drop_last() =~= ls.take(i as int));
            assert(ls.take(i + 1).last() == ls[i as int]);
            assert(out@ =~= start + with_eol(ls.take(i + 1), eol@));
        }
        i += 1;
    }
    assert(ls.take(ls.len() as int) =~= ls);
}

/// What goes between existing text and a new block: a terminator when the
/// text does not end on a line boundary, and one more unless it already
/// ends in a blank line. Nothing after empty text.
pub open spec fn separator(raw: Seq<char>, eol: Seq<char>) -> Seq<char> {
    if raw.len() == 0 {
        Seq::empty()
    } else {
        (if raw.last() == '\n' {
            Seq::empty()
        } else {
            eol
        }) + (if ends_blank(raw) {
            Seq::empty()
        } else {
            eol
        })
    }
}

/// End `out` on a line boundary and then on one blank line, in the file's
/// own terminator.
pub fn push_block_separator(out: &mut String, raw: &str, eol: &str)
    ensures
        final(out)@ == old(out)@ + separator(raw@, eol@),
{
    let v = chars_of(raw);
    if v.len() == 0 {
        assert(old(out)@ + separator(raw@, eol@) =~= old(out)@);
        return;
    }
    let ghost start = out@;
    if v[v.len() - 1] != '\n' {
        push_str(out, eol);
    }
    let ghost mid = out@;
    if !ends_with_blank_line(raw) {
        push_str(out, eol);
    }
    assert(out@ =~= start + separator(raw@, eol@));
}

/// A ticket appended at the end of a file, separated by one blank line.
pub open spec fn append_spec(raw: Seq<char>, block: Seq<char>) -> Seq<char> {
    raw + separator(raw, eol_spec(raw)) + block_text(block, eol_spec(raw))
}

/// Append a ticket at the end of a file, separated by one blank line: where
/// a top-level ticket goes, `## Tasks` being the final chapter.
pub fn append_ticket(raw: &str, block: &str) -> (r: String)
    ensures
        r@ == append_spec(raw@, block@),
{
    let eol = dominant_line_ending(raw);
    let mut out = String::new();
    push_str(&mut out, raw);
    push_block_separator(&mut out, raw, eol.as_str());
    push_block_with(&mut out, block, eol.as_str());
    out
}

// ---------------------------------------------------------------------------
// Lines and node headings
// ---------------------------------------------------------------------------

/// The pieces `str::split_inclusive('\n')` yields, as `(start, end)` spans:
/// each line with its terminator, the last one without if the text does not
/// end in `\n`.
pub open spec fn line_spans(s: Seq<char>) -> Seq<(int, int)>
    decreases s.len(),
{
    if s.len() == 0 {
        Seq::empty()
    } else {
        let p = line_spans(s.drop_last());
        if p.len() == 0 || s[s.len() - 2] == '\n' {
            p.push((s.len() - 1, s.len() as int))
        } else {
            p.update(p.len() - 1, (p.last().0, s.len() as int))
        }
    }
}

proof fn lemma_line_spans_bounds(s: Seq<char>)
    ensures
        forall|k: int|
            0 <= k < line_spans(s).len() ==> 0 <= (#[trigger] line_spans(s)[k]).0 < line_spans(s)[k].1
                <= s.len(),
        line_spans(s).len() > 0 ==> line_spans(s).last().1 == s.len(),
        s.len() > 0 ==> line_spans(s).len() > 0,
    decreases s.len(),
{
    if s.len() > 0 {
        lemma_line_spans_bounds(s.drop_last());
    }
}

/// A line's text: its terminator and any `\r` before it removed.
pub open spec fn line_text(s: Seq<char>, a: int, b: int) -> Seq<char> {
    trim_end_char(trim_end_char(s.subrange(a, b), '\n'), '\r')
}

fn spans_of(v: &Vec<char>) -> (r: Vec<(usize, usize)>)
    ensures
        r@.len() == line_spans(v@).len(),
        forall|k: int|
            0 <= k < r@.len() ==> (#[trigger] r@[k]).0 as int == line_spans(v@)[k].0 && r@[k].1 as int
                == line_spans(v@)[k].1,
{
    let mut out: Vec<(usize, usize)> = Vec::new();
    let mut i: usize = 0;
    assert(v@.take(0) =~= Seq::<char>::empty());
    while i < v.len()
        invariant
            i <= v@.len(),
            out@.len() == line_spans(v@.take(i as int)).len(),
            forall|k: int|
                0 <= k < out@.len() ==> (#[trigger] out@[k]).0 as int == line_spans(v@.take(i as int))[k].0
                    && out@[k].1 as int == line_spans(v@.take(i as int))[k].1,
        decreases v@.len() - i,
    {
        let ghost t = v@.take(i + 1);
        assert(t.drop_last() =~= v@.take(i as int));
        proof {
            lemma_line_spans_bounds(v@.take(i as int));
        }
        if out.len() == 0 || v[i - 1] == '\n' {
            proof {
                if out@.len() > 0 {
                    assert(t[t.len() - 2] == v@[i - 1]);
                }
            }
            out.push((i, i + 1));
        } else {
            assert(t[t.len() - 2] == v@[i - 1]);
            let last = out.len() - 1;
            let a = out[last].0;
            out.set(last, (a, i + 1));
        }
        i += 1;
    }
    assert(v@.take(v@.len() as int) =~= v@);
    out
}

/// Every line of `raw` as `(offset, text without its terminator)`, the
/// offset counted in characters. Splicing by offset copies the text on
/// either side through unchanged.
pub fn line_offsets(raw: &str) -> (r: Vec<(usize, String)>)
    ensures
        r@.len() == line_spans(raw@).len(),
        forall|k: int|
            0 <= k < r@.len() ==> (#[trigger] r@[k]).0 as int == line_spans(raw@)[k].0 && r@[k].1@
                == line_text(raw@, line_spans(raw@)[k].0, line_spans(raw@)[k].1),
{
    let v = chars_of(raw);
    let spans = spans_of(&v);
    proof {
        lemma_line_spans_bounds(v@);
    }
    let mut out: Vec<(usize, String)> = Vec::new();
    let mut k: usize = 0;
    while k < spans.len()
        invariant
            v@ == raw@,
            spans@.len() == line_spans(v@).len(),
            forall|q: int|
                0 <= q < spans@.len() ==> (#[trigger] spans@[q]).0 as int == line_spans(v@)[q].0
                    && spans@[q].1 as int == line_spans(v@)[q].1,
            forall|q: int|
                0 <= q < line_spans(v@).len() ==> 0 <= (#[trigger] line_spans(v@)[q]).0
                    < line_spans(v@)[q].1 <= v@.len(),
            k <= spans@.len(),
            out@.len() == k,
            forall|q: int|
                0 <= q < k ==> (#[trigger] out@[q]).0 as int == line_spans(v@)[q].0 && out@[q].1@
                    == line_text(v@, line_spans(v@)[q].0, line_spans(v@)[q].1),
        decreases spans@.len() - k,
    {
        let (a, b) = spans[k];
        assert(line_spans(v@)[k as int].0 == a);
        let line = line_of(&v, a, b);
        out.push((a, line));
        k += 1;
    }
    out
}

fn line_of(v: &Vec<char>, a: usize, b: usize) -> (r: String)
    requires
        a <= b <= v@.len(),
    ensures
        r@ == line_text(v@, a as int, b as int),
{
    let e1 = trim_end_char_at(v, a, b, '\n');
    let e2 = trim_end_char_at(v, a, e1, '\r');
    let ghost piece = v@.subrange(a as int, b as int);
    assert(v@.subrange(a as int, e2 as int) == trim_end_char(v@.subrange(a as int, e1 as int), '\r'));
    let line = slice_vec(v, a, e2);
    string_of(line.as_slice())
}

/// A fenced code block opens or closes on this line.
pub open spec fn is_code_fence(line: Seq<char>) -> bool {
    has_prefix(trim_start(line), seq!['`', '`', '`'])
}

/// The number of `#` a text starts with.
pub open spec fn leading_hashes(t: Seq<char>) -> nat
    decreases t.len(),
{
    if t.len() > 0 && t[0] == '#' {
        1 + leading_hashes(t.drop_first())
    } else {
        0
    }
}

/// A node heading, `### Kind ID: Title`: its level (the number of `#`,
/// one to six) and its id (what stands between the kind and the first `:`).
pub open spec fn node_heading(line: Seq<char>) -> Option<(nat, Seq<char>)> {
    let t = trim(line);
    let h = leading_hashes(t);
    if 1 <= h <= 6 && h < t.len() && t[h as int] == ' ' {
        let rest = t.skip(h as int + 1);
        match first_index(rest, ' ') {
            Some(k) => {
                let after = rest.skip(k + 1);
                match first_index(after, ':') {
                    Some(c) => if c > 0 {
                        Some((h, after.take(c)))
                    } else {
                        None
                    },
                    None => None,
                }
            },
            None => None,
        }
    } else {
        None
    }
}

/// One line of the heading scan: a fence line flips whether the scan is in
/// a code block; outside one, a node heading is reported.
pub open spec fn heading_step(line: Seq<char>, in_code: bool) -> (bool, Option<(nat, Seq<char>)>) {
    if is_code_fence(line) {
        (!in_code, None)
    } else if in_code {
        (in_code, None)
    } else {
        (in_code, node_heading(line))
    }
}

fn count_leading_hashes(t: &Vec<char>) -> (h: usize)
    ensures
        h == leading_hashes(t@),
        h <= t@.len(),
        forall|q: int| 0 <= q < h ==> t@[q] == '#',
        h < t@.len() ==> t@[h as int] != '#',
{
    let mut h: usize = 0;
    assert(t@.skip(0) =~= t@);
    while h < t.len() && t[h] == '#'
        invariant
            h <= t@.len(),
            leading_hashes(t@) == h + leading_hashes(t@.skip(h as int)),
            forall|q: int| 0 <= q < h ==> t@[q] == '#',
        decreases t@.len() - h,
    {
        assert(t@.skip(h as int).drop_first() =~= t@.skip(h + 1));
        h += 1;
    }
    h
}

/// The node heading on `line`, if any, keeping track of code fences in
/// `in_code_block`: headings inside a fenced block are content.
pub fn node_heading_outside_code(line: &str, in_code_block: &mut bool) -> (r: Option<(usize, String)>)
    ensures
        heading_step(line@, *old(in_code_block)).0 == *final(in_code_block),
        match r {
            Some((h, id)) => heading_step(line@, *old(in_code_block)).1 == Some((h as nat, id@)),
            None => heading_step(line@, *old(in_code_block)).1 is None,
        },
{
    let v = chars_of(line);
    let ts = trimmed_start(&v);
    let fence = chars_of("```");
    proof {
        reveal_strlit("```");
        assert(fence@ =~= seq!['`', '`', '`']);
    }
    if starts_with(ts.as_slice(), fence.as_slice()) {
        *in_code_block = !*in_code_block;
        return None;
    }
    if *in_code_block {
        return None;
    }
    let t = trimmed(&v);
    let h = count_leading_hashes(&t);
    if !(1 <= h && h <= 6 && h < t.len() && t[h] == ' ') {
        return None;
    }
    let rest = slice_vec(&t, h + 1, t.len());
    assert(rest@ =~= t@.skip(h + 1));
    match find_char(&rest, ' ') {
        None => None,
        Some(k) => {
            let after = slice_vec(&rest, k + 1, rest.len());
            assert(after@ =~= rest@.skip(k + 1));
            match find_char(&after, ':') {
                None => None,
                Some(c) => {
                    if c == 0 {
                        None
                    } else {
                        let id = slice_vec(&after, 0, c);
                        assert(id@ =~= after@.take(c as int));
                        Some((h, string_of(id.as_slice())))
                    }
                },
            }
        },
    }
}

// ---------------------------------------------------------------------------
// Inserting under a parent
// ---------------------------------------------------------------------------

/// The heading scan over the first `k` lines: whether it is in a code
/// block, the parent's heading level once found, and the offset of the
/// first heading after it no deeper than the parent, where the scan stops.
pub open spec fn scan(raw: Seq<char>, parent: Seq<char>, k: int) -> (bool, Option<nat>, Option<int>)
    decreases k,
{
    if k <= 0 {
        (false, None, None)
    } else {
        let st = scan(raw, parent, k - 1);
        if st.2 is Some {
            st
        } else {
            let span = line_spans(raw)[k - 1];
            let step = heading_step(line_text(raw, span.0, span.1), st.0);
            match step.1 {
                None => (step.0, st.1, None),
                Some(hd) => match st.1 {
                    None => if hd.1 == parent {
                        (step.0, Some(hd.0), None)
                    } else {
                        (step.0, None, None)
                    },
                    Some(p) => if hd.0 <= p {
                        (step.0, st.1, Some(span.0))
                    } else {
                        (step.0, st.1, None)
                    },
                },
            }
        }
    }
}

proof fn lemma_scan_stops(raw: Seq<char>, parent: Seq<char>, k: int, n: int)
    requires
        0 <= k <= n,
        scan(raw, parent, k).2 is Some,
    ensures
        scan(raw, parent, n) == scan(raw, parent, k),
    decreases n - k,
{
    if n > k {
        lemma_scan_stops(raw, parent, k, n - 1);
    }
}

/// A ticket inserted right after the parent's subtree (before the first
/// later heading no deeper than the parent, or at the end): the text before
/// and after the cut copied through unchanged. `None` when the parent's
/// heading is not in the file.
pub open spec fn insert_spec(raw: Seq<char>, parent: Seq<char>, block: Seq<char>) -> Option<Seq<char>> {
    let st = scan(raw, parent, line_spans(raw).len() as int);
    match st.1 {
        None => None,
        Some(_) => {
            let cut = match st.2 {
                Some(e) => e,
                None => raw.len() as int,
            };
            let head = raw.take(cut);
            let tail = raw.skip(cut);
            let eol = eol_spec(raw);
            Some(
                head + separator(head, eol) + block_text(block, eol) + if tail.len() > 0 {
                    eol + tail
                } else {
                    Seq::empty()
                },
            )
        },
    }
}

pub open spec fn nat_opt(o: Option<usize>) -> Option<nat> {
    match o {
        Some(x) => Some(x as nat),
        None => None,
    }
}

pub open spec fn int_opt(o: Option<usize>) -> Option<int> {
    match o {
        Some(x) => Some(x as int),
        None => None,
    }
}

/// Insert a ticket immediately after `parent_local_id`'s existing subtree,
/// so the file stays in id order. `None` when the parent's heading is not
/// in this file.
pub fn insert_ticket_after_subtree(raw: &str, parent_local_id: &str, block: &str) -> (r: Option<String>)
    ensures
        opt_view(r) == insert_spec(raw@, parent_local_id@, block@),
        r is Some <==> exists|j: int|
            0 <= j < line_spans(raw@).len() && #[trigger] is_parent_heading(raw@, parent_local_id@, j),
        r matches Some(out) ==> exists|p: int, c: int, l: nat|
            #![trigger deeper_between(raw@, p, c, l)]
            first_parent_at(raw@, parent_local_id@, p, l) && p < c <= line_spans(raw@).len() && deeper_between(
                raw@,
                p,
                c,
                l,
            ) && (c < line_spans(raw@).len() ==> ends_subtree(raw@, c, l)) && out@ == splice_at(
                raw@,
                if c < line_spans(raw@).len() {
                    line_spans(raw@)[c].0
                } else {
                    raw@.len() as int
                },
                block@,
            ),
{
    proof {
        lemma_insert_after_subtree(raw@, parent_local_id@, block@);
    }
    let v = chars_of(raw);
    let spans = spans_of(&v);
    proof {
        lemma_line_spans_bounds(v@);
    }
    let n = spans.len();
    let mut in_code = false;
    let mut parent_hashes: Option<usize> = None;
    let mut subtree_end: Option<usize> = None;
    let mut k: usize = 0;
    while k < n && subtree_end.is_none()
        invariant
            v@ == raw@,
            n == spans@.len(),
            spans@.len() == line_spans(v@).len(),
            forall|q: int|
                0 <= q < spans@.len() ==> (#[trigger] spans@[q]).0 as int == line_spans(v@)[q].0
                    && spans@[q].1 as int == line_spans(v@)[q].1,
            forall|q: int|
                0 <= q < line_spans(v@).len() ==> 0 <= (#[trigger] line_spans(v@)[q]).0
                    < line_spans(v@)[q].1 <= v@.len(),
            k <= n,
            (in_code, nat_opt(parent_hashes), int_opt(subtree_end)) == scan(raw@, parent_local_id@, k as int),
            subtree_end matches Some(e) ==> e <= v@.len(),
        decreases n - k,
    {
        let (a, b) = spans[k];
        let line = line_of(&v, a, b);
        let ghost ic0 = in_code;
        let heading = node_heading_outside_code(line.as_str(), &mut in_code);
        match heading {
            None => {},
            Some((hashes, id)) => {
                match parent_hashes {
                    None => {
                        if crate::text::str_eq(id.as_str(), parent_local_id) {
                            parent_hashes = Some(hashes);
                        }
                    },
                    Some(p) => {
                        if hashes <= p {
                            subtree_end = Some(a);
                        }
                    },
                }
            },
        }
        k += 1;
    }
    proof {
        if subtree_end is Some {
            lemma_scan_stops(raw@, parent_local_id@, k as int, n as int);
        }
    }
    if parent_hashes.is_none() {
        return None;
    }
    let cut = match subtree_end {
        Some(e) => e,
        None => v.len(),
    };
    let head = slice_vec(&v, 0, cut);
    let tail = slice_vec(&v, cut, v.len());
    assert(head@ =~= raw@.take(cut as int));
    assert(tail@ =~= raw@.skip(cut as int));
    let head_s = string_of(head.as_slice());
    let eol = dominant_line_ending(raw);
    let mut out = String::new();
    push_chars(&mut out, head.as_slice());
    push_block_separator(&mut out, head_s.as_str(), eol.as_str());
    push_block_with(&mut out, block, eol.as_str());
    if tail.len() > 0 {
        push_str(&mut out, eol.as_str());
        push_chars(&mut out, tail.as_slice());
    }
    Some(out)
}

// ---------------------------------------------------------------------------
// Laws
// ---------------------------------------------------------------------------

/// Appending a ticket keeps the file's text as it was, in front.
pub proof fn lemma_append_keeps_text(raw: Seq<char>, block: Seq<char>)
    ensures
        append_spec(raw, block).take(raw.len() as int) == raw,
{
    assert(append_spec(raw, block).take(raw.len() as int) =~= raw);
}

proof fn lemma_scan_end_bounds(raw: Seq<char>, parent: Seq<char>, k: int)
    requires
        0 <= k <= line_spans(raw).len(),
    ensures
        scan(raw, parent, k).2 matches Some(e) ==> 0 <= e <= raw.len(),
    decreases k,
{
    lemma_line_spans_bounds(raw);
    if k > 0 {
        lemma_scan_end_bounds(raw, parent, k - 1);
        assert(0 <= line_spans(raw)[k - 1].0 < line_spans(raw)[k - 1].1 <= raw.len());
    }
}

/// Splicing a ticket under its parent copies the file's text on either
/// side of the cut through unchanged: the result starts with the text
/// before the cut and ends with the text after it.
pub proof fn lemma_insert_keeps_surroundings(raw: Seq<char>, parent: Seq<char>, block: Seq<char>)
    ensures
        insert_spec(raw, parent, block) matches Some(out) ==> exists|cut: int|
            0 <= cut <= raw.len() && #[trigger] out.take(cut) == raw.take(cut) && out.skip(
                out.len() - (raw.len() - cut),
            ) == raw.skip(cut),
{
    lemma_scan_end_bounds(raw, parent, line_spans(raw).len() as int);
    if let Some(out) = insert_spec(raw, parent, block) {
        let st = scan(raw, parent, line_spans(raw).len() as int);
        let cut = match st.2 {
            Some(e) => e,
            None => raw.len() as int,
        };
        assert(out.take(cut) =~= raw.take(cut));
        assert(out.skip(out.len() - (raw.len() - cut)) =~= raw.skip(cut));
    }
}

// ---------------------------------------------------------------------------
// Where a ticket goes under its parent, line by line
// ---------------------------------------------------------------------------

/// Whether the lines before line `k` leave a code fence open.
pub open spec fn code_open(raw: Seq<char>, k: int) -> bool
    decreases k,
{
    if k <= 0 {
        false
    } else {
        let sp = line_spans(raw)[k - 1];
        heading_step(line_text(raw, sp.0, sp.1), code_open(raw, k - 1)).0
    }
}

/// The node heading on line `j` as (level, id); a heading inside a code
/// fence is content, not a heading.
pub open spec fn heading_at(raw: Seq<char>, j: int) -> Option<(nat, Seq<char>)> {
    let sp = line_spans(raw)[j];
    heading_step(line_text(raw, sp.0, sp.1), code_open(raw, j)).1
}

/// Line `j` is a heading of the ticket `parent`.
pub open spec fn is_parent_heading(raw: Seq<char>, parent: Seq<char>, j: int) -> bool {
    heading_at(raw, j) matches Some(h) && h.1 == parent
}

/// Line `p` is the first heading of `parent`, at level `l`.
pub open spec fn first_parent_at(raw: Seq<char>, parent: Seq<char>, p: int, l: nat) -> bool {
    &&& 0 <= p < line_spans(raw).len()
    &&& heading_at(raw, p) == Some((l, parent))
    &&& forall|j: int| 0 <= j < p ==> !is_parent_heading(raw, parent, j)
}

/// Every heading strictly between lines `p` and `c` is deeper than level `l`.
pub open spec fn deeper_between(raw: Seq<char>, p: int, c: int, l: nat) -> bool {
    forall|j: int| p < j < c ==> (#[trigger] heading_at(raw, j) matches Some(h) ==> h.0 > l)
}

/// Line `c` is a heading no deeper than level `l`: it ends a subtree at `l`.
pub open spec fn ends_subtree(raw: Seq<char>, c: int, l: nat) -> bool {
    heading_at(raw, c) matches Some(h) && h.0 <= l
}

/// The file with `block` spliced in at offset `cut`.
pub open spec fn splice_at(raw: Seq<char>, cut: int, block: Seq<char>) -> Seq<char> {
    let head = raw.take(cut);
    let tail = raw.skip(cut);
    let eol = eol_spec(raw);
    head + separator(head, eol) + block_text(block, eol) + if tail.len() > 0 {
        eol + tail
    } else {
        Seq::empty()
    }
}

/// The first heading of `parent`, at level `l`, comes before line `k`, and
/// every heading after it and before `k` is deeper.
pub open spec fn parent_open_at(raw: Seq<char>, parent: Seq<char>, l: nat, k: int) -> bool {
    exists|p: int| #[trigger] first_parent_at(raw, parent, p, l) && p < k && deeper_between(raw, p, k, l)
}

proof fn lemma_scan_facts(raw: Seq<char>, parent: Seq<char>, k: int)
    requires
        0 <= k <= line_spans(raw).len(),
    ensures
        scan(raw, parent, k).2 is None ==> scan(raw, parent, k).0 == code_open(raw, k),
        (scan(raw, parent, k).2 is None && scan(raw, parent, k).1 is None) ==> forall|j: int|
            0 <= j < k ==> !is_parent_heading(raw, parent, j),
        scan(raw, parent, k).2 is None ==> (scan(raw, parent, k).1 matches Some(l) ==> parent_open_at(raw, parent, l, k)),
        scan(raw, parent, k).2 matches Some(e) ==> (scan(raw, parent, k).1 matches Some(l) && exists|p: int, c: int|
            #![trigger deeper_between(raw, p, c, l)]
            first_parent_at(raw, parent, p, l) && p < c < k && deeper_between(raw, p, c, l) && ends_subtree(raw, c, l)
                && e == line_spans(raw)[c].0),
    decreases k,
{
    if k > 0 {
        lemma_scan_facts(raw, parent, k - 1);
        let st = scan(raw, parent, k - 1);
        if st.2 is None {
            let span = line_spans(raw)[k - 1];
            let step = heading_step(line_text(raw, span.0, span.1), st.0);
            assert(step.1 == heading_at(raw, k - 1));
            match step.1 {
                None => {
                    assert(scan(raw, parent, k) == (step.0, st.1, None::<int>));
                    if let Some(l) = st.1 {
                        let p = choose|p: int| #[trigger] first_parent_at(raw, parent, p, l) && p < k - 1 && deeper_between(
                            raw,
                            p,
                            k - 1,
                            l,
                        );
                        assert forall|j: int| p < j < k implies (#[trigger] heading_at(raw, j) matches Some(h) ==> h.0
                            > l) by {
                            if j < k - 1 {
                                assert(deeper_between(raw, p, k - 1, l));
                            }
                        }
                        assert(deeper_between(raw, p, k, l));
                        assert(first_parent_at(raw, parent, p, l) && p < k && deeper_between(raw, p, k, l));
                        assert(parent_open_at(raw, parent, l, k));
                    }
                },
                Some(hd) => match st.1 {
                    None => {
                        if hd.1 == parent {
                            assert(scan(raw, parent, k) == (step.0, Some(hd.0), None::<int>));
                            assert(heading_at(raw, k - 1) == Some((hd.0, parent)));
                            assert(first_parent_at(raw, parent, k - 1, hd.0));
                            assert(deeper_between(raw, k - 1, k, hd.0));
                            assert(parent_open_at(raw, parent, hd.0, k));
                        } else {
                            assert(scan(raw, parent, k) == (step.0, None::<nat>, None::<int>));
                            assert(!is_parent_heading(raw, parent, k - 1));
                        }
                    },
                    Some(l) => {
                        let p = choose|p: int| #[trigger] first_parent_at(raw, parent, p, l) && p < k - 1 && deeper_between(
                            raw,
                            p,
                            k - 1,
                            l,
                        );
                        if hd.0 <= l {
                            assert(scan(raw, parent, k) == (step.0, st.1, Some(span.0)));
                            assert(ends_subtree(raw, k - 1, l));
                            assert(deeper_between(raw, p, k - 1, l));
                        } else {
                            assert forall|j: int| p < j < k implies (#[trigger] heading_at(raw, j) matches Some(h) ==> h.0
                                > l) by {
                                if j < k - 1 {
                                    assert(deeper_between(raw, p, k - 1, l));
                                }
                            }
                            assert(deeper_between(raw, p, k, l));
                            assert(scan(raw, parent, k) == (step.0, Some(l), None::<int>));
                            assert(first_parent_at(raw, parent, p, l) && p < k && deeper_between(raw, p, k, l));
                            assert(parent_open_at(raw, parent, l, k));
                        }
                    },
                },
            }
        } else {
            if let Some(e) = st.2 {
                let l = st.1->0;
                let (p, c) = choose|p: int, c: int|
                    #![trigger deeper_between(raw, p, c, l)]
                    first_parent_at(raw, parent, p, l) && p < c < k - 1 && deeper_between(raw, p, c, l)
                        && ends_subtree(raw, c, l) && e == line_spans(raw)[c].0;
                assert(deeper_between(raw, p, c, l));
            }
        }
    }
}

/// Where a ticket goes under its parent: the file has a heading of the
/// parent exactly when the insert succeeds; the block then goes in front of
/// the first heading after the parent's first heading that is no deeper
/// than it (or at the end of the file), so every heading between the
/// parent and the new block is strictly deeper than the parent.
pub proof fn lemma_insert_after_subtree(raw: Seq<char>, parent: Seq<char>, block: Seq<char>)
    ensures
        insert_spec(raw, parent, block) is Some <==> exists|j: int|
            0 <= j < line_spans(raw).len() && #[trigger] is_parent_heading(raw, parent, j),
        insert_spec(raw, parent, block) matches Some(out) ==> exists|p: int, c: int, l: nat|
            #![trigger deeper_between(raw, p, c, l)]
            first_parent_at(raw, parent, p, l) && p < c <= line_spans(raw).len() && deeper_between(raw, p, c, l) && (c
                < line_spans(raw).len() ==> ends_subtree(raw, c, l)) && out == splice_at(
                raw,
                if c < line_spans(raw).len() {
                    line_spans(raw)[c].0
                } else {
                    raw.len() as int
                },
                block,
            ),
{
    let n = line_spans(raw).len() as int;
    lemma_scan_facts(raw, parent, n);
    let st = scan(raw, parent, n);
    match st.1 {
        None => {
            if st.2 is Some {
                assert(false);
            }
        },
        Some(l) => {
            match st.2 {
                Some(e) => {
                    let (p, c) = choose|p: int, c: int|
                        #![trigger deeper_between(raw, p, c, l)]
                        first_parent_at(raw, parent, p, l) && p < c < n && deeper_between(raw, p, c, l) && ends_subtree(
                            raw,
                            c,
                            l,
                        ) && e == line_spans(raw)[c].0;
                    assert(is_parent_heading(raw, parent, p));
                    assert(insert_spec(raw, parent, block) == Some(splice_at(raw, e, block)));
                },
                None => {
                    let p = choose|p: int| #[trigger] first_parent_at(raw, parent, p, l) && p < n && deeper_between(
                        raw,
                        p,
                        n,
                        l,
                    );
                    assert(is_parent_heading(raw, parent, p));
                    assert(insert_spec(raw, parent, block) == Some(splice_at(raw, raw.len() as int, block)));
                },
            }
        },
    }
}

} // verus!
