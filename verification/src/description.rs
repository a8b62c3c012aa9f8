//! What a ticket description may contain. The text is written into the plan
//! verbatim, so a line the plan language would read as structure (a
//! heading, a metadata field) would author part of the plan instead of
//! describing the ticket; such a line is refused unless it sits in a fenced
//! code block.
use vstd::prelude::*;
use crate::markdown::{is_code_fence, leading_hashes};
use crate::text::{
    chars_of, has_prefix, is_whitespace, is_ws, lines, starts_with, str_lines, string_of, trim,
    trim_start, trimmed, trimmed_start,
};

verus! {

/// What the plan language would make of a description line.
#[derive(Debug, PartialEq)]
pub enum Structure {
    /// An ATX heading: a node, a chapter, or the rhei title.
    Heading,
    /// A metadata field of the node the line lands in.
    MetadataField,
}

impl Structure {
    /// How a refusal names it.
    pub fn describe(&self) -> (r: String)
        ensures
            r@ == describe_spec(*self),
    {
        match self {
            Structure::Heading => String::from_str(
                "an ATX heading, which the plan language reads as a node, a chapter, or the rhei title",
            ),
            Structure::MetadataField => String::from_str("a metadata field of the node it lands in"),
        }
    }
}

pub open spec fn describe_spec(s: Structure) -> Seq<char> {
    match s {
        Structure::Heading => "an ATX heading, which the plan language reads as a node, a chapter, or the rhei title"@,
        Structure::MetadataField => "a metadata field of the node it lands in"@,
    }
}

/// The metadata markers the plan language recognizes at the start of a line.
pub open spec fn metadata_markers() -> Seq<Seq<char>> {
    seq![
        "**State:**"@,
        "**States:**"@,
        "**Prior:**"@,
        "**Provides:**"@,
        "**Consumes:**"@,
        "**Assignee:**"@,
        "**Model:**"@,
        "**Target:**"@,
    ]
}

/// What the plan language would make of `line` (matched trimmed, as the
/// plan lexer matches it), or `None` for ordinary prose.
pub open spec fn structural_line(line: Seq<char>) -> Option<Structure> {
    let t = trim(line);
    let h = leading_hashes(t);
    if 1 <= h <= 6 && (h == t.len() || is_ws(t[h as int])) {
        Some(Structure::Heading)
    } else if exists|m: int| 0 <= m < 8 && has_prefix(t, #[trigger] metadata_markers()[m]) {
        Some(Structure::MetadataField)
    } else {
        None
    }
}

fn marker(m: usize) -> (r: Vec<char>)
    requires
        m < 8,
    ensures
        r@ == metadata_markers()[m as int],
{
    let s = if m == 0 {
        "**State:**"
    } else if m == 1 {
        "**States:**"
    } else if m == 2 {
        "**Prior:**"
    } else if m == 3 {
        "**Provides:**"
    } else if m == 4 {
        "**Consumes:**"
    } else if m == 5 {
        "**Assignee:**"
    } else if m == 6 {
        "**Model:**"
    } else {
        "**Target:**"
    };
    chars_of(s)
}

/// Name what the plan language would make of `line`, or `None` when it is
/// ordinary prose.
pub fn structural_description_line(line: &str) -> (r: Option<Structure>)
    ensures
        r == structural_line(line@),
{
    let v = chars_of(line);
    let t = trimmed(&v);
    let mut h: usize = 0;
    assert(t@.skip(0) =~= t@);
    while h < t.len() && t[h] == '#'
        invariant
            h <= t@.len(),
            leading_hashes(t@) == h + leading_hashes(t@.skip(h as int)),
        decreases t@.len() - h,
    {
        assert(t@.skip(h as int).drop_first() =~= t@.skip(h + 1));
        h += 1;
    }
    proof {
        if h < t@.len() {
            assert(t@.skip(h as int)[0] == t@[h as int]);
        }
    }
    if 1 <= h && h <= 6 && (h == t.len() || is_whitespace(t[h])) {
        return Some(Structure::Heading);
    }
    let mut m: usize = 0;
    while m < 8
        invariant
            m <= 8,
            t@ == trim(line@),
            !(1 <= leading_hashes(t@) <= 6 && (leading_hashes(t@) == t@.len() || is_ws(
                t@[leading_hashes(t@) as int],
            ))),
            forall|q: int| 0 <= q < m ==> !has_prefix(t@, #[trigger] metadata_markers()[q]),
        decreases 8 - m,
    {
        let mk = marker(m);
        if starts_with(t.as_slice(), mk.as_slice()) {
            assert(has_prefix(t@, metadata_markers()[m as int]));
            return Some(Structure::MetadataField);
        }
        m += 1;
    }
    None
}

/// Whether line `k` opens inside a fenced code block: the fence lines before
/// it, counted from the start of the description.
pub open spec fn in_fence_before(ls: Seq<Seq<char>>, k: int) -> bool
    decreases k,
{
    if k <= 0 {
        false
    } else if is_code_fence(ls[k - 1]) {
        !in_fence_before(ls, k - 1)
    } else {
        in_fence_before(ls, k - 1)
    }
}

/// A line that would be read as structure: not a fence line, outside any
/// fenced block, and structural.
pub open spec fn offending(ls: Seq<Seq<char>>, k: int) -> bool {
    !is_code_fence(ls[k]) && !in_fence_before(ls, k) && structural_line(ls[k]) is Some
}

/// The first offending line among the first `n`.
pub open spec fn first_offending(ls: Seq<Seq<char>>, n: int) -> Option<int>
    decreases n,
{
    if n <= 0 {
        None
    } else {
        match first_offending(ls, n - 1) {
            Some(k) => Some(k),
            None => if offending(ls, n - 1) {
                Some(n - 1)
            } else {
                None
            },
        }
    }
}

proof fn lemma_first_offending_stays(ls: Seq<Seq<char>>, k: int, n: int)
    requires
        0 <= k <= n,
        first_offending(ls, k) is Some,
    ensures
        first_offending(ls, n) == first_offending(ls, k),
    decreases n - k,
{
    if n > k {
        lemma_first_offending_stays(ls, k, n - 1);
    }
}

/// A description refused for a line the plan would read as structure.
#[derive(Debug, PartialEq)]
pub struct StructuralDescription {
    /// The flag that carried the description.
    pub flag: String,
    /// The line's number, from 1.
    pub line_number: usize,
    /// The line, trimmed.
    pub text: String,
    /// What the plan would make of it.
    pub what: Structure,
}

/// Refuse a description with a line the plan language would read as
/// structure, reported against the flag that carried it. Fenced lines are
/// content and stay accepted as written.
pub fn reject_structural_description(description: &str, flag: &str) -> (r: Result<(), StructuralDescription>)
    ensures
        match r {
            Ok(()) => first_offending(lines(description@), lines(description@).len() as int) is None,
            Err(e) => first_offending(lines(description@), lines(description@).len() as int) == Some(
                e.line_number - 1,
            ) && e.flag@ == flag@ && e.text@ == trim(lines(description@)[e.line_number - 1])
                && structural_line(lines(description@)[e.line_number - 1]) == Some(e.what),
        },
{
    let ls = str_lines(description);
    let ghost lv = lines(description@);
    let mut in_fence = false;
    let mut k: usize = 0;
    while k < ls.len()
        invariant
            ls@.len() == lv.len(),
            forall|q: int| 0 <= q < ls@.len() ==> (#[trigger] ls@[q])@ == lv[q],
            lv == lines(description@),
            k <= ls@.len(),
            in_fence == in_fence_before(lv, k as int),
            first_offending(lv, k as int) is None,
        decreases ls@.len() - k,
    {
        let raw = string_of(ls[k].as_slice());
        let ts = trimmed_start(&ls[k]);
        let fence = chars_of("```");
        proof {
            reveal_strlit("```");
            assert(fence@ =~= seq!['`', '`', '`']);
        }
        if starts_with(ts.as_slice(), fence.as_slice()) {
            in_fence = !in_fence;
        } else if !in_fence {
            match structural_description_line(raw.as_str()) {
                Some(what) => {
                    let t = trimmed(&ls[k]);
                    proof {
                        lemma_first_offending_stays(lv, k + 1, lv.len() as int);
                    }
                    return Err(
                        StructuralDescription {
                            flag: String::from_str(flag),
                            line_number: k + 1,
                            text: string_of(t.as_slice()),
                            what,
                        },
                    );
                },
                None => {},
            }
        }
        k += 1;
    }
    Ok(())
}

} // verus!
