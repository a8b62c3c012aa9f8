//! Writing a plan's frontmatter back: the YAML block after the `# Rhei:`
//! heading (and its `**States:**` line) is replaced by freshly rendered
//! YAML between `---` fences, every other line kept.
use vstd::prelude::*;
use crate::text::{
    chars_eq, chars_of, has_prefix, join, join_strings, lines, push_char, starts_with, str_lines,
    string_of, trim, trim_end, trim_start, trimmed, trimmed_end, trimmed_start,
};

verus! {

pub open spec fn blank(l: Seq<char>) -> bool {
    trim(l).len() == 0
}

/// The first index at or after `i` that is not a blank line.
pub open spec fn skip_blank(ls: Seq<Seq<char>>, i: int) -> int
    decreases ls.len() - i,
{
    if i < 0 || i >= ls.len() || !blank(ls[i]) {
        i
    } else {
        skip_blank(ls, i + 1)
    }
}

/// The first index at or after `i` holding a `---` fence.
pub open spec fn next_fence(ls: Seq<Seq<char>>, i: int) -> Option<int>
    decreases ls.len() - i,
{
    if i < 0 || i >= ls.len() {
        None
    } else if trim(ls[i]) == "---"@ {
        Some(i)
    } else {
        next_fence(ls, i + 1)
    }
}

/// The first `# Rhei:` heading line.
pub open spec fn header_index(ls: Seq<Seq<char>>, i: int) -> Option<int>
    decreases ls.len() - i,
{
    if i < 0 || i >= ls.len() {
        None
    } else if has_prefix(trim_start(ls[i]), "# Rhei:"@) {
        Some(i)
    } else {
        header_index(ls, i + 1)
    }
}

/// Why a plan's frontmatter cannot be rewritten.
#[derive(Debug, PartialEq)]
pub enum FrontmatterError {
    /// No `# Rhei:` heading.
    NoHeader,
    /// A `---` block that never closes.
    Unterminated,
}

/// Where the frontmatter block sits: `(start, end)`, the lines it replaces
/// (with the blank lines after it); `start == end` when there is none.
pub open spec fn block_bounds(ls: Seq<Seq<char>>) -> Result<(int, int), FrontmatterError> {
    match header_index(ls, 0) {
        None => Err(FrontmatterError::NoHeader),
        Some(h) => {
            let a = skip_blank(ls, h + 1);
            let b = if a < ls.len() && has_prefix(trim_start(ls[a]), "**States:**"@) {
                a + 1
            } else {
                a
            };
            let start = skip_blank(ls, b);
            if start < ls.len() && trim(ls[start]) == "---"@ {
                match next_fence(ls, start + 1) {
                    None => Err(FrontmatterError::Unterminated),
                    Some(close) => Ok((start, skip_blank(ls, close + 1))),
                }
            } else {
                Ok((start, start))
            }
        },
    }
}

/// The plan with its frontmatter replaced by `yaml` (already rendered):
/// the lines before the block, `---`, the YAML's lines, `---`, a blank
/// line, and the lines after the block, joined by `\n` and ended by one.
pub open spec fn rewrite_spec(raw: Seq<char>, yaml: Seq<char>) -> Result<Seq<char>, FrontmatterError> {
    let ls = lines(raw);
    match block_bounds(ls) {
        Err(e) => Err(e),
        Ok((start, end)) => {
            let result = ls.take(start) + seq!["---"@] + (if yaml.len() > 0 {
                lines(yaml)
            } else {
                Seq::empty()
            }) + seq!["---"@, Seq::<char>::empty()] + ls.skip(end);
            Ok(join(result, "\n"@) + "\n"@)
        },
    }
}

/// Serialized YAML as the frontmatter holds it: a leading `---` document
/// marker dropped, trailing whitespace trimmed.
pub open spec fn frontmatter_text_spec(serialized: Seq<char>) -> Seq<char> {
    trim_end(
        if has_prefix(serialized, "---\n"@) {
            serialized.skip(4)
        } else {
            serialized
        },
    )
}

/// The frontmatter text for YAML as a serializer wrote it.
pub fn frontmatter_text(serialized: &str) -> (r: String)
    ensures
        r@ == frontmatter_text_spec(serialized@),
{
    let v = chars_of(serialized);
    let marker = chars_of("---\n");
    proof {
        reveal_strlit("---\n");
    }
    let body = if starts_with(v.as_slice(), marker.as_slice()) {
        let b = crate::text::slice_vec(&v, 4, v.len());
        assert(b@ =~= v@.skip(4));
        b
    } else {
        let b = crate::text::slice_vec(&v, 0, v.len());
        assert(b@ =~= v@);
        b
    };
    let t = trimmed_end(&body);
    string_of(t.as_slice())
}

fn is_blank_line(l: &Vec<char>) -> (r: bool)
    ensures
        r == blank(l@),
{
    trimmed(l).len() == 0
}

fn is_fence_line(l: &Vec<char>, fence: &Vec<char>) -> (r: bool)
    requires
        fence@ == "---"@,
    ensures
        r == (trim(l@) == "---"@),
{
    let t = trimmed(l);
    chars_eq(t.as_slice(), fence.as_slice())
}

fn skip_blank_from(ls: &Vec<Vec<char>>, i: usize) -> (r: usize)
    requires
        i <= ls@.len(),
    ensures
        r as int == skip_blank(Seq::new(ls@.len(), |q: int| ls@[q]@), i as int),
        i <= r <= ls@.len(),
{
    let ghost lv = Seq::new(ls@.len(), |q: int| ls@[q]@);
    let mut j: usize = i;
    while j < ls.len() && is_blank_line(&ls[j])
        invariant
            lv == Seq::new(ls@.len(), |q: int| ls@[q]@),
            i <= j <= ls@.len(),
            skip_blank(lv, i as int) == skip_blank(lv, j as int),
        decreases ls@.len() - j,
    {
        j += 1;
    }
    j
}

fn find_header(ls: &Vec<Vec<char>>) -> (r: Option<usize>)
    ensures
        match r {
            Some(h) => h < ls@.len() && header_index(Seq::new(ls@.len(), |q: int| ls@[q]@), 0) == Some(h as int),
            None => header_index(Seq::new(ls@.len(), |q: int| ls@[q]@), 0) is None,
        },
{
    let ghost lv = Seq::new(ls@.len(), |q: int| ls@[q]@);
    let marker = chars_of("# Rhei:");
    let mut h: usize = 0;
    while h < ls.len()
        invariant
            lv == Seq::new(ls@.len(), |q: int| ls@[q]@),
            h <= ls@.len(),
            marker@ == "# Rhei:"@,
            header_index(lv, 0) == header_index(lv, h as int),
        decreases ls@.len() - h,
    {
        let ts = trimmed_start(&ls[h]);
        if starts_with(ts.as_slice(), marker.as_slice()) {
            return Some(h);
        }
        h += 1;
    }
    None
}

fn starts_states(l: &Vec<char>) -> (r: bool)
    ensures
        r == has_prefix(trim_start(l@), "**States:**"@),
{
    let marker = chars_of("**States:**");
    let ts = trimmed_start(l);
    starts_with(ts.as_slice(), marker.as_slice())
}

fn locate_block(ls: &Vec<Vec<char>>) -> (r: Result<(usize, usize), FrontmatterError>)
    ensures
        match r {
            Ok((a, b)) => a <= b <= ls@.len() && block_bounds(Seq::new(ls@.len(), |q: int| ls@[q]@))
                == Ok::<(int, int), FrontmatterError>((a as int, b as int)),
            Err(e) => block_bounds(Seq::new(ls@.len(), |q: int| ls@[q]@)) == Err::<(int, int), FrontmatterError>(e),
        },
{
    let ghost lv = Seq::new(ls@.len(), |q: int| ls@[q]@);
    let fence = chars_of("---");
    proof {
        reveal_strlit("---");
    }
    let h = match find_header(ls) {
        Some(h) => h,
        None => {
            return Err(FrontmatterError::NoHeader);
        },
    };
    let len = ls.len();
    assert(h < len);
    let a = skip_blank_from(ls, h + 1);
    let states_line = a < ls.len() && starts_states(&ls[a]);
    let b = if states_line {
        a + 1
    } else {
        a
    };
    let start = skip_blank_from(ls, b);
    if start < ls.len() && is_fence_line(&ls[start], &fence) {
        let mut c = start + 1;
        while c < ls.len() && !is_fence_line(&ls[c], &fence)
            invariant
                lv == Seq::new(ls@.len(), |q: int| ls@[q]@),
                fence@ == "---"@,
                start < c <= ls@.len(),
                next_fence(lv, start + 1) == next_fence(lv, c as int),
            decreases ls@.len() - c,
        {
            c += 1;
        }
        if c == ls.len() {
            return Err(FrontmatterError::Unterminated);
        }
        let end = skip_blank_from(ls, c + 1);
        Ok((start, end))
    } else {
        Ok((start, start))
    }
}

/// The lines of the rewritten plan.
pub open spec fn rewritten_lines(ls: Seq<Seq<char>>, start: int, end: int, yaml: Seq<char>) -> Seq<Seq<char>> {
    ls.take(start) + seq!["---"@] + (if yaml.len() > 0 {
        lines(yaml)
    } else {
        Seq::empty()
    }) + seq!["---"@, Seq::<char>::empty()] + ls.skip(end)
}

fn push_lines(result: &mut Vec<String>, ls: &Vec<Vec<char>>, from: usize, to: usize)
    requires
        from <= to <= ls@.len(),
    ensures
        Seq::new(final(result)@.len(), |q: int| final(result)@[q]@) == Seq::new(
            old(result)@.len(),
            |q: int| old(result)@[q]@,
        ) + Seq::new(ls@.len(), |q: int| ls@[q]@).subrange(from as int, to as int),
{
    let ghost start_v = Seq::new(result@.len(), |q: int| result@[q]@);
    let ghost lv = Seq::new(ls@.len(), |q: int| ls@[q]@);
    let mut i: usize = from;
    assert(start_v + lv.subrange(from as int, from as int) =~= start_v);
    while i < to
        invariant
            lv == Seq::new(ls@.len(), |q: int| ls@[q]@),
            from <= i <= to <= ls@.len(),
            Seq::new(result@.len(), |q: int| result@[q]@) == start_v + lv.subrange(from as int, i as int),
        decreases to - i,
    {
        let ghost before = Seq::new(result@.len(), |q: int| result@[q]@);
        result.push(string_of(ls[i].as_slice()));
        assert(Seq::new(result@.len(), |q: int| result@[q]@) =~= before.push(lv[i as int]));
        assert(lv.subrange(from as int, i + 1) =~= lv.subrange(from as int, i as int).push(lv[i as int]));
        i += 1;
    }
}

fn push_line(result: &mut Vec<String>, s: &str)
    ensures
        Seq::new(final(result)@.len(), |q: int| final(result)@[q]@) == Seq::new(
            old(result)@.len(),
            |q: int| old(result)@[q]@,
        ).push(s@),
{
    let ghost before = Seq::new(result@.len(), |q: int| result@[q]@);
    result.push(String::from_str(s));
    assert(Seq::new(result@.len(), |q: int| result@[q]@) =~= before.push(s@));
}

fn assemble(ls: &Vec<Vec<char>>, start: usize, end: usize, yaml: &str) -> (r: Vec<String>)
    requires
        start <= end <= ls@.len(),
    ensures
        Seq::new(r@.len(), |q: int| r@[q]@) == rewritten_lines(
            Seq::new(ls@.len(), |q: int| ls@[q]@),
            start as int,
            end as int,
            yaml@,
        ),
{
    let ghost lv = Seq::new(ls@.len(), |q: int| ls@[q]@);
    let ghost yl_v = if yaml@.len() > 0 {
        lines(yaml@)
    } else {
        Seq::<Seq<char>>::empty()
    };
    let mut result: Vec<String> = Vec::new();
    assert(Seq::new(result@.len(), |q: int| result@[q]@) =~= Seq::<Seq<char>>::empty());
    push_lines(&mut result, ls, 0, start);
    push_line(&mut result, "---");
    let ghost s1 = Seq::new(result@.len(), |q: int| result@[q]@);
    assert(s1 =~= lv.take(start as int) + seq!["---"@]);
    if crate::text::char_len(yaml) > 0 {
        let yl = str_lines(yaml);
        let ghost yv = Seq::new(yl@.len(), |q: int| yl@[q]@);
        assert(yv =~= lines(yaml@));
        push_lines(&mut result, &yl, 0, yl.len());
        assert(yv.subrange(0, yl@.len() as int) =~= yv);
    }
    let ghost s2 = Seq::new(result@.len(), |q: int| result@[q]@);
    assert(s2 =~= s1 + yl_v);
    push_line(&mut result, "---");
    let ghost s25 = Seq::new(result@.len(), |q: int| result@[q]@);
    result.push(String::new());
    let ghost s3 = Seq::new(result@.len(), |q: int| result@[q]@);
    proof {
        assert(s3 =~= s25.push(Seq::<char>::empty()));
        assert(s3 =~= s2 + seq!["---"@, Seq::<char>::empty()]);
    }
    push_lines(&mut result, ls, end, ls.len());
    proof {
        assert(lv.subrange(end as int, ls@.len() as int) =~= lv.skip(end as int));
        assert(Seq::new(result@.len(), |q: int| result@[q]@) =~= s3 + lv.skip(end as int));
        assert(Seq::new(result@.len(), |q: int| result@[q]@) =~= rewritten_lines(lv, start as int, end as int, yaml@));
    }
    result
}

/// Replace a plan's frontmatter with `yaml`, rendered already.
pub fn rewrite_frontmatter(raw: &str, yaml: &str) -> (r: Result<String, FrontmatterError>)
    ensures
        match r {
            Ok(t) => rewrite_spec(raw@, yaml@) == Ok::<Seq<char>, FrontmatterError>(t@),
            Err(e) => rewrite_spec(raw@, yaml@) == Err::<Seq<char>, FrontmatterError>(e),
        },
{
    let ls = str_lines(raw);
    let ghost lv = lines(raw@);
    assert(Seq::new(ls@.len(), |q: int| ls@[q]@) =~= lv);
    let (start, end) = match locate_block(&ls) {
        Ok(b) => b,
        Err(e) => {
            return Err(e);
        },
    };
    let result = assemble(&ls, start, end, yaml);
    let mut output = join_strings(&result, "\n");
    proof {
        assert(result@.map_values(|p: String| p@) =~= Seq::new(result@.len(), |q: int| result@[q]@));
    }
    push_char(&mut output, '\n');
    proof {
        reveal_strlit("\n");
        assert(block_bounds(lv) == Ok::<(int, int), FrontmatterError>((start as int, end as int)));
        assert(output@ == join(rewritten_lines(lv, start as int, end as int, yaml@), "\n"@) + "\n"@);
        assert(rewritten_lines(lv, start as int, end as int, yaml@) == lv.take(start as int) + seq!["---"@] + (if yaml@.len() > 0 {
            lines(yaml@)
        } else {
            Seq::empty()
        }) + seq!["---"@, Seq::<char>::empty()] + lv.skip(end as int));
    }
    Ok(output)
}

} // verus!
