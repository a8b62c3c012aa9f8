//! What `rhei install` writes into an agent's instructions file: its
//! `# rhei` section, replaced in place when the file has one (the rest of
//! the file is the user's), else appended after a blank line.
use vstd::prelude::*;
use crate::text::{chars_of, join, join_chars, lines, str_lines};

verus! {

/// A line that opens the rhei section.
pub open spec fn opens_section(l: Seq<char>) -> bool {
    l == "# rhei"@ || l == "## rhei"@
}

/// The first of the first `k` lines that opens the section.
pub open spec fn first_opening(ls: Seq<Seq<char>>, k: int) -> Option<int>
    decreases k,
{
    if k <= 0 {
        None
    } else {
        match first_opening(ls, k - 1) {
            Some(i) => Some(i),
            None => if opens_section(ls[k - 1]) {
                Some(k - 1)
            } else {
                None
            },
        }
    }
}

/// The file's lines with the section in: the block from the opening line
/// up to `end` replaced by `content`, or, with no opening line, `content`
/// appended after a blank line unless the file ends in one.
pub open spec fn section_lines(ls: Seq<Seq<char>>, content: Seq<Seq<char>>, end: int) -> Seq<Seq<char>> {
    match first_opening(ls, ls.len() as int) {
        Some(s) => ls.take(s) + content + ls.skip(end),
        None => if ls.len() > 0 && ls.last().len() > 0 {
            ls.push(Seq::empty()) + content
        } else {
            ls + content
        },
    }
}

/// The new text of the file: its lines joined by `\n`, ending in one.
pub open spec fn with_section_spec(existing: Seq<char>, content: Seq<char>, end: int) -> Seq<char> {
    let body = join(section_lines(lines(existing), lines(content), end), "\n"@);
    if body.len() > 0 && body.last() == '\n' {
        body
    } else {
        body.push('\n')
    }
}

/// The texts of a list of character vectors.
pub open spec fn vviews(v: Seq<Vec<char>>) -> Seq<Seq<char>> {
    Seq::new(v.len(), |i: int| v[i]@)
}

/// Where the rhei section opens among `ls`, if it does.
pub fn find_section_opening(ls: &Vec<Vec<char>>) -> (r: Option<usize>)
    ensures
        match r {
            Some(i) => first_opening(ls@.map_values(|l: Vec<char>| l@), ls@.len() as int) == Some(i as int),
            None => first_opening(ls@.map_values(|l: Vec<char>| l@), ls@.len() as int) is None,
        },
{
    let ghost vs = ls@.map_values(|l: Vec<char>| l@);
    let heading1 = chars_of("# rhei");
    let heading2 = chars_of("## rhei");
    let mut i: usize = 0;
    while i < ls.len()
        invariant
            vs == ls@.map_values(|l: Vec<char>| l@),
            heading1@ == "# rhei"@,
            heading2@ == "## rhei"@,
            i <= ls@.len(),
            first_opening(vs, i as int) is None,
        decreases ls@.len() - i,
    {
        if crate::text::chars_eq(ls[i].as_slice(), heading1.as_slice()) || crate::text::chars_eq(
            ls[i].as_slice(),
            heading2.as_slice(),
        ) {
            proof {
                assert(vs[i as int] == ls@[i as int]@);
                lemma_opening_stays(vs, i as int + 1, ls@.len() as int);
            }
            return Some(i);
        }
        proof {
            assert(vs[i as int] == ls@[i as int]@);
        }
        i += 1;
    }
    None
}

proof fn lemma_opening_stays(ls: Seq<Seq<char>>, k: int, n: int)
    requires
        0 < k <= n,
        first_opening(ls, k - 1) is None,
        opens_section(ls[k - 1]),
    ensures
        first_opening(ls, n) == Some(k - 1),
    decreases n - k,
{
    if n > k {
        lemma_opening_stays(ls, k, n - 1);
    }
}

/// The text of an instructions file with the rhei section `content` in it.
/// `end` is where the existing section's block ends (the index of the
/// first line after it); it is read only when the file has a section.
pub fn with_rhei_section(existing: &str, content: &str, end: usize) -> (r: String)
    requires
        first_opening(lines(existing@), lines(existing@).len() as int) matches Some(s) ==> s < end <= lines(
            existing@,
        ).len(),
    ensures
        r@ == with_section_spec(existing@, content@, end as int),
{
    let ls = str_lines(existing);
    let cs = str_lines(content);
    let ghost lv = lines(existing@);
    let ghost cv = lines(content@);
    assert(vviews(ls@) =~= lv);
    assert(vviews(cs@) =~= cv);
    assert(ls@.map_values(|l: Vec<char>| l@) =~= lv);
    let opening = find_section_opening(&ls);
    let mut out: Vec<Vec<char>> = Vec::new();
    match opening {
        Some(s) => {
            let mut i: usize = 0;
            while i < s
                invariant
                    i <= s < ls@.len(),
                    vviews(out@) == lv.take(i as int),
                    lv == vviews(ls@),
                decreases s - i,
            {
                let line = crate::text::slice_vec(&ls[i], 0, ls[i].len());
                assert(line@ =~= ls@[i as int]@);
                out.push(line);
                proof {
                    assert(lv.take(i + 1) =~= lv.take(i as int).push(lv[i as int]));
                    assert(vviews(out@) =~= lv.take(i + 1));
                }
                i += 1;
            }
            let mut j: usize = 0;
            while j < cs.len()
                invariant
                    j <= cs@.len(),
                    vviews(out@) == lv.take(s as int) + cv.take(j as int),
                    cv == vviews(cs@),
                decreases cs@.len() - j,
            {
                let line = crate::text::slice_vec(&cs[j], 0, cs[j].len());
                assert(line@ =~= cs@[j as int]@);
                let ghost before = vviews(out@);
                out.push(line);
                proof {
                    assert(vviews(out@) =~= before.push(cv[j as int]));
                    assert(cv.take(j + 1) =~= cv.take(j as int).push(cv[j as int]));
                    assert(vviews(out@) =~= lv.take(s as int) + cv.take(j + 1));
                }
                j += 1;
            }
            let mut k: usize = end;
            while k < ls.len()
                invariant
                    end <= k <= ls@.len(),
                    vviews(out@) == lv.take(s as int) + cv + lv.subrange(end as int, k as int),
                    lv == vviews(ls@),
                    cv.take(cs@.len() as int) == cv,
                decreases ls@.len() - k,
            {
                let line = crate::text::slice_vec(&ls[k], 0, ls[k].len());
                assert(line@ =~= ls@[k as int]@);
                let ghost before = vviews(out@);
                out.push(line);
                proof {
                    assert(vviews(out@) =~= before.push(lv[k as int]));
                    assert(lv.subrange(end as int, k + 1) =~= lv.subrange(end as int, k as int).push(lv[k as int]));
                    assert(vviews(out@) =~= lv.take(s as int) + cv + lv.subrange(
                        end as int,
                        k + 1,
                    ));
                }
                k += 1;
            }
            assert(lv.subrange(end as int, lv.len() as int) =~= lv.skip(end as int));
        },
        None => {
            let mut i: usize = 0;
            while i < ls.len()
                invariant
                    i <= ls@.len(),
                    vviews(out@) == lv.take(i as int),
                    lv == vviews(ls@),
                decreases ls@.len() - i,
            {
                let line = crate::text::slice_vec(&ls[i], 0, ls[i].len());
                assert(line@ =~= ls@[i as int]@);
                out.push(line);
                proof {
                    assert(lv.take(i + 1) =~= lv.take(i as int).push(lv[i as int]));
                    assert(vviews(out@) =~= lv.take(i + 1));
                }
                i += 1;
            }
            assert(lv.take(lv.len() as int) =~= lv);
            let n = out.len();
            if n > 0 && out[n - 1].len() > 0 {
                out.push(Vec::new());
            }
            let ghost base = vviews(out@);
            let mut j: usize = 0;
            while j < cs.len()
                invariant
                    j <= cs@.len(),
                    vviews(out@) == base + cv.take(j as int),
                    cv == vviews(cs@),
                decreases cs@.len() - j,
            {
                let line = crate::text::slice_vec(&cs[j], 0, cs[j].len());
                assert(line@ =~= cs@[j as int]@);
                let ghost before = vviews(out@);
                out.push(line);
                proof {
                    assert(vviews(out@) =~= before.push(cv[j as int]));
                    assert(cv.take(j + 1) =~= cv.take(j as int).push(cv[j as int]));
                    assert(vviews(out@) =~= base + cv.take(j + 1));
                }
                j += 1;
            }
            assert(cv.take(cv.len() as int) =~= cv);
        },
    }
    assert(vviews(out@) =~= section_lines(lv, cv, end as int));
    assert(out@.map_values(|l: Vec<char>| l@) =~= vviews(out@));
    let nl = chars_of("\n");
    let mut body = join_chars(&out, nl.as_slice());
    let m = body.len();
    if !(m > 0 && body[m - 1] == '\n') {
        body.push('\n');
    }
    crate::text::string_of(body.as_slice())
}

proof fn lemma_opening_bounds(ls: Seq<Seq<char>>, k: int)
    ensures
        first_opening(ls, k) matches Some(s) ==> 0 <= s < k,
    decreases k,
{
    if k > 0 {
        lemma_opening_bounds(ls, k - 1);
    }
}

/// An instructions file with the rhei section put in, given where the
/// existing section's block ends (`block_end`, the index of the first line
/// after it, read only when the file has a section): a block that ends past
/// the last line ends with the file; one that does not end after its
/// opening line cannot be replaced, and gives `None`.
pub fn rhei_section_update(existing: &str, content: &str, block_end: usize) -> (r: Option<String>)
    ensures
        match first_opening(lines(existing@), lines(existing@).len() as int) {
            Some(s) => if s < block_end {
                r matches Some(t) && t@ == with_section_spec(
                    existing@,
                    content@,
                    if block_end <= lines(existing@).len() {
                        block_end as int
                    } else {
                        lines(existing@).len() as int
                    },
                )
            } else {
                r is None
            },
            None => r matches Some(t) && t@ == with_section_spec(existing@, content@, block_end as int),
        },
{
    let ls = str_lines(existing);
    let ghost lv = lines(existing@);
    assert(ls@.map_values(|l: Vec<char>| l@) =~= lv);
    match find_section_opening(&ls) {
        Some(s) => {
            proof {
                lemma_opening_bounds(lv, lv.len() as int);
            }
            if block_end <= s {
                return None;
            }
            let end = if block_end <= ls.len() {
                block_end
            } else {
                ls.len()
            };
            Some(with_rhei_section(existing, content, end))
        },
        None => Some(with_rhei_section(existing, content, block_end)),
    }
}

} // verus!
