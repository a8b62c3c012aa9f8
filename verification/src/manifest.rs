//! The Panta manifest `index.panta.md`: a header (the `# Panta:` title and a
//! `**States:**` line), the YAML frontmatter between `---` fences that holds
//! the recipe, and the body. Splitting a manifest into those parts, putting
//! it back together around new frontmatter, and adding a recipe entry to the
//! frontmatter's `rheis:` list.
use vstd::prelude::*;
use crate::text::{
    chars_eq, chars_of, has_prefix, join, join_strings, lines, push_char, push_str, starts_with,
    str_lines, string_of, trim, trim_end, trimmed, trimmed_end,
};
use crate::yaml::{deep_entries, get, insert, Entries, Yaml, YamlView};
use crate::recipe::RecipeError;
use crate::yaml_text::{
    entries_wf, lemma_get_wf, lemma_insert_wf, parse_yaml_mapping, render_yaml_mapping, yaml_mapping_parse,
    yaml_mapping_render, yaml_wf,
};

verus! {

// ---------------------------------------------------------------------------
// Line tests
// ---------------------------------------------------------------------------

/// A frontmatter fence: `---`, surrounding whitespace aside.
pub open spec fn is_fence(l: Seq<char>) -> bool {
    trim(l) == "---"@
}

/// A line that may stand before the frontmatter: blank, the `# Panta:`
/// title, or the `**States:**` line.
pub open spec fn is_head_line(l: Seq<char>) -> bool {
    let t = trim(l);
    ||| t.len() == 0
    ||| has_prefix(t, "# Panta:"@)
    ||| has_prefix(t, "**States:**"@)
}

/// The tests the manifest scan makes of a line.
pub enum LineTest {
    /// Where the search for the opening fence stops: a fence or a `##` heading.
    SearchEnd,
    /// A fence.
    Fence,
    /// A line that cannot stand in the header.
    NotHead,
}

pub open spec fn passes(t: LineTest, l: Seq<char>) -> bool {
    match t {
        LineTest::SearchEnd => is_fence(l) || has_prefix(trim(l), "##"@),
        LineTest::Fence => is_fence(l),
        LineTest::NotHead => !is_head_line(l),
    }
}

/// The index of the first line of `ls` that passes `t`.
pub open spec fn first_where(ls: Seq<Seq<char>>, t: LineTest) -> Option<int>
    decreases ls.len(),
{
    if ls.len() == 0 {
        None
    } else {
        match first_where(ls.drop_last(), t) {
            Some(i) => Some(i),
            None => if passes(t, ls.last()) {
                Some(ls.len() - 1)
            } else {
                None
            },
        }
    }
}

proof fn lemma_first_where_step(ls: Seq<Seq<char>>, t: LineTest, k: int)
    requires
        0 <= k < ls.len(),
        first_where(ls.take(k), t) is None,
    ensures
        first_where(ls.take(k + 1), t) == (if passes(t, ls[k]) {
            Some(k)
        } else {
            None::<int>
        }),
{
    assert(ls.take(k + 1).drop_last() =~= ls.take(k));
}

proof fn lemma_first_where_prefix(ls: Seq<Seq<char>>, t: LineTest, k: int)
    requires
        0 <= k <= ls.len(),
        first_where(ls.take(k), t) is Some,
    ensures
        first_where(ls, t) == first_where(ls.take(k), t),
    decreases ls.len(),
{
    if k == ls.len() {
        assert(ls.take(k) =~= ls);
    } else {
        assert(ls.drop_last().take(k) =~= ls.take(k));
        lemma_first_where_prefix(ls.drop_last(), t, k);
    }
}

/// The opening fence: the line where the search stops, when it is a fence
/// and only header lines stand before it.
pub open spec fn fence_open(ls: Seq<Seq<char>>) -> Option<int> {
    match first_where(ls, LineTest::SearchEnd) {
        Some(i) => if is_fence(ls[i]) && (forall|j: int| 0 <= j < i ==> is_head_line(#[trigger] ls[j])) {
            Some(i)
        } else {
            None
        },
        None => None,
    }
}

/// The closing fence: the first fence after the opening one.
pub open spec fn fence_close(ls: Seq<Seq<char>>, open: int) -> Option<int> {
    match first_where(ls.skip(open + 1), LineTest::Fence) {
        Some(r) => Some(open + 1 + r),
        None => None,
    }
}

/// Without frontmatter, the header is the leading run of header lines.
pub open spec fn head_len(ls: Seq<Seq<char>>) -> int {
    match first_where(ls, LineTest::NotHead) {
        Some(i) => i,
        None => ls.len() as int,
    }
}

/// A manifest as (header lines, frontmatter text, body lines). The
/// frontmatter is the lines between the fences joined by `\n`; without a
/// closed fence pair there is none, and the body starts at the first line
/// that cannot stand in the header.
pub open spec fn split_manifest_spec(content: Seq<char>) -> (Seq<Seq<char>>, Option<Seq<char>>, Seq<Seq<char>>) {
    let ls = lines(content);
    let h = head_len(ls);
    match fence_open(ls) {
        Some(o) => match fence_close(ls, o) {
            Some(c) => (ls.take(o), Some(join(ls.subrange(o + 1, c), "\n"@)), ls.skip(c + 1)),
            None => (ls.take(h), None, ls.skip(h)),
        },
        None => (ls.take(h), None, ls.skip(h)),
    }
}

pub open spec fn char_views(v: Seq<Vec<char>>) -> Seq<Seq<char>> {
    Seq::new(v.len(), |i: int| v[i]@)
}

pub open spec fn string_views(v: Seq<String>) -> Seq<Seq<char>> {
    Seq::new(v.len(), |i: int| v[i]@)
}

fn line_passes(t: &LineTest, l: &Vec<char>) -> (r: bool)
    ensures
        r == passes(*t, l@),
{
    let fence = chars_of("---");
    let heading = chars_of("##");
    let title = chars_of("# Panta:");
    let states = chars_of("**States:**");
    let tl = trimmed(l);
    let is_fence = chars_eq(tl.as_slice(), fence.as_slice());
    match t {
        LineTest::SearchEnd => is_fence || starts_with(tl.as_slice(), heading.as_slice()),
        LineTest::Fence => is_fence,
        LineTest::NotHead => !(tl.len() == 0 || starts_with(tl.as_slice(), title.as_slice())
            || starts_with(tl.as_slice(), states.as_slice())),
    }
}

/// The first line at or after `from` that passes `t`.
fn first_line_where(ls: &Vec<Vec<char>>, t: &LineTest, from: usize) -> (r: Option<usize>)
    requires
        from <= ls@.len(),
    ensures
        match r {
            Some(i) => from <= i < ls@.len() && first_where(char_views(ls@).skip(from as int), *t)
                == Some(i - from),
            None => first_where(char_views(ls@).skip(from as int), *t) is None,
        },
{
    let ghost s = char_views(ls@).skip(from as int);
    let mut i: usize = from;
    assert(s.take(0) =~= Seq::<Seq<char>>::empty());
    while i < ls.len()
        invariant
            s == char_views(ls@).skip(from as int),
            from <= i <= ls@.len(),
            first_where(s.take(i - from), *t) is None,
        decreases ls@.len() - i,
    {
        proof {
            lemma_first_where_step(s, *t, i - from);
        }
        if line_passes(t, &ls[i]) {
            proof {
                lemma_first_where_prefix(s, *t, i - from + 1);
            }
            return Some(i);
        }
        i += 1;
    }
    assert(s.take(i - from) =~= s);
    None
}

/// Lines `from..to` as strings.
fn strings_of(ls: &Vec<Vec<char>>, from: usize, to: usize) -> (r: Vec<String>)
    requires
        from <= to <= ls@.len(),
    ensures
        string_views(r@) == char_views(ls@).subrange(from as int, to as int),
{
    let mut out: Vec<String> = Vec::new();
    let mut i: usize = from;
    while i < to
        invariant
            from <= i <= to <= ls@.len(),
            string_views(out@) == char_views(ls@).subrange(from as int, i as int),
        decreases to - i,
    {
        let s = string_of(ls[i].as_slice());
        assert(s@ == char_views(ls@)[i as int]);
        let ghost before = out@;
        out.push(s);
        assert(string_views(out@) =~= string_views(before).push(s@));
        assert(string_views(out@) =~= char_views(ls@).subrange(from as int, i + 1));
        i += 1;
    }
    out
}

/// Whether only header lines stand before line `upto`.
fn all_head_lines(ls: &Vec<Vec<char>>, upto: usize) -> (r: bool)
    requires
        upto <= ls@.len(),
    ensures
        r == (forall|j: int| 0 <= j < upto ==> is_head_line(#[trigger] char_views(ls@)[j])),
{
    let mut j: usize = 0;
    while j < upto
        invariant
            upto <= ls@.len(),
            j <= upto,
            forall|q: int| 0 <= q < j ==> is_head_line(#[trigger] char_views(ls@)[q]),
        decreases upto - j,
    {
        if line_passes(&LineTest::NotHead, &ls[j]) {
            assert(!is_head_line(char_views(ls@)[j as int]));
            return false;
        }
        j += 1;
    }
    true
}

/// Split a manifest into its header lines, its frontmatter text (if it has
/// a closed frontmatter block right after the header) and its body lines.
pub fn split_manifest(content: &str) -> (r: (Vec<String>, Option<String>, Vec<String>))
    ensures
        string_views(r.0@) == split_manifest_spec(content@).0,
        match r.1 {
            Some(f) => split_manifest_spec(content@).1 == Some(f@),
            None => split_manifest_spec(content@).1 is None,
        },
        string_views(r.2@) == split_manifest_spec(content@).2,
{
    let ls = str_lines(content);
    let ghost lv = lines(content@);
    assert(char_views(ls@) =~= lv);
    assert(lv.skip(0) =~= lv);
    let n = ls.len();
    let open = match first_line_where(&ls, &LineTest::SearchEnd, 0) {
        Some(i) => {
            if line_passes(&LineTest::Fence, &ls[i]) && all_head_lines(&ls, i) {
                Some(i)
            } else {
                None
            }
        },
        None => None,
    };
    assert(open matches Some(o) ==> fence_open(lv) == Some(o as int));
    assert(open is None ==> fence_open(lv) is None);
    if let Some(o) = open {
        if let Some(c) = first_line_where(&ls, &LineTest::Fence, o + 1) {
            let head = strings_of(&ls, 0, o);
            let inner = strings_of(&ls, o + 1, c);
            let fm = join_strings(&inner, "\n");
            let body = strings_of(&ls, c + 1, n);
            proof {
                assert(lv.subrange(0, o as int) =~= lv.take(o as int));
                assert(lv.subrange(c + 1, n as int) =~= lv.skip(c + 1));
                assert(inner@.map_values(|p: String| p@) =~= string_views(inner@));
            }
            return (head, Some(fm), body);
        }
    }
    let h = match first_line_where(&ls, &LineTest::NotHead, 0) {
        Some(i) => i,
        None => n,
    };
    let head = strings_of(&ls, 0, h);
    let body = strings_of(&ls, h, n);
    proof {
        assert(lv.subrange(0, h as int) =~= lv.take(h as int));
        assert(lv.subrange(h as int, n as int) =~= lv.skip(h as int));
    }
    (head, None, body)
}

// ---------------------------------------------------------------------------
// Reassembly
// ---------------------------------------------------------------------------

/// Each line followed by `\n`.
pub open spec fn terminated(ls: Seq<Seq<char>>) -> Seq<char>
    decreases ls.len(),
{
    if ls.len() == 0 {
        Seq::empty()
    } else {
        terminated(ls.drop_last()) + ls.last() + seq!['\n']
    }
}

/// A manifest written back: the header lines, a blank line when the header
/// does not already end in one, the frontmatter YAML (trailing whitespace
/// trimmed) between `---` fences, and the body lines.
pub open spec fn assemble_spec(head: Seq<Seq<char>>, yaml: Seq<char>, body: Seq<Seq<char>>) -> Seq<char> {
    let gap = if head.len() > 0 && trim(head.last()).len() > 0 {
        seq!['\n']
    } else {
        Seq::empty()
    };
    terminated(head) + gap + "---\n"@ + trim_end(yaml) + "\n"@ + "---\n"@ + terminated(body)
}

fn push_terminated(out: &mut String, ls: &Vec<String>)
    ensures
        final(out)@ == old(out)@ + terminated(string_views(ls@)),
{
    let ghost start = out@;
    let ghost sv = string_views(ls@);
    let mut i: usize = 0;
    assert(sv.take(0) =~= Seq::<Seq<char>>::empty());
    assert(start + terminated(sv.take(0)) =~= start);
    while i < ls.len()
        invariant
            sv == string_views(ls@),
            i <= ls@.len(),
            out@ == start + terminated(sv.take(i as int)),
        decreases ls@.len() - i,
    {
        push_str(out, ls[i].as_str());
        push_char(out, '\n');
        proof {
            assert(sv.take(i + 1).drop_last() =~= sv.take(i as int));
            assert(sv.take(i + 1).last() == ls@[i as int]@);
            assert(out@ =~= start + terminated(sv.take(i + 1)));
        }
        i += 1;
    }
    assert(sv.take(ls@.len() as int) =~= sv);
}

/// Put a manifest back together around new frontmatter YAML.
pub fn assemble_manifest(head: &Vec<String>, yaml: &str, body: &Vec<String>) -> (r: String)
    ensures
        r@ == assemble_spec(string_views(head@), yaml@, string_views(body@)),
{
    let mut out = String::new();
    push_terminated(&mut out, head);
    let ghost after_head = out@;
    if head.len() > 0 {
        let last = chars_of(head[head.len() - 1].as_str());
        let t = trimmed(&last);
        if t.len() > 0 {
            push_char(&mut out, '\n');
        }
    }
    let ghost gap = out@.skip(after_head.len() as int);
    assert(out@ =~= after_head + gap);
    push_str(&mut out, "---\n");
    let y = chars_of(yaml);
    let ye = trimmed_end(&y);
    let ys = string_of(ye.as_slice());
    push_str(&mut out, ys.as_str());
    push_str(&mut out, "\n");
    push_str(&mut out, "---\n");
    push_terminated(&mut out, body);
    out
}

// ---------------------------------------------------------------------------
// Adding a recipe entry to the frontmatter
// ---------------------------------------------------------------------------

/// The mapping written for a new recipe entry: `id`, `template`, then
/// `inputs` and `depends-on` when they are not empty.
pub open spec fn entry_value(id: Seq<char>, template: Seq<char>, inputs: Entries, deps: Seq<Seq<char>>) -> YamlView {
    let m0 = seq![
        (YamlView::Str("id"@), YamlView::Str(id)),
        (YamlView::Str("template"@), YamlView::Str(template)),
    ];
    let m1 = if inputs.len() > 0 {
        m0.push((YamlView::Str("inputs"@), YamlView::Mapping(inputs)))
    } else {
        m0
    };
    let m2 = if deps.len() > 0 {
        m1.push(
            (
                YamlView::Str("depends-on"@),
                YamlView::List(Seq::new(deps.len(), |i: int| YamlView::Str(deps[i]))),
            ),
        )
    } else {
        m1
    };
    YamlView::Mapping(m2)
}

/// The frontmatter with `entry` appended to its `rheis:` list (a missing or
/// null list counts as empty); `None` when `rheis:` is something else.
pub open spec fn with_entry(fm: Entries, entry: YamlView) -> Option<Entries> {
    let key = YamlView::Str("rheis"@);
    match get(fm, key) {
        Some(YamlView::List(s)) => Some(insert(fm, key, YamlView::List(s.push(entry)))),
        Some(YamlView::Null) => Some(insert(fm, key, YamlView::List(seq![entry]))),
        None => Some(insert(fm, key, YamlView::List(seq![entry]))),
        Some(_) => None,
    }
}

/// Adding an entry puts it at the end of the frontmatter's `rheis:` list.
pub proof fn lemma_added_entry_is_last(fm: Entries, entry: YamlView)
    ensures
        with_entry(fm, entry) matches Some(m) ==> get(m, YamlView::Str("rheis"@)) matches Some(
            YamlView::List(s),
        ) && s.len() > 0 && s.last() == entry,
{
    let key = YamlView::Str("rheis"@);
    match get(fm, key) {
        Some(YamlView::List(s)) => {
            crate::yaml::lemma_get_insert(fm, key, YamlView::List(s.push(entry)));
        },
        Some(YamlView::Null) => {
            crate::yaml::lemma_get_insert(fm, key, YamlView::List(seq![entry]));
        },
        None => {
            crate::yaml::lemma_get_insert(fm, key, YamlView::List(seq![entry]));
        },
        Some(_) => {},
    }
}

fn str_list(items: &Vec<String>) -> (r: Vec<Yaml>)
    ensures
        r@.len() == items@.len(),
        forall|i: int| 0 <= i < items@.len() ==> (#[trigger] r@[i]).deep() == YamlView::Str(items@[i]@),
{
    let mut out: Vec<Yaml> = Vec::new();
    let mut i: usize = 0;
    while i < items.len()
        invariant
            i <= items@.len(),
            out@.len() == i,
            forall|j: int| 0 <= j < i ==> (#[trigger] out@[j]).deep() == YamlView::Str(items@[j]@),
        decreases items@.len() - i,
    {
        out.push(Yaml::Str(String::from_str(items[i].as_str())));
        i += 1;
    }
    out
}

/// The frontmatter mapping with a new recipe entry appended to `rheis:`.
pub fn add_recipe_entry(
    frontmatter: Vec<(Yaml, Yaml)>,
    id: &str,
    template: &str,
    inputs: &Vec<(Yaml, Yaml)>,
    depends_on: &Vec<String>,
) -> (r: Result<Vec<(Yaml, Yaml)>, RecipeError>)
    ensures
        match r {
            Ok(m) => with_entry(
                deep_entries(frontmatter@),
                entry_value(id@, template@, deep_entries(inputs@), string_views(depends_on@)),
            ) == Some(deep_entries(m@)),
            Err(e) => e is RheisNotList && with_entry(
                deep_entries(frontmatter@),
                entry_value(id@, template@, deep_entries(inputs@), string_views(depends_on@)),
            ) is None,
        },
{
    let ghost deps = string_views(depends_on@);
    let mut entry: Vec<(Yaml, Yaml)> = Vec::new();
    entry.push((crate::yaml::str_key("id"), Yaml::Str(String::from_str(id))));
    entry.push((crate::yaml::str_key("template"), Yaml::Str(String::from_str(template))));
    if inputs.len() > 0 {
        let copied = crate::yaml::copy_entries(inputs);
        proof {
            crate::yaml::lemma_mapping_deep(copied);
        }
        entry.push((crate::yaml::str_key("inputs"), Yaml::Mapping(copied)));
    }
    if depends_on.len() > 0 {
        let items = str_list(depends_on);
        let ghost lv = Seq::new(deps.len(), |i: int| YamlView::Str(deps[i]));
        proof {
            crate::yaml::lemma_list_deep(items);
            assert(crate::yaml::deep_items(items@) =~= lv);
        }
        entry.push((crate::yaml::str_key("depends-on"), Yaml::List(items)));
    }
    let ghost ev = entry_value(id@, template@, deep_entries(inputs@), deps);
    proof {
        crate::yaml::lemma_mapping_deep(entry);
        assert(YamlView::Mapping(deep_entries(entry@)) == ev) by {
            let m0 = seq![
                (YamlView::Str("id"@), YamlView::Str(id@)),
                (YamlView::Str("template"@), YamlView::Str(template@)),
            ];
            assert(deep_entries(entry@).take(2) =~= m0);
            assert(deep_entries(entry@) =~= ev->Mapping_0);
        }
    }
    let mut fm = frontmatter;
    let ghost d = deep_entries(fm@);
    let key = crate::yaml::str_key("rheis");
    let ghost kv = YamlView::Str("rheis"@);
    let ghost fresh = seq![ev];
    let list = match crate::yaml::find_key(&fm, &key) {
        None => {
            let mut l: Vec<Yaml> = Vec::new();
            l.push(Yaml::Mapping(entry));
            proof {
                assert(crate::yaml::deep_items(l@) =~= fresh);
            }
            l
        },
        Some(i) => match &fm[i].1 {
            Yaml::Null => {
                let mut l: Vec<Yaml> = Vec::new();
                l.push(Yaml::Mapping(entry));
                proof {
                    assert(get(d, kv) == Some(YamlView::Null));
                    assert(crate::yaml::deep_items(l@) =~= fresh);
                }
                l
            },
            Yaml::List(items) => {
                let mut l = crate::yaml::copy_list(items);
                proof {
                    crate::yaml::lemma_list_deep(*items);
                    assert(get(d, kv) == Some(YamlView::List(crate::yaml::deep_items(items@))));
                }
                let ghost before = l@;
                l.push(Yaml::Mapping(entry));
                proof {
                    assert(crate::yaml::deep_items(l@) =~= crate::yaml::deep_items(items@).push(ev));
                }
                l
            },
            _ => {
                proof {
                    assert(get(d, kv) == Some(fm@[i as int].1.deep()));
                    assert(with_entry(d, ev) is None);
                }
                return Err(RecipeError::RheisNotList);
            },
        },
    };
    assert(with_entry(d, ev) == Some(insert(d, kv, YamlView::List(crate::yaml::deep_items(list@)))));
    proof {
        crate::yaml::lemma_list_deep(list);
    }
    crate::yaml::insert_entry(&mut fm, key, Yaml::List(list));
    Ok(fm)
}

/// The entry point of an instantiated rhei: `index.rhei.md` when it is
/// there, else `plan.rhei.md`, else none.
pub fn instance_entrypoint(index_exists: bool, plan_exists: bool) -> (r: Option<String>)
    ensures
        match r {
            Some(n) => if index_exists {
                n@ == "index.rhei.md"@
            } else {
                plan_exists && n@ == "plan.rhei.md"@
            },
            None => !index_exists && !plan_exists,
        },
{
    if index_exists {
        Some(String::from_str("index.rhei.md"))
    } else if plan_exists {
        Some(String::from_str("plan.rhei.md"))
    } else {
        None
    }
}

// ---------------------------------------------------------------------------
// Writing a recipe entry into the manifest text
// ---------------------------------------------------------------------------

/// A new entry is well formed when its inputs are.
proof fn lemma_entry_wf(id: Seq<char>, template: Seq<char>, inputs: Entries, deps: Seq<Seq<char>>)
    requires
        entries_wf(inputs),
    ensures
        yaml_wf(entry_value(id, template, inputs, deps)),
{
    reveal_strlit("id");
    reveal_strlit("template");
    reveal_strlit("inputs");
    reveal_strlit("depends-on");
    let items = Seq::new(deps.len(), |i: int| YamlView::Str(deps[i]));
    assert forall|i: int| 0 <= i < items.len() implies yaml_wf(#[trigger] items[i]) by {
        assert(items[i] == YamlView::Str(deps[i]));
    }
    assert(yaml_wf(YamlView::List(items)));
    assert(yaml_wf(YamlView::Mapping(inputs)));
    let m = entry_value(id, template, inputs, deps)->Mapping_0;
    assert(YamlView::Str("id"@) != YamlView::Str("template"@)) by {
        assert("id"@.len() != "template"@.len());
    }
    assert(YamlView::Str("id"@) != YamlView::Str("inputs"@)) by {
        assert("id"@.len() != "inputs"@.len());
    }
    assert(YamlView::Str("id"@) != YamlView::Str("depends-on"@)) by {
        assert("id"@.len() != "depends-on"@.len());
    }
    assert(YamlView::Str("template"@) != YamlView::Str("inputs"@)) by {
        assert("template"@.len() != "inputs"@.len());
    }
    assert(YamlView::Str("template"@) != YamlView::Str("depends-on"@)) by {
        assert("template"@.len() != "depends-on"@.len());
    }
    assert(YamlView::Str("inputs"@) != YamlView::Str("depends-on"@)) by {
        assert("inputs"@.len() != "depends-on"@.len());
    }
    assert(unique_keys_of(m));
}

spec fn unique_keys_of(m: Entries) -> bool {
    crate::yaml::unique_keys(m) && forall|i: int| 0 <= i < m.len() ==> yaml_wf(#[trigger] m[i].0) && yaml_wf(m[i].1)
}

/// Adding a well-formed entry keeps well-formed frontmatter well formed.
proof fn lemma_with_entry_wf(fm: Entries, entry: YamlView)
    requires
        entries_wf(fm),
        yaml_wf(entry),
    ensures
        with_entry(fm, entry) matches Some(m) ==> entries_wf(m),
{
    reveal_strlit("rheis");
    let key = YamlView::Str("rheis"@);
    lemma_get_wf(fm, key);
    match get(fm, key) {
        Some(YamlView::List(s)) => {
            let l = s.push(entry);
            assert forall|i: int| 0 <= i < l.len() implies yaml_wf(#[trigger] l[i]) by {
                if i < s.len() {
                    assert(l[i] == s[i]);
                }
            }
            lemma_insert_wf(fm, key, YamlView::List(l));
        },
        Some(YamlView::Null) | None => {
            let l = seq![entry];
            assert forall|i: int| 0 <= i < l.len() implies yaml_wf(#[trigger] l[i]) by {}
            lemma_insert_wf(fm, key, YamlView::List(l));
        },
        Some(_) => {},
    }
}

/// The frontmatter a manifest holds, as entries: none when there is none or
/// it is blank, else what YAML reads there (`None` when it is no mapping).
pub open spec fn frontmatter_entries(fm: Option<Seq<char>>) -> Option<Entries> {
    match fm {
        Some(t) => if trim(t).len() > 0 {
            yaml_mapping_parse(t)
        } else {
            Some(Seq::empty())
        },
        None => Some(Seq::empty()),
    }
}

/// Read frontmatter text as a mapping: blank text is an empty one.
pub fn read_frontmatter(text: &str) -> (r: Result<Vec<(Yaml, Yaml)>, String>)
    ensures
        match r {
            Ok(m) => frontmatter_entries(Some(text@)) == Some(deep_entries(m@)) && entries_wf(deep_entries(m@)),
            Err(_) => frontmatter_entries(Some(text@)) is None,
        },
{
    let v = chars_of(text);
    if crate::text::is_blank(v.as_slice()) {
        let m: Vec<(Yaml, Yaml)> = Vec::new();
        assert(deep_entries(m@) =~= Seq::<(YamlView, YamlView)>::empty());
        Ok(m)
    } else {
        parse_yaml_mapping(text)
    }
}

/// How writing a recipe entry into a manifest's text goes.
pub enum ManifestWrite {
    /// The manifest's new text.
    Written(Seq<char>),
    /// Its frontmatter is no YAML mapping.
    Unparsable,
    /// Its `rheis:` is no list.
    NotList,
    /// The new frontmatter could not be written out.
    Unwritable,
}

/// The manifest text with a new entry: split the text, read its
/// frontmatter, append the entry to `rheis:`, write the frontmatter out
/// and put the manifest back together around it.
pub open spec fn manifest_with_entry_spec(
    content: Seq<char>,
    id: Seq<char>,
    template: Seq<char>,
    inputs: Entries,
    deps: Seq<Seq<char>>,
) -> ManifestWrite {
    let parts = split_manifest_spec(content);
    match frontmatter_entries(parts.1) {
        None => ManifestWrite::Unparsable,
        Some(m) => match with_entry(m, entry_value(id, template, inputs, deps)) {
            None => ManifestWrite::NotList,
            Some(m2) => match yaml_mapping_render(m2) {
                None => ManifestWrite::Unwritable,
                Some(y) => ManifestWrite::Written(assemble_spec(parts.0, y, parts.2)),
            },
        },
    }
}

/// The manifest text `content` with a new recipe entry appended to its
/// `rheis:` list, the header and body kept as they were. `inputs` is a
/// well-formed mapping, as parsed `--set` values are.
pub fn recipe_manifest_with_entry(
    content: &str,
    id: &str,
    template: &str,
    inputs: &Vec<(Yaml, Yaml)>,
    depends_on: &Vec<String>,
) -> (r: Result<String, RecipeError>)
    requires
        entries_wf(deep_entries(inputs@)),
    ensures
        match r {
            Ok(text) => manifest_with_entry_spec(
                content@,
                id@,
                template@,
                deep_entries(inputs@),
                string_views(depends_on@),
            ) == ManifestWrite::Written(text@),
            Err(RecipeError::FrontmatterUnparsable(_)) => manifest_with_entry_spec(
                content@,
                id@,
                template@,
                deep_entries(inputs@),
                string_views(depends_on@),
            ) is Unparsable,
            Err(RecipeError::RheisNotList) => manifest_with_entry_spec(
                content@,
                id@,
                template@,
                deep_entries(inputs@),
                string_views(depends_on@),
            ) is NotList,
            Err(RecipeError::FrontmatterUnwritable(_)) => manifest_with_entry_spec(
                content@,
                id@,
                template@,
                deep_entries(inputs@),
                string_views(depends_on@),
            ) is Unwritable,
            Err(_) => false,
        },
{
    let (head, fm, body) = split_manifest(content);
    let current: Vec<(Yaml, Yaml)> = match &fm {
        Some(t) => match read_frontmatter(t.as_str()) {
            Ok(m) => m,
            Err(e) => {
                return Err(RecipeError::FrontmatterUnparsable(e));
            },
        },
        None => Vec::new(),
    };
    let ghost cur = deep_entries(current@);
    proof {
        assert(frontmatter_entries(split_manifest_spec(content@).1) == Some(cur)) by {
            if current@.len() == 0 {
                assert(cur =~= Seq::<(YamlView, YamlView)>::empty());
            }
        }
        assert(entries_wf(cur)) by {
            if current@.len() == 0 {
                assert(cur =~= Seq::<(YamlView, YamlView)>::empty());
            }
        }
        lemma_entry_wf(id@, template@, deep_entries(inputs@), string_views(depends_on@));
        lemma_with_entry_wf(cur, entry_value(id@, template@, deep_entries(inputs@), string_views(depends_on@)));
    }
    let updated = match add_recipe_entry(current, id, template, inputs, depends_on) {
        Ok(m) => m,
        Err(e) => {
            return Err(e);
        },
    };
    let yaml = match render_yaml_mapping(&updated) {
        Ok(y) => y,
        Err(e) => {
            return Err(RecipeError::FrontmatterUnwritable(e));
        },
    };
    Ok(assemble_manifest(&head, yaml.as_str(), &body))
}

} // verus!
