//! What `rhei next` prints for the ticket it hands out, in its human form:
//! whether it was claimed, moved or only peeked at, the agent and model,
//! the ticket's own text and its children, and the state's instructions.
use vstd::prelude::*;
use crate::markdown::{title_case, title_case_kind};
use crate::text::{lines, push_str, str_eq, str_lines, string_of, trim, trim_string};

verus! {

/// A child of the ticket, as the listing names it.
#[derive(Debug, PartialEq)]
pub struct NextChild {
    pub id: String,
    pub kind: String,
    pub title: String,
    pub state: String,
    pub content: String,
}

/// What `rhei next` reports about the ticket it handed out.
#[derive(Debug, PartialEq)]
pub struct NextOutput {
    /// `--peek`: nothing was claimed or moved.
    pub peek: bool,
    /// The assignee this invocation wrote, when it took the claim.
    pub claimed_as: Option<String>,
    pub task_id: String,
    pub title: String,
    pub content: String,
    pub from_state: String,
    pub to_state: String,
    pub personality: Option<String>,
    pub instructions: String,
    pub agent: Option<String>,
    pub model: Option<String>,
    pub children: Vec<NextChild>,
}

/// The first line: a peek, a move, a claim that stays, or a ticket already
/// where it is.
pub open spec fn next_head(o: NextOutput) -> Seq<char> {
    if o.peek {
        "Task "@ + o.task_id@ + " \u{2014} current state: '"@ + o.to_state@ + "' (read-only peek; not advanced)"@
    } else if o.from_state@ != o.to_state@ {
        "Task "@ + o.task_id@ + " claimed: '"@ + o.from_state@ + "' -> '"@ + o.to_state@ + "'"@
    } else {
        match o.claimed_as {
            Some(a) => "Task "@ + o.task_id@ + " claimed by "@ + a@ + " (stays in '"@ + o.to_state@ + "')"@,
            None => "Task "@ + o.task_id@ + " (already in '"@ + o.to_state@ + "')"@,
        }
    }
}

/// A child's lines: its heading, then its trimmed text indented.
pub open spec fn child_lines(c: NextChild) -> Seq<Seq<char>> {
    seq!["  - "@ + title_case(c.kind@) + " "@ + c.id@ + ": "@ + c.title@ + " ["@ + c.state@ + "]"@] + Seq::new(
        lines(trim(c.content@)).len(),
        |i: int| "    "@ + lines(trim(c.content@))[i],
    )
}

/// The lines of the first `k` children.
pub open spec fn children_lines(cs: Seq<NextChild>, k: int) -> Seq<Seq<char>>
    decreases k,
{
    if k <= 0 {
        Seq::empty()
    } else {
        children_lines(cs, k - 1) + child_lines(cs[k - 1])
    }
}

/// The agent and model line, when either is named.
pub open spec fn agent_part(o: NextOutput) -> Seq<Seq<char>> {
    if o.agent is Some || o.model is Some {
        seq![
            "Agent: "@ + match o.agent {
                Some(a) => a@,
                None => "none"@,
            } + "  |  Model: "@ + match o.model {
                Some(m) => m@,
                None => "default"@,
            },
        ]
    } else {
        Seq::empty()
    }
}

/// The personality, after a blank line, when the state has one.
pub open spec fn personality_part(o: NextOutput) -> Seq<Seq<char>> {
    match o.personality {
        Some(p) => seq![Seq::empty(), "Personality: "@ + p@],
        None => Seq::empty(),
    }
}

/// The ticket's own text, trimmed, after a blank line, when there is any.
pub open spec fn content_part(o: NextOutput) -> Seq<Seq<char>> {
    if trim(o.content@).len() > 0 {
        seq![Seq::empty(), trim(o.content@)]
    } else {
        Seq::empty()
    }
}

/// The children, after a blank line, when there are any.
pub open spec fn children_part(o: NextOutput) -> Seq<Seq<char>> {
    if o.children@.len() > 0 {
        seq![Seq::empty()] + children_lines(o.children@, o.children@.len() as int)
    } else {
        Seq::empty()
    }
}

/// The state's instructions, under a heading naming it, when there are any.
pub open spec fn instructions_part(o: NextOutput) -> Seq<Seq<char>> {
    if o.instructions@.len() > 0 {
        seq![Seq::empty(), "--- Instructions ("@ + o.to_state@ + ") ---"@, o.instructions@]
    } else {
        Seq::empty()
    }
}

/// Everything printed, one item per `println!` (an item may hold several
/// lines of the ticket's own text).
pub open spec fn next_text_spec(o: NextOutput) -> Seq<Seq<char>> {
    seq![next_head(o)] + agent_part(o) + personality_part(o) + seq![Seq::empty(), "## Task "@ + o.task_id@ + ": "@ + o.title@]
        + content_part(o) + children_part(o) + instructions_part(o)
}

pub open spec fn texts(v: Seq<String>) -> Seq<Seq<char>> {
    Seq::new(v.len(), |i: int| v[i]@)
}

fn push_line(out: &mut Vec<String>, line: String)
    ensures
        texts(final(out)@) == texts(old(out)@).push(line@),
{
    out.push(line);
    assert(texts(out@) =~= texts(old(out)@).push(line@));
}

fn child_text(out: &mut Vec<String>, c: &NextChild)
    ensures
        texts(final(out)@) == texts(old(out)@) + child_lines(*c),
{
    let ghost start = texts(out@);
    let mut head = String::from_str("  - ");
    let kind = title_case_kind(c.kind.as_str());
    push_str(&mut head, kind.as_str());
    push_str(&mut head, " ");
    push_str(&mut head, c.id.as_str());
    push_str(&mut head, ": ");
    push_str(&mut head, c.title.as_str());
    push_str(&mut head, " [");
    push_str(&mut head, c.state.as_str());
    push_str(&mut head, "]");
    push_line(out, head);
    let body = trim_string(c.content.as_str());
    let ls = str_lines(body.as_str());
    let ghost lv = lines(trim(c.content@));
    let mut i: usize = 0;
    while i < ls.len()
        invariant
            body@ == trim(c.content@),
            lv == lines(trim(c.content@)),
            ls@.len() == lv.len(),
            forall|k: int| 0 <= k < ls@.len() ==> (#[trigger] ls@[k])@ == lv[k],
            i <= ls@.len(),
            texts(out@) == start + seq![child_lines(*c)[0]] + Seq::new(i as nat, |k: int| "    "@ + lv[k]),
        decreases ls@.len() - i,
    {
        let mut l = String::from_str("    ");
        let t = string_of(ls[i].as_slice());
        push_str(&mut l, t.as_str());
        let ghost before = texts(out@);
        push_line(out, l);
        assert(Seq::new((i + 1) as nat, |k: int| "    "@ + lv[k]) =~= Seq::new(i as nat, |k: int| "    "@ + lv[k]).push(
            "    "@ + lv[i as int],
        ));
        assert(texts(out@) =~= start + seq![child_lines(*c)[0]] + Seq::new((i + 1) as nat, |k: int| "    "@ + lv[k]));
        i += 1;
    }
    assert(child_lines(*c) =~= seq![child_lines(*c)[0]] + Seq::new(lv.len(), |k: int| "    "@ + lv[k]));
}

fn head_line(o: &NextOutput) -> (r: String)
    ensures
        r@ == next_head(*o),
{
    let mut l = String::from_str("Task ");
    push_str(&mut l, o.task_id.as_str());
    if o.peek {
        push_str(&mut l, " \u{2014} current state: '");
        push_str(&mut l, o.to_state.as_str());
        push_str(&mut l, "' (read-only peek; not advanced)");
    } else if !str_eq(o.from_state.as_str(), o.to_state.as_str()) {
        push_str(&mut l, " claimed: '");
        push_str(&mut l, o.from_state.as_str());
        push_str(&mut l, "' -> '");
        push_str(&mut l, o.to_state.as_str());
        push_str(&mut l, "'");
    } else {
        match &o.claimed_as {
            Some(a) => {
                push_str(&mut l, " claimed by ");
                push_str(&mut l, a.as_str());
                push_str(&mut l, " (stays in '");
                push_str(&mut l, o.to_state.as_str());
                push_str(&mut l, "')");
            },
            None => {
                push_str(&mut l, " (already in '");
                push_str(&mut l, o.to_state.as_str());
                push_str(&mut l, "')");
            },
        }
    }
    l
}

fn push_agent(out: &mut Vec<String>, o: &NextOutput)
    ensures
        texts(final(out)@) == texts(old(out)@) + agent_part(*o),
{
    if o.agent.is_some() || o.model.is_some() {
        let mut l = String::from_str("Agent: ");
        match &o.agent {
            Some(a) => push_str(&mut l, a.as_str()),
            None => push_str(&mut l, "none"),
        }
        push_str(&mut l, "  |  Model: ");
        match &o.model {
            Some(m) => push_str(&mut l, m.as_str()),
            None => push_str(&mut l, "default"),
        }
        push_line(out, l);
    } else {
        assert(texts(out@) =~= texts(out@) + agent_part(*o));
    }
}

fn push_personality(out: &mut Vec<String>, o: &NextOutput)
    ensures
        texts(final(out)@) == texts(old(out)@) + personality_part(*o),
{
    match &o.personality {
        Some(p) => {
            let ghost start = texts(out@);
            push_line(out, String::new());
            let mut l = String::from_str("Personality: ");
            push_str(&mut l, p.as_str());
            push_line(out, l);
            assert(texts(out@) =~= start + personality_part(*o));
        },
        None => {
            assert(texts(out@) =~= texts(out@) + personality_part(*o));
        },
    }
}

fn push_title(out: &mut Vec<String>, o: &NextOutput)
    ensures
        texts(final(out)@) == texts(old(out)@) + seq![Seq::empty(), "## Task "@ + o.task_id@ + ": "@ + o.title@],
{
    let ghost start = texts(out@);
    push_line(out, String::new());
    let mut h = String::from_str("## Task ");
    push_str(&mut h, o.task_id.as_str());
    push_str(&mut h, ": ");
    push_str(&mut h, o.title.as_str());
    push_line(out, h);
    assert(texts(out@) =~= start + seq![Seq::empty(), "## Task "@ + o.task_id@ + ": "@ + o.title@]);
}

fn push_content(out: &mut Vec<String>, o: &NextOutput)
    ensures
        texts(final(out)@) == texts(old(out)@) + content_part(*o),
{
    let ghost start = texts(out@);
    let body = trim_string(o.content.as_str());
    if crate::text::char_len(body.as_str()) > 0 {
        push_line(out, String::new());
        push_line(out, body);
        assert(texts(out@) =~= start + content_part(*o));
    } else {
        assert(texts(out@) =~= start + content_part(*o));
    }
}

fn push_children(out: &mut Vec<String>, o: &NextOutput)
    ensures
        texts(final(out)@) == texts(old(out)@) + children_part(*o),
{
    let ghost start = texts(out@);
    if o.children.len() > 0 {
        push_line(out, String::new());
        let ghost base = texts(out@);
        let mut k: usize = 0;
        while k < o.children.len()
            invariant
                k <= o.children@.len(),
                texts(out@) == base + children_lines(o.children@, k as int),
            decreases o.children@.len() - k,
        {
            child_text(out, &o.children[k]);
            assert(base + children_lines(o.children@, k + 1) =~= base + children_lines(o.children@, k as int)
                + child_lines(o.children@[k as int]));
            k += 1;
        }
        assert(texts(out@) =~= start + children_part(*o));
    } else {
        assert(texts(out@) =~= start + children_part(*o));
    }
}

fn push_instructions(out: &mut Vec<String>, o: &NextOutput)
    ensures
        texts(final(out)@) == texts(old(out)@) + instructions_part(*o),
{
    let ghost start = texts(out@);
    if crate::text::char_len(o.instructions.as_str()) > 0 {
        push_line(out, String::new());
        let mut l = String::from_str("--- Instructions (");
        push_str(&mut l, o.to_state.as_str());
        push_str(&mut l, ") ---");
        push_line(out, l);
        push_line(out, String::from_str(o.instructions.as_str()));
        assert(texts(out@) =~= start + instructions_part(*o));
    } else {
        assert(texts(out@) =~= start + instructions_part(*o));
    }
}

/// The human form of `rhei next`'s report.
pub fn next_output_text(o: &NextOutput) -> (r: Vec<String>)
    ensures
        texts(r@) == next_text_spec(*o),
{
    let mut out: Vec<String> = Vec::new();
    push_line(&mut out, head_line(o));
    assert(texts(out@) =~= seq![next_head(*o)]);
    push_agent(&mut out, o);
    push_personality(&mut out, o);
    push_title(&mut out, o);
    push_content(&mut out, o);
    push_children(&mut out, o);
    push_instructions(&mut out, o);
    out
}

} // verus!
