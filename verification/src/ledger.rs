//! The transition ledger (`runtime/state-transitions.log`, one
//! `<task-id> <from>@<to>` line per move, in the order the moves happened)
//! and what is read out of it: the state each task first left, which is
//! where it was authored; the moves of one task; and the handoffs a state
//! inherits from the state the task last came from.
use vstd::prelude::*;
use crate::recipe::{find_char, first_index};
use crate::text::{
    chars_of, lines, slice_vec, split_whitespace, str_eq, str_lines, string_of, trim, trimmed,
    words,
};

verus! {

// ---------------------------------------------------------------------------
// First departures
// ---------------------------------------------------------------------------

/// A ledger line read as `(task id, state it left)`: the first two words,
/// the second cut at its first `@`. `None` for a line that is not a move,
/// or that leaves an empty state.
pub open spec fn departure(line: Seq<char>) -> Option<(Seq<char>, Seq<char>)> {
    let f = words(line);
    if f.len() < 2 {
        None
    } else {
        match first_index(f[1], '@') {
            None => None,
            Some(a) => if a == 0 {
                None
            } else {
                Some((f[0], f[1].take(a)))
            },
        }
    }
}

/// Each task's first departure among the ledger lines: later lines are
/// later moves, so a task's first `from` is the state it started in.
pub open spec fn first_departures(ls: Seq<Seq<char>>) -> Map<Seq<char>, Seq<char>>
    decreases ls.len(),
{
    if ls.len() == 0 {
        Map::empty()
    } else {
        let m = first_departures(ls.drop_last());
        match departure(ls.last()) {
            Some(d) => if m.contains_key(d.0) {
                m
            } else {
                m.insert(d.0, d.1)
            },
            None => m,
        }
    }
}

fn departure_of(line: &Vec<char>) -> (r: Option<(String, String)>)
    ensures
        match r {
            Some((t, s)) => departure(line@) == Some((t@, s@)),
            None => departure(line@) is None,
        },
{
    let f = split_whitespace(line.as_slice());
    if f.len() < 2 {
        return None;
    }
    let mv = &f[1];
    match find_char(mv, '@') {
        None => None,
        Some(a) => {
            if a == 0 {
                None
            } else {
                let from = slice_vec(mv, 0, a);
                assert(from@ =~= mv@.take(a as int));
                Some((string_of(f[0].as_slice()), string_of(from.as_slice())))
            }
        },
    }
}

/// Parse a ledger into each task's first departure, one entry per task, in
/// the order tasks first moved.
pub fn ledger_first_departures(raw: &str) -> (r: Vec<(String, String)>)
    ensures
        forall|j: int|
            0 <= j < r@.len() ==> first_departures(lines(raw@)).contains_key(#[trigger] r@[j].0@)
                && first_departures(lines(raw@))[r@[j].0@] == r@[j].1@,
        forall|t: Seq<char>|
            #[trigger] first_departures(lines(raw@)).contains_key(t) ==> exists|j: int|
                0 <= j < r@.len() && (#[trigger] r@[j].0@) == t,
        forall|i: int, j: int| 0 <= i < j < r@.len() ==> r@[i].0@ != r@[j].0@,
{
    let ls = str_lines(raw);
    let ghost lv = lines(raw@);
    let mut out: Vec<(String, String)> = Vec::new();
    let mut i: usize = 0;
    assert(lv.take(0) =~= Seq::<Seq<char>>::empty());
    while i < ls.len()
        invariant
            ls@.len() == lv.len(),
            forall|q: int| 0 <= q < ls@.len() ==> (#[trigger] ls@[q])@ == lv[q],
            i <= ls@.len(),
            forall|j: int|
                0 <= j < out@.len() ==> first_departures(lv.take(i as int)).contains_key(
                    #[trigger] out@[j].0@,
                ) && first_departures(lv.take(i as int))[out@[j].0@] == out@[j].1@,
            forall|t: Seq<char>|
                #[trigger] first_departures(lv.take(i as int)).contains_key(t) ==> exists|j: int|
                    0 <= j < out@.len() && (#[trigger] out@[j].0@) == t,
            forall|a: int, b: int| 0 <= a < b < out@.len() ==> out@[a].0@ != out@[b].0@,
        decreases ls@.len() - i,
    {
        let ghost prev = first_departures(lv.take(i as int));
        assert(lv.take(i + 1).drop_last() =~= lv.take(i as int));
        assert(lv.take(i + 1).last() == ls@[i as int]@);
        match departure_of(&ls[i]) {
            None => {},
            Some((t, s)) => {
                let mut k: usize = 0;
                let mut seen = false;
                while k < out.len() && !seen
                    invariant
                        k <= out@.len(),
                        seen ==> exists|j: int| 0 <= j < out@.len() && out@[j].0@ == t@,
                        !seen ==> forall|j: int| 0 <= j < k ==> out@[j].0@ != t@,
                    decreases out@.len() - k,
                {
                    if str_eq(out[k].0.as_str(), t.as_str()) {
                        seen = true;
                    }
                    k += 1;
                }
                if !seen {
                    proof {
                        assert(!prev.contains_key(t@));
                    }
                    let ghost before = out@;
                    out.push((t, s));
                    proof {
                        assert forall|tt: Seq<char>|
                            #[trigger] first_departures(lv.take(i + 1)).contains_key(tt) implies exists|j: int|
                            0 <= j < out@.len() && (#[trigger] out@[j].0@) == tt by {
                            if tt == t@ {
                                assert(out@[out@.len() - 1].0@ == t@);
                            } else {
                                assert(prev.contains_key(tt));
                                let j = choose|j: int| 0 <= j < before.len() && before[j].0@ == tt;
                                assert(out@[j] == before[j]);
                            }
                        }
                    }
                }
            },
        }
        i += 1;
    }
    assert(lv.take(lv.len() as int) =~= lv);
    out
}

// ---------------------------------------------------------------------------
// One task's moves
// ---------------------------------------------------------------------------

/// A ledger line read as `(task id, from, to)`: the trimmed line cut at its
/// first space, the rest cut at its first `@`, each state trimmed.
pub open spec fn ledger_move(line: Seq<char>) -> Option<(Seq<char>, Seq<char>, Seq<char>)> {
    let t = trim(line);
    match first_index(t, ' ') {
        None => None,
        Some(sp) => {
            let tr = t.skip(sp + 1);
            match first_index(tr, '@') {
                None => None,
                Some(a) => Some((t.take(sp), trim(tr.take(a)), trim(tr.skip(a + 1)))),
            }
        },
    }
}

/// The `(from, to)` moves the first `k` ledger lines record for `task`.
pub open spec fn moves_of(ls: Seq<Seq<char>>, task: Seq<char>, k: int) -> Seq<(Seq<char>, Seq<char>)>
    decreases k,
{
    if k <= 0 {
        Seq::empty()
    } else {
        let m = moves_of(ls, task, k - 1);
        match ledger_move(ls[k - 1]) {
            Some(mv) => if mv.0 == task {
                m.push((mv.1, mv.2))
            } else {
                m
            },
            None => m,
        }
    }
}

/// The moves the ledger records for one task, in order, each state as the
/// ledger spells it (trimmed).
pub fn ledger_moves_for(content: &str, task_id: &str) -> (r: Vec<(String, String)>)
    ensures
        Seq::new(r@.len(), |i: int| (r@[i].0@, r@[i].1@)) == moves_of(
            lines(content@),
            task_id@,
            lines(content@).len() as int,
        ),
{
    let ls = str_lines(content);
    let ghost lv = lines(content@);
    let mut out: Vec<(String, String)> = Vec::new();
    let mut i: usize = 0;
    assert(Seq::new(out@.len(), |q: int| (out@[q].0@, out@[q].1@)) =~= Seq::<(Seq<char>, Seq<char>)>::empty());
    while i < ls.len()
        invariant
            ls@.len() == lv.len(),
            lv == lines(content@),
            forall|q: int| 0 <= q < ls@.len() ==> (#[trigger] ls@[q])@ == lv[q],
            i <= ls@.len(),
            Seq::new(out@.len(), |q: int| (out@[q].0@, out@[q].1@)) == moves_of(lv, task_id@, i as int),
        decreases ls@.len() - i,
    {
        let t = trimmed(&ls[i]);
        match find_char(&t, ' ') {
            None => {},
            Some(sp) => {
                let tr = slice_vec(&t, sp + 1, t.len());
                assert(tr@ =~= t@.skip(sp + 1));
                match find_char(&tr, '@') {
                    None => {},
                    Some(a) => {
                        let task = slice_vec(&t, 0, sp);
                        assert(task@ =~= t@.take(sp as int));
                        let from_raw = slice_vec(&tr, 0, a);
                        assert(from_raw@ =~= tr@.take(a as int));
                        let to_raw = slice_vec(&tr, a + 1, tr.len());
                        assert(to_raw@ =~= tr@.skip(a + 1));
                        let task_s = string_of(task.as_slice());
                        if str_eq(task_s.as_str(), task_id) {
                            let from = trimmed(&from_raw);
                            let to = trimmed(&to_raw);
                            let ghost before = Seq::new(out@.len(), |q: int| (out@[q].0@, out@[q].1@));
                            out.push((string_of(from.as_slice()), string_of(to.as_slice())));
                            assert(Seq::new(out@.len(), |q: int| (out@[q].0@, out@[q].1@)) =~= before.push(
                                (from@, to@),
                            ));
                        }
                    },
                }
            },
        }
        i += 1;
    }
    out
}

/// The state the last recorded move into `current` came from, among moves
/// given as `(from, to, from is a state of the machine)`, both states
/// normalized.
pub open spec fn last_source(moves: Seq<(Seq<char>, Seq<char>, bool)>, current: Seq<char>) -> Option<Seq<char>>
    decreases moves.len(),
{
    if moves.len() == 0 {
        None
    } else if moves.last().2 && moves.last().1 == current {
        Some(moves.last().0)
    } else {
        last_source(moves.drop_last(), current)
    }
}

/// The state a task last came into `current` from, for a handoff from the
/// previous transition.
pub fn last_recorded_source_state(moves: &Vec<(String, String, bool)>, current: &str) -> (r: Option<String>)
    ensures
        match r {
            Some(s) => last_source(Seq::new(moves@.len(), |i: int| (moves@[i].0@, moves@[i].1@, moves@[i].2)), current@)
                == Some(s@),
            None => last_source(Seq::new(moves@.len(), |i: int| (moves@[i].0@, moves@[i].1@, moves@[i].2)), current@)
                is None,
        },
{
    let ghost mv = Seq::new(moves@.len(), |i: int| (moves@[i].0@, moves@[i].1@, moves@[i].2));
    let mut j: usize = moves.len();
    assert(mv.take(j as int) =~= mv);
    while j > 0
        invariant
            mv == Seq::new(moves@.len(), |i: int| (moves@[i].0@, moves@[i].1@, moves@[i].2)),
            j <= moves@.len(),
            last_source(mv, current@) == last_source(mv.take(j as int), current@),
        decreases j,
    {
        let (from, to, valid) = (&moves[j - 1].0, &moves[j - 1].1, moves[j - 1].2);
        assert(mv.take(j as int).last() == mv[j - 1]);
        if valid && str_eq(to.as_str(), current) {
            return Some(String::from_str(from.as_str()));
        }
        assert(mv.take(j as int).drop_last() =~= mv.take(j - 1));
        j -= 1;
    }
    None
}

// ---------------------------------------------------------------------------
// Handoffs
// ---------------------------------------------------------------------------

/// One `handoff.inherit` entry of a state.
#[derive(Debug, PartialEq)]
pub struct HandoffInherit {
    pub from_axis: String,
    pub required: bool,
    pub name: Option<String>,
    pub merge: Option<String>,
}

/// One `outputs:` artifact of the source state.
#[derive(Debug, PartialEq)]
pub struct OutputArtifact {
    pub name: String,
    pub kind: Option<String>,
}

/// What reading an output artifact (under each identity the source state
/// declares, in order) gave.
#[derive(Debug, PartialEq)]
pub enum ArtifactRead {
    /// The first non-empty content found, trimmed.
    Content(String),
    /// No candidate path held content: the paths looked at.
    NoContent(Vec<String>),
    /// A file was there but could not be read: the report.
    Failed(String),
}

/// One place a handoff artifact may be, under one identity of its source
/// state: its path, and what was found there (`None`: no file;
/// `Some(Err(report))`: a file that could not be read).
pub struct ArtifactCandidate {
    pub path: String,
    pub found: Option<Result<String, String>>,
}

/// What reading an artifact gave, as values.
pub enum ArtifactReadView {
    Content(Seq<char>),
    NoContent(Seq<Seq<char>>),
    Failed(Seq<char>),
}

pub open spec fn artifact_read_view(r: ArtifactRead) -> ArtifactReadView {
    match r {
        ArtifactRead::Content(c) => ArtifactReadView::Content(c@),
        ArtifactRead::NoContent(p) => ArtifactReadView::NoContent(Seq::new(p@.len(), |i: int| p@[i]@)),
        ArtifactRead::Failed(m) => ArtifactReadView::Failed(m@),
    }
}

/// Reading the candidates from the `k`-th on, in order: a missing file or
/// one holding only whitespace is passed over (an empty artifact counts as
/// no handoff); the first with content gives it trimmed; a file that cannot
/// be read stops the search. With no content anywhere, every candidate path
/// is reported.
pub open spec fn first_read(c: Seq<ArtifactCandidate>, k: int) -> ArtifactReadView
    decreases c.len() - k,
{
    if k < 0 || k >= c.len() {
        ArtifactReadView::NoContent(Seq::new(c.len(), |i: int| c[i].path@))
    } else {
        match c[k].found {
            None => first_read(c, k + 1),
            Some(Err(e)) => ArtifactReadView::Failed(e@),
            Some(Ok(t)) => if trim(t@).len() == 0 {
                first_read(c, k + 1)
            } else {
                ArtifactReadView::Content(trim(t@))
            },
        }
    }
}

/// What reading a handoff artifact gives: content is never empty and is
/// already trimmed.
pub open spec fn read_is_content(r: ArtifactRead) -> bool {
    r matches ArtifactRead::Content(c) ==> c@.len() > 0 && trim(c@) == c@
}

/// Read a source state's handoff artifact from the places it may be, in the
/// order of the source state's identities.
pub fn read_handoff_artifact(candidates: &Vec<ArtifactCandidate>) -> (r: ArtifactRead)
    ensures
        artifact_read_view(r) == first_read(candidates@, 0),
        read_is_content(r),
{
    let mut i: usize = 0;
    while i < candidates.len()
        invariant
            i <= candidates@.len(),
            first_read(candidates@, i as int) == first_read(candidates@, 0),
        decreases candidates@.len() - i,
    {
        match &candidates[i].found {
            None => {},
            Some(Err(e)) => {
                return ArtifactRead::Failed(String::from_str(e.as_str()));
            },
            Some(Ok(t)) => {
                let v = chars_of(t.as_str());
                let c = trimmed(&v);
                if c.len() > 0 {
                    proof {
                        crate::text::lemma_trim_idempotent(t@);
                    }
                    return ArtifactRead::Content(string_of(c.as_slice()));
                }
            },
        }
        i += 1;
    }
    let mut paths: Vec<String> = Vec::new();
    let mut j: usize = 0;
    while j < candidates.len()
        invariant
            j <= candidates@.len(),
            paths@.len() == j,
            forall|q: int| 0 <= q < j ==> (#[trigger] paths@[q])@ == candidates@[q].path@,
        decreases candidates@.len() - j,
    {
        paths.push(String::from_str(candidates[j].path.as_str()));
        j += 1;
    }
    let r = ArtifactRead::NoContent(paths);
    assert(Seq::new(paths@.len(), |q: int| paths@[q]@) =~= Seq::new(
        candidates@.len(),
        |q: int| candidates@[q].path@,
    ));
    r
}

/// A handoff injected into the prompt.
#[derive(Debug, PartialEq)]
pub struct HandoffSection {
    pub source_state: String,
    pub content: String,
}

/// Why the handoffs of a state cannot be resolved.
#[derive(Debug, PartialEq)]
pub enum HandoffError {
    /// The ledger could not be read.
    LedgerUnreadable(String),
    /// A required handoff, and no move into this state is recorded.
    NoRecordedSource { state: String, task: String },
    /// A required handoff from a state the machine does not have.
    SourceNotInMachine { state: String, source: String },
    /// A required handoff the source state declares no output for.
    NoHandoffOutput { state: String, source: String },
    /// Several handoff outputs match and `merge: all` is not set.
    Ambiguous { state: String, source: String },
    /// A required handoff artifact with no content anywhere it could be.
    NoContent { state: String, artifact: String, source: String, looked_for: Vec<String> },
    /// An artifact that could not be read.
    ReadFailed(String),
}

/// The outcome of resolving handoffs, as values: the sections
/// `(source state, content)`, or which failure, and for an artifact failure
/// the artifact's index among the source state's outputs.
pub enum HandoffOutcome {
    Sections(Seq<(Seq<char>, Seq<char>)>),
    LedgerUnreadable,
    NoRecordedSource,
    SourceNotInMachine,
    NoHandoffOutput,
    Ambiguous,
    NoContent(int),
    ReadFailed(int),
}

/// The outputs of the source state a handoff takes: of kind `handoff`, and
/// named as the inherit entry names, if it does.
pub open spec fn matches_inherit(a: OutputArtifact, name: Option<String>) -> bool {
    &&& a.kind matches Some(k) && k@ == "handoff"@
    &&& match name {
        Some(n) => a.name@ == n@,
        None => true,
    }
}

/// Indices of the first `k` outputs a handoff takes.
pub open spec fn matching(outs: Seq<OutputArtifact>, name: Option<String>, k: int) -> Seq<int>
    decreases k,
{
    if k <= 0 {
        Seq::empty()
    } else if matches_inherit(outs[k - 1], name) {
        matching(outs, name, k - 1).push(k - 1)
    } else {
        matching(outs, name, k - 1)
    }
}

/// Reading the matching artifacts in order, after the sections `acc`.
pub open spec fn read_all(
    idx: Seq<int>,
    k: int,
    reads: Seq<ArtifactRead>,
    required: bool,
    source: Seq<char>,
    acc: Seq<(Seq<char>, Seq<char>)>,
) -> HandoffOutcome
    decreases k,
{
    if k <= 0 {
        HandoffOutcome::Sections(acc)
    } else {
        match read_all(idx, k - 1, reads, required, source, acc) {
            HandoffOutcome::Sections(s) => match reads[idx[k - 1]] {
                ArtifactRead::Content(c) => HandoffOutcome::Sections(s.push((source, c@))),
                ArtifactRead::NoContent(_) => if required {
                    HandoffOutcome::NoContent(idx[k - 1])
                } else {
                    HandoffOutcome::Sections(s)
                },
                ArtifactRead::Failed(_) => HandoffOutcome::ReadFailed(idx[k - 1]),
            },
            other => other,
        }
    }
}

/// The handoffs of the first `k` inherit entries. Only entries from
/// `transition.previous` count; a missing source, a source the machine
/// lacks, or no matching output is an error for a required entry and
/// skipped otherwise; several matches need `merge: all`.
pub open spec fn handoffs(
    inherits: Seq<HandoffInherit>,
    k: int,
    source: Result<Option<String>, String>,
    outputs: Option<Seq<OutputArtifact>>,
    reads: Seq<ArtifactRead>,
) -> HandoffOutcome
    decreases k,
{
    if k <= 0 {
        HandoffOutcome::Sections(Seq::empty())
    } else {
        match handoffs(inherits, k - 1, source, outputs, reads) {
            HandoffOutcome::Sections(acc) => {
                let inh = inherits[k - 1];
                if inh.from_axis@ != "transition.previous"@ {
                    HandoffOutcome::Sections(acc)
                } else {
                    match source {
                        Err(_) => HandoffOutcome::LedgerUnreadable,
                        Ok(None) => if inh.required {
                            HandoffOutcome::NoRecordedSource
                        } else {
                            HandoffOutcome::Sections(acc)
                        },
                        Ok(Some(src)) => match outputs {
                            None => if inh.required {
                                HandoffOutcome::SourceNotInMachine
                            } else {
                                HandoffOutcome::Sections(acc)
                            },
                            Some(outs) => {
                                let idx = matching(outs, inh.name, outs.len() as int);
                                if idx.len() == 0 {
                                    if inh.required {
                                        HandoffOutcome::NoHandoffOutput
                                    } else {
                                        HandoffOutcome::Sections(acc)
                                    }
                                } else if idx.len() > 1 && !(inh.merge matches Some(m) && m@ == "all"@) {
                                    HandoffOutcome::Ambiguous
                                } else {
                                    read_all(idx, idx.len() as int, reads, inh.required, src@, acc)
                                }
                            },
                        },
                    }
                }
            },
            other => other,
        }
    }
}

pub open spec fn sections_view(v: Seq<HandoffSection>) -> Seq<(Seq<char>, Seq<char>)> {
    Seq::new(v.len(), |i: int| (v[i].source_state@, v[i].content@))
}

fn copy_strings(v: &Vec<String>) -> (r: Vec<String>)
    ensures
        Seq::new(r@.len(), |i: int| r@[i]@) == Seq::new(v@.len(), |i: int| v@[i]@),
{
    let mut out: Vec<String> = Vec::new();
    let mut i: usize = 0;
    while i < v.len()
        invariant
            i <= v@.len(),
            out@.len() == i,
            forall|j: int| 0 <= j < i ==> (#[trigger] out@[j])@ == v@[j]@,
        decreases v@.len() - i,
    {
        out.push(String::from_str(v[i].as_str()));
        i += 1;
    }
    assert(Seq::new(out@.len(), |i: int| out@[i]@) =~= Seq::new(v@.len(), |i: int| v@[i]@));
    out
}

fn is_handoff_kind(kind: &Option<String>) -> (r: bool)
    ensures
        r == (*kind matches Some(k) && k@ == "handoff"@),
{
    match kind {
        Some(k) => str_eq(k.as_str(), "handoff"),
        None => false,
    }
}

fn matches_name(a: &OutputArtifact, name: &Option<String>) -> (r: bool)
    ensures
        r == matches_inherit(*a, *name),
{
    if !is_handoff_kind(&a.kind) {
        return false;
    }
    match name {
        Some(n) => str_eq(a.name.as_str(), n.as_str()),
        None => true,
    }
}

fn matching_indices(outs: &Vec<OutputArtifact>, name: &Option<String>) -> (r: Vec<usize>)
    ensures
        Seq::new(r@.len(), |i: int| r@[i] as int) == matching(outs@, *name, outs@.len() as int),
        forall|i: int| 0 <= i < r@.len() ==> r@[i] < outs@.len(),
{
    let mut out: Vec<usize> = Vec::new();
    let mut k: usize = 0;
    assert(Seq::new(out@.len(), |i: int| out@[i] as int) =~= Seq::<int>::empty());
    while k < outs.len()
        invariant
            k <= outs@.len(),
            Seq::new(out@.len(), |i: int| out@[i] as int) == matching(outs@, *name, k as int),
            forall|i: int| 0 <= i < out@.len() ==> out@[i] < k,
        decreases outs@.len() - k,
    {
        if matches_name(&outs[k], name) {
            let ghost before = Seq::new(out@.len(), |i: int| out@[i] as int);
            out.push(k);
            assert(Seq::new(out@.len(), |i: int| out@[i] as int) =~= before.push(k as int));
        }
        k += 1;
    }
    out
}

proof fn lemma_read_all_stops(
    idx: Seq<int>,
    k: int,
    n: int,
    reads: Seq<ArtifactRead>,
    required: bool,
    source: Seq<char>,
    acc: Seq<(Seq<char>, Seq<char>)>,
)
    requires
        0 <= k <= n,
        read_all(idx, k, reads, required, source, acc) !is Sections,
    ensures
        read_all(idx, n, reads, required, source, acc) == read_all(idx, k, reads, required, source, acc),
    decreases n - k,
{
    if n > k {
        lemma_read_all_stops(idx, k, n - 1, reads, required, source, acc);
    }
}

proof fn lemma_handoffs_stop(
    inherits: Seq<HandoffInherit>,
    k: int,
    n: int,
    source: Result<Option<String>, String>,
    outputs: Option<Seq<OutputArtifact>>,
    reads: Seq<ArtifactRead>,
)
    requires
        0 <= k <= n,
        handoffs(inherits, k, source, outputs, reads) !is Sections,
    ensures
        handoffs(inherits, n, source, outputs, reads) == handoffs(inherits, k, source, outputs, reads),
    decreases n - k,
{
    if n > k {
        lemma_handoffs_stop(inherits, k, n - 1, source, outputs, reads);
    }
}

/// The failure an error reports, given the inputs it came from.
pub open spec fn error_matches(
    e: HandoffError,
    o: HandoffOutcome,
    state: Seq<char>,
    task: Seq<char>,
    source: Result<Option<String>, String>,
    outputs: Option<Seq<OutputArtifact>>,
    reads: Seq<ArtifactRead>,
) -> bool {
    match e {
        HandoffError::LedgerUnreadable(m) => {
            &&& o is LedgerUnreadable
            &&& source matches Err(x) && m@ == x@
        },
        HandoffError::NoRecordedSource { state: s, task: t } => o is NoRecordedSource && s@ == state && t@ == task,
        HandoffError::SourceNotInMachine { state: s, source: src } => {
            &&& o is SourceNotInMachine
            &&& s@ == state
            &&& source matches Ok(Some(x)) && src@ == x@
        },
        HandoffError::NoHandoffOutput { state: s, source: src } => {
            &&& o is NoHandoffOutput
            &&& s@ == state
            &&& source matches Ok(Some(x)) && src@ == x@
        },
        HandoffError::Ambiguous { state: s, source: src } => {
            &&& o is Ambiguous
            &&& s@ == state
            &&& source matches Ok(Some(x)) && src@ == x@
        },
        HandoffError::NoContent { state: s, artifact, source: src, looked_for } => {
            &&& o matches HandoffOutcome::NoContent(a)
            &&& s@ == state
            &&& source matches Ok(Some(x)) && src@ == x@
            &&& outputs matches Some(outs) && artifact@ == outs[a].name@
            &&& reads[a] matches ArtifactRead::NoContent(paths) && Seq::new(
                looked_for@.len(),
                |i: int| looked_for@[i]@,
            ) == Seq::new(paths@.len(), |i: int| paths@[i]@)
        },
        HandoffError::ReadFailed(m) => {
            &&& o matches HandoffOutcome::ReadFailed(a)
            &&& reads[a] matches ArtifactRead::Failed(x) && m@ == x@
        },
    }
}

/// Resolve the handoffs a state injects into its prompt. `source` is the
/// state the task last came from (or why the ledger could not say),
/// `outputs` the source state's declared outputs (`None` when the machine
/// has no such state), and `reads[i]` what reading `outputs[i]` gave.
pub fn resolve_state_handoff_sections(
    state_name: &str,
    task_id: &str,
    inherits: &Vec<HandoffInherit>,
    source: &Result<Option<String>, String>,
    outputs: &Option<Vec<OutputArtifact>>,
    reads: &Vec<ArtifactRead>,
) -> (r: Result<Vec<HandoffSection>, HandoffError>)
    requires
        outputs matches Some(outs) ==> reads@.len() == outs@.len(),
        forall|j: int| 0 <= j < reads@.len() ==> read_is_content(#[trigger] reads@[j]),
    ensures
        r matches Ok(v) ==> forall|i: int|
            0 <= i < v@.len() ==> section_ok(((#[trigger] v@[i]).source_state@, v@[i].content@), *source),
        r matches Ok(v) ==> (v@.len() > 0 ==> outputs is Some),
        match r {
            Ok(v) => handoffs(inherits@, inherits@.len() as int, *source, opt_seq(*outputs), reads@)
                == HandoffOutcome::Sections(sections_view(v@)),
            Err(e) => error_matches(
                e,
                handoffs(inherits@, inherits@.len() as int, *source, opt_seq(*outputs), reads@),
                state_name@,
                task_id@,
                *source,
                opt_seq(*outputs),
                reads@,
            ),
        },
{
    let ghost outs_v = opt_seq(*outputs);
    let mut sections: Vec<HandoffSection> = Vec::new();
    let mut k: usize = 0;
    assert(sections_view(sections@) =~= Seq::<(Seq<char>, Seq<char>)>::empty());
    while k < inherits.len()
        invariant
            outs_v == opt_seq(*outputs),
            outputs matches Some(outs) ==> reads@.len() == outs@.len(),
            k <= inherits@.len(),
            handoffs(inherits@, k as int, *source, outs_v, reads@) == HandoffOutcome::Sections(
                sections_view(sections@),
            ),
        decreases inherits@.len() - k,
    {
        let inh = &inherits[k];
        let ghost acc = sections_view(sections@);
        let n = inherits.len();
        if !str_eq(inh.from_axis.as_str(), "transition.previous") {
            k += 1;
            continue;
        }
        let src = match source {
            Err(m) => {
                proof {
                    lemma_handoffs_stop(inherits@, k + 1, n as int, *source, outs_v, reads@);
                }
                return Err(HandoffError::LedgerUnreadable(String::from_str(m.as_str())));
            },
            Ok(None) => {
                if inh.required {
                    proof {
                        lemma_handoffs_stop(inherits@, k + 1, n as int, *source, outs_v, reads@);
                    }
                    return Err(
                        HandoffError::NoRecordedSource {
                            state: String::from_str(state_name),
                            task: String::from_str(task_id),
                        },
                    );
                }
                k += 1;
                continue;
            },
            Ok(Some(s)) => s,
        };
        let outs = match outputs {
            None => {
                if inh.required {
                    proof {
                        lemma_handoffs_stop(inherits@, k + 1, n as int, *source, outs_v, reads@);
                    }
                    return Err(
                        HandoffError::SourceNotInMachine {
                            state: String::from_str(state_name),
                            source: String::from_str(src.as_str()),
                        },
                    );
                }
                k += 1;
                continue;
            },
            Some(o) => o,
        };
        let idx = matching_indices(outs, &inh.name);
        let ghost iv = matching(outs@, inh.name, outs@.len() as int);
        if idx.len() == 0 {
            if inh.required {
                proof {
                    lemma_handoffs_stop(inherits@, k + 1, n as int, *source, outs_v, reads@);
                }
                return Err(
                    HandoffError::NoHandoffOutput {
                        state: String::from_str(state_name),
                        source: String::from_str(src.as_str()),
                    },
                );
            }
            k += 1;
            continue;
        }
        let merge_all = match &inh.merge {
            Some(m) => str_eq(m.as_str(), "all"),
            None => false,
        };
        if idx.len() > 1 && !merge_all {
            proof {
                lemma_handoffs_stop(inherits@, k + 1, n as int, *source, outs_v, reads@);
            }
            return Err(
                HandoffError::Ambiguous {
                    state: String::from_str(state_name),
                    source: String::from_str(src.as_str()),
                },
            );
        }
        let mut q: usize = 0;
        while q < idx.len()
            invariant
                outs_v == opt_seq(*outputs),
                *outputs == Some(*outs),
                n == inherits@.len(),
                k < n,
                *inh == inherits@[k as int],
                *source == Ok::<Option<String>, String>(Some(*src)),
                inh.from_axis@ == "transition.previous"@,
                handoffs(inherits@, k as int, *source, outs_v, reads@) == HandoffOutcome::Sections(acc),
                iv == matching(outs@, inh.name, outs@.len() as int),
                iv.len() > 0,
                !(iv.len() > 1 && !(inh.merge matches Some(m) && m@ == "all"@)),
                reads@.len() == outs@.len(),
                Seq::new(idx@.len(), |i: int| idx@[i] as int) == iv,
                forall|i: int| 0 <= i < idx@.len() ==> idx@[i] < outs@.len(),
                q <= idx@.len(),
                read_all(iv, q as int, reads@, inh.required, src@, acc) == HandoffOutcome::Sections(
                    sections_view(sections@),
                ),
            decreases idx@.len() - q,
        {
            let a = idx[q];
            assert(iv[q as int] == a as int);
            match &reads[a] {
                ArtifactRead::Content(c) => {
                    let ghost before = sections_view(sections@);
                    sections.push(
                        HandoffSection {
                            source_state: String::from_str(src.as_str()),
                            content: String::from_str(c.as_str()),
                        },
                    );
                    assert(sections_view(sections@) =~= before.push((src@, c@)));
                },
                ArtifactRead::NoContent(paths) => {
                    if inh.required {
                        proof {
                            lemma_read_all_stops(iv, q + 1, iv.len() as int, reads@, inh.required, src@, acc);
                            assert(handoffs(inherits@, k + 1, *source, outs_v, reads@) == read_all(
                                iv,
                                iv.len() as int,
                                reads@,
                                inh.required,
                                src@,
                                acc,
                            ));
                            lemma_handoffs_stop(inherits@, k + 1, n as int, *source, outs_v, reads@);
                        }
                        return Err(
                            HandoffError::NoContent {
                                state: String::from_str(state_name),
                                artifact: String::from_str(outs[a].name.as_str()),
                                source: String::from_str(src.as_str()),
                                looked_for: copy_strings(paths),
                            },
                        );
                    }
                },
                ArtifactRead::Failed(m) => {
                    proof {
                        lemma_read_all_stops(iv, q + 1, iv.len() as int, reads@, inh.required, src@, acc);
                        assert(handoffs(inherits@, k + 1, *source, outs_v, reads@) == read_all(
                            iv,
                            iv.len() as int,
                            reads@,
                            inh.required,
                            src@,
                            acc,
                        ));
                        lemma_handoffs_stop(inherits@, k + 1, n as int, *source, outs_v, reads@);
                    }
                    return Err(HandoffError::ReadFailed(String::from_str(m.as_str())));
                },
            }
            q += 1;
        }
        k += 1;
    }
    proof {
        lemma_handoff_sections_well_formed(inherits@, inherits@.len() as int, *source, opt_seq(*outputs), reads@);
        assert forall|i: int| 0 <= i < sections@.len() implies section_ok(
            ((#[trigger] sections@[i]).source_state@, sections@[i].content@),
            *source,
        ) by {
            assert(section_ok(sections_view(sections@)[i], *source));
        }
        if sections@.len() > 0 {
            assert(sections_view(sections@).len() > 0);
            assert(opt_seq(*outputs) is Some);
        }
    }
    Ok(sections)
}

/// A handoff section as it should be: from the state the task came from,
/// with non-empty, trimmed content.
pub open spec fn section_ok(p: (Seq<char>, Seq<char>), source: Result<Option<String>, String>) -> bool {
    &&& source matches Ok(Some(src)) && p.0 == src@
    &&& p.1.len() > 0
    &&& trim(p.1) == p.1
}

proof fn lemma_matching_bounds(outs: Seq<OutputArtifact>, name: Option<String>, k: int)
    ensures
        forall|i: int|
            0 <= i < matching(outs, name, k).len() ==> 0 <= #[trigger] matching(outs, name, k)[i] < k,
    decreases k,
{
    if k > 0 {
        lemma_matching_bounds(outs, name, k - 1);
        let m = matching(outs, name, k - 1);
        if matches_inherit(outs[k - 1], name) {
            assert forall|i: int| 0 <= i < m.push(k - 1).len() implies 0 <= #[trigger] m.push(k - 1)[i] < k by {
                if i < m.len() {
                    assert(m.push(k - 1)[i] == m[i]);
                }
            }
        }
    }
}

proof fn lemma_read_all_sections(
    idx: Seq<int>,
    k: int,
    reads: Seq<ArtifactRead>,
    required: bool,
    source: Result<Option<String>, String>,
    src: Seq<char>,
    acc: Seq<(Seq<char>, Seq<char>)>,
)
    requires
        source matches Ok(Some(x)) && x@ == src,
        k <= idx.len(),
        forall|i: int| 0 <= i < idx.len() ==> 0 <= #[trigger] idx[i] < reads.len(),
        forall|j: int| 0 <= j < reads.len() ==> read_is_content(#[trigger] reads[j]),
        forall|i: int| 0 <= i < acc.len() ==> section_ok(#[trigger] acc[i], source),
    ensures
        read_all(idx, k, reads, required, src, acc) matches HandoffOutcome::Sections(s) ==> forall|i: int|
            0 <= i < s.len() ==> section_ok(#[trigger] s[i], source),
    decreases k,
{
    if k > 0 {
        lemma_read_all_sections(idx, k - 1, reads, required, source, src, acc);
        let r = reads[idx[k - 1]];
        assert(read_is_content(r));
    }
}

/// The handoffs a state injects are each non-empty, trimmed and from the
/// state the task came from, which the machine has, whenever every artifact
/// read gives content as `read_handoff_artifact` does.
pub proof fn lemma_handoff_sections_well_formed(
    inherits: Seq<HandoffInherit>,
    k: int,
    source: Result<Option<String>, String>,
    outputs: Option<Seq<OutputArtifact>>,
    reads: Seq<ArtifactRead>,
)
    requires
        k <= inherits.len(),
        outputs matches Some(outs) ==> reads.len() == outs.len(),
        forall|j: int| 0 <= j < reads.len() ==> read_is_content(#[trigger] reads[j]),
    ensures
        handoffs(inherits, k, source, outputs, reads) matches HandoffOutcome::Sections(s) ==> {
            &&& forall|i: int| 0 <= i < s.len() ==> section_ok(#[trigger] s[i], source)
            &&& s.len() > 0 ==> outputs is Some
        },
    decreases k,
{
    if k > 0 {
        lemma_handoff_sections_well_formed(inherits, k - 1, source, outputs, reads);
        if let HandoffOutcome::Sections(acc) = handoffs(inherits, k - 1, source, outputs, reads) {
            let inh = inherits[k - 1];
            if let Ok(Some(src)) = source {
                if let Some(outs) = outputs {
                    let idx = matching(outs, inh.name, outs.len() as int);
                    lemma_matching_bounds(outs, inh.name, outs.len() as int);
                    lemma_read_all_sections(idx, idx.len() as int, reads, inh.required, source, src@, acc);
                }
            }
        }
    }
}

/// `reads[j]` is what reading the places in `candidates[j]` gives.
pub open spec fn reads_of_candidates(reads: Seq<ArtifactRead>, candidates: Seq<Vec<ArtifactCandidate>>) -> bool {
    &&& reads.len() == candidates.len()
    &&& forall|j: int|
        0 <= j < reads.len() ==> artifact_read_view(#[trigger] reads[j]) == first_read(candidates[j]@, 0)
}

/// `r` is what resolving the handoffs gives when the outputs of the source
/// state are read from `candidates`: the sections as values, or the error.
pub open spec fn resolves_to(
    state_name: Seq<char>,
    task_id: Seq<char>,
    inherits: Seq<HandoffInherit>,
    source: Result<Option<String>, String>,
    outputs: Option<Seq<OutputArtifact>>,
    candidates: Seq<Vec<ArtifactCandidate>>,
    r: Result<Seq<(Seq<char>, Seq<char>)>, HandoffError>,
) -> bool {
    exists|reads: Seq<ArtifactRead>|
        {
            &&& #[trigger] reads_of_candidates(reads, candidates)
            &&& match r {
                Ok(v) => handoffs(inherits, inherits.len() as int, source, outputs, reads)
                    == HandoffOutcome::Sections(v),
                Err(e) => error_matches(
                    e,
                    handoffs(inherits, inherits.len() as int, source, outputs, reads),
                    state_name,
                    task_id,
                    source,
                    outputs,
                    reads,
                ),
            }
        }
}

/// Resolve the handoffs a state injects, reading each output of the source
/// state from the places it may be: `candidates[i]` for `outputs[i]`.
pub fn resolve_handoffs_from_candidates(
    state_name: &str,
    task_id: &str,
    inherits: &Vec<HandoffInherit>,
    source: &Result<Option<String>, String>,
    outputs: &Option<Vec<OutputArtifact>>,
    candidates: &Vec<Vec<ArtifactCandidate>>,
) -> (r: Result<Vec<HandoffSection>, HandoffError>)
    requires
        outputs matches Some(outs) ==> candidates@.len() == outs@.len(),
    ensures
        resolves_to(
            state_name@,
            task_id@,
            inherits@,
            *source,
            opt_seq(*outputs),
            candidates@,
            match r {
                Ok(v) => Ok(sections_view(v@)),
                Err(e) => Err(e),
            },
        ),
        r matches Ok(v) ==> forall|i: int|
            0 <= i < v@.len() ==> section_ok(((#[trigger] v@[i]).source_state@, v@[i].content@), *source),
        r matches Ok(v) ==> (v@.len() > 0 ==> outputs is Some),
{
    let mut reads: Vec<ArtifactRead> = Vec::new();
    let mut j: usize = 0;
    while j < candidates.len()
        invariant
            j <= candidates@.len(),
            reads@.len() == j,
            forall|q: int|
                0 <= q < j ==> artifact_read_view(#[trigger] reads@[q]) == first_read(candidates@[q]@, 0),
            forall|q: int| 0 <= q < j ==> read_is_content(#[trigger] reads@[q]),
        decreases candidates@.len() - j,
    {
        reads.push(read_handoff_artifact(&candidates[j]));
        j += 1;
    }
    let r = resolve_state_handoff_sections(state_name, task_id, inherits, source, outputs, &reads);
    proof {
        assert(reads_of_candidates(reads@, candidates@));
        lemma_handoff_sections_well_formed(inherits@, inherits@.len() as int, *source, opt_seq(*outputs), reads@);
        if let Ok(v) = &r {
            assert(handoffs(inherits@, inherits@.len() as int, *source, opt_seq(*outputs), reads@)
                == HandoffOutcome::Sections(sections_view(v@)));
            assert(forall|i: int| 0 <= i < sections_view(v@).len() ==> section_ok(#[trigger] sections_view(v@)[i], *source));
            assert forall|i: int| 0 <= i < v@.len() implies section_ok(
                ((#[trigger] v@[i]).source_state@, v@[i].content@),
                *source,
            ) by {
                assert(section_ok(sections_view(v@)[i], *source));
            }
            if v@.len() > 0 {
                assert(sections_view(v@).len() > 0);
                assert(opt_seq(*outputs) is Some);
                assert(outputs is Some);
            }
        }
    }
    r
}

pub open spec fn opt_seq(o: Option<Vec<OutputArtifact>>) -> Option<Seq<OutputArtifact>> {
    match o {
        Some(v) => Some(v@),
        None => None,
    }
}

} // verus!
