//! `rhei new`: the checks made of its arguments before anything is decided,
//! and the judgement of a create once it is written: which validation
//! errors it introduced over the ones the project already carried.
use vstd::prelude::*;
use vstd::multiset::Multiset;
use crate::text::{chars_of, contains_char, decimal, push_str, str_eq, trim, trim_string, u64_to_string};

verus! {

broadcast use vstd::seq_lib::group_to_multiset_ensures;

pub open spec fn string_views(v: Seq<String>) -> Seq<Seq<char>> {
    Seq::new(v.len(), |i: int| v[i]@)
}

// ---------------------------------------------------------------------------
// The title
// ---------------------------------------------------------------------------

/// Why a `TITLE` cannot become a heading.
#[derive(Debug, PartialEq)]
pub enum TitleError {
    /// Nothing but whitespace.
    Empty,
    /// A line break inside it.
    MultiLine,
}

/// Refuse a `TITLE` that cannot become a heading: an empty one, or one that
/// runs over more than one line.
pub fn reject_unusable_title(title: &str) -> (r: Result<(), TitleError>)
    ensures
        match r {
            Ok(()) => trim(title@).len() > 0 && !title@.contains('\n') && !title@.contains('\r'),
            Err(TitleError::Empty) => trim(title@).len() == 0,
            Err(TitleError::MultiLine) => trim(title@).len() > 0 && (title@.contains('\n')
                || title@.contains('\r')),
        },
{
    let t = trim_string(title);
    if crate::text::char_len(t.as_str()) == 0 {
        return Err(TitleError::Empty);
    }
    let v = chars_of(title);
    if contains_char(v.as_slice(), '\n') || contains_char(v.as_slice(), '\r') {
        return Err(TitleError::MultiLine);
    }
    Ok(())
}

// ---------------------------------------------------------------------------
// The two modes
// ---------------------------------------------------------------------------

/// Every field `rhei new` can author.
#[derive(Debug, PartialEq)]
pub struct NewOptions {
    pub title: String,
    pub project: Option<String>,
    pub id: Option<String>,
    pub description: Option<String>,
    pub description_file: Option<String>,
    pub dir: bool,
    pub states: Option<String>,
    pub max_levels: Option<u8>,
    pub node_kinds: Vec<String>,
    pub under: Option<String>,
    pub kind: Option<String>,
    pub state: Option<String>,
    pub prior: Vec<String>,
    pub provides: Vec<String>,
    pub consumes: Vec<String>,
    pub assignee: Option<String>,
    pub model: Option<String>,
    pub target: Option<String>,
    pub keep_on_error: bool,
    pub dry_run: bool,
    pub json: bool,
}

/// The flags that configure a new rhei, each with whether it was given.
pub open spec fn rhei_flags(o: NewOptions) -> Seq<(Seq<char>, bool)> {
    seq![
        ("--dir"@, o.dir),
        ("--states"@, o.states is Some),
        ("--max-levels"@, o.max_levels is Some),
        ("--node-kinds"@, o.node_kinds@.len() > 0),
    ]
}

/// The flags that configure a new ticket, each with whether it was given.
pub open spec fn ticket_flags(o: NewOptions) -> Seq<(Seq<char>, bool)> {
    seq![
        ("--kind"@, o.kind is Some),
        ("--state"@, o.state is Some),
        ("--prior"@, o.prior@.len() > 0),
        ("--provides"@, o.provides@.len() > 0),
        ("--consumes"@, o.consumes@.len() > 0),
        ("--assignee"@, o.assignee is Some),
        ("--model"@, o.model is Some),
        ("--target"@, o.target is Some),
    ]
}

/// The first flag of the list that was given.
pub open spec fn first_given(flags: Seq<(Seq<char>, bool)>) -> Option<Seq<char>>
    decreases flags.len(),
{
    if flags.len() == 0 {
        None
    } else if flags[0].1 {
        Some(flags[0].0)
    } else {
        first_given(flags.drop_first())
    }
}

/// A flag given for the mode the invocation is not in.
#[derive(Debug, PartialEq)]
pub struct ModeConfusion {
    /// The flag.
    pub flag: String,
    /// Whether `--under` was given (so a rhei-only flag was refused).
    pub under: bool,
}

fn first_given_flag(names: &Vec<&str>, given: &Vec<bool>) -> (r: Option<String>)
    requires
        names@.len() == given@.len(),
    ensures
        match r {
            Some(f) => first_given(Seq::new(names@.len(), |i: int| (names@[i]@, given@[i])))
                == Some(f@),
            None => first_given(Seq::new(names@.len(), |i: int| (names@[i]@, given@[i]))) is None,
        },
{
    let ghost flags = Seq::new(names@.len(), |i: int| (names@[i]@, given@[i]));
    let mut i: usize = 0;
    assert(flags.skip(0) =~= flags);
    while i < names.len()
        invariant
            names@.len() == given@.len(),
            flags == Seq::new(names@.len(), |i: int| (names@[i]@, given@[i])),
            i <= names@.len(),
            first_given(flags) == first_given(flags.skip(i as int)),
        decreases names@.len() - i,
    {
        if given[i] {
            return Some(String::from_str(names[i]));
        }
        assert(flags.skip(i as int).drop_first() =~= flags.skip(i + 1));
        i += 1;
    }
    None
}

/// Refuse a flag that belongs to the mode the invocation is not in: a
/// rhei-only flag with `--under`, a ticket-only flag without it. The first
/// such flag, in declaration order, is named.
pub fn reject_mode_confusion(options: &NewOptions) -> (r: Result<(), ModeConfusion>)
    ensures
        match r {
            Ok(()) => if options.under is Some {
                first_given(rhei_flags(*options)) is None
            } else {
                first_given(ticket_flags(*options)) is None
            },
            Err(e) => e.under == (options.under is Some) && if options.under is Some {
                first_given(rhei_flags(*options)) == Some(e.flag@)
            } else {
                first_given(ticket_flags(*options)) == Some(e.flag@)
            },
        },
{
    if options.under.is_some() {
        let names = vec!["--dir", "--states", "--max-levels", "--node-kinds"];
        let given = vec![
            options.dir,
            options.states.is_some(),
            options.max_levels.is_some(),
            options.node_kinds.len() > 0,
        ];
        let found = first_given_flag(&names, &given);
        proof {
            assert(Seq::new(names@.len(), |i: int| (names@[i]@, given@[i])) =~= rhei_flags(*options));
        }
        return match found {
            Some(flag) => Err(ModeConfusion { flag, under: true }),
            None => Ok(()),
        };
    }
    let names = vec!["--kind", "--state", "--prior", "--provides", "--consumes", "--assignee", "--model", "--target"];
    let given = vec![
        options.kind.is_some(),
        options.state.is_some(),
        options.prior.len() > 0,
        options.provides.len() > 0,
        options.consumes.len() > 0,
        options.assignee.is_some(),
        options.model.is_some(),
        options.target.is_some(),
    ];
    let found = first_given_flag(&names, &given);
    proof {
        assert(Seq::new(names@.len(), |i: int| (names@[i]@, given@[i])) =~= ticket_flags(*options));
    }
    match found {
        Some(flag) => Err(ModeConfusion { flag, under: false }),
        None => Ok(()),
    }
}

/// The note a ticket create prints: `--assignee` marks the ticket claimed,
/// which `rhei next` and `rhei run` then skip.
pub open spec fn assignee_note(assignee: Seq<char>) -> Seq<char> {
    "`--assignee "@ + trim(assignee)
        + "` marks the ticket claimed and in progress: `rhei next` and `rhei run` skip it until `rhei release <id>`."@
}

/// What the flags of a ticket create do that they do not say on their face.
pub fn ticket_create_notes(options: &NewOptions) -> (r: Vec<String>)
    ensures
        match options.assignee {
            Some(a) => string_views(r@) == seq![assignee_note(a@)],
            None => r@.len() == 0,
        },
{
    match &options.assignee {
        None => Vec::new(),
        Some(a) => {
            let mut note = String::from_str("`--assignee ");
            let t = trim_string(a.as_str());
            note.append(t.as_str());
            note.append(
                "` marks the ticket claimed and in progress: `rhei next` and `rhei run` skip it until `rhei release <id>`.",
            );
            let mut out: Vec<String> = Vec::new();
            out.push(note);
            assert(string_views(out@) =~= seq![assignee_note(a@)]);
            out
        },
    }
}

// ---------------------------------------------------------------------------
// Errors a create introduced
// ---------------------------------------------------------------------------

/// The errors of `after` not accounted for by `unspent`, taken in order:
/// each error that `unspent` still holds spends one occurrence of it.
pub open spec fn introduced(unspent: Multiset<Seq<char>>, after: Seq<Seq<char>>) -> Seq<Seq<char>>
    decreases after.len(),
{
    if after.len() == 0 {
        Seq::empty()
    } else if unspent.count(after[0]) > 0 {
        introduced(unspent.remove(after[0]), after.drop_first())
    } else {
        seq![after[0]] + introduced(unspent, after.drop_first())
    }
}

/// Each error is introduced as many times as `after` carries it beyond what
/// `inherited` carried: a message the project already had twice and now has
/// three times is one new occurrence.
pub proof fn lemma_introduced_counts(unspent: Multiset<Seq<char>>, after: Seq<Seq<char>>)
    ensures
        introduced(unspent, after).to_multiset() =~= after.to_multiset().difference_with(unspent),
    decreases after.len(),
{
    broadcast use vstd::multiset::group_multiset_axioms;
    broadcast use vstd::multiset::lemma_difference_count;

    if after.len() == 0 {
        assert(after.to_multiset() =~= Multiset::empty());
        assert(introduced(unspent, after).to_multiset() =~= Multiset::empty());
    } else {
        let x = after[0];
        let rest = after.drop_first();
        lemma_introduced_counts(if unspent.count(x) > 0 {
            unspent.remove(x)
        } else {
            unspent
        }, rest);
        assert(after.remove(0) =~= rest);
        assert(rest.to_multiset() =~= after.to_multiset().remove(x));
        if unspent.count(x) > 0 {
            assert forall|e: Seq<char>| #[trigger]
                introduced(unspent, after).to_multiset().count(e) == after.to_multiset().difference_with(
                    unspent,
                ).count(e) by {}
        } else {
            let out = introduced(unspent, rest);
            let whole = seq![x] + out;
            assert(whole == introduced(unspent, after));
            assert(whole.remove(0) =~= out);
            assert(whole[0] == x);
            assert(whole.remove(0).to_multiset() =~= whole.to_multiset().remove(x));
            assert(whole.contains(x));
            assert(whole.to_multiset().count(x) > 0);
            assert(after.contains(x));
            assert(after.to_multiset().count(x) > 0);
            assert forall|e: Seq<char>| #[trigger]
                introduced(unspent, after).to_multiset().count(e) == after.to_multiset().difference_with(
                    unspent,
                ).count(e) by {
                assert(out.to_multiset().count(e) == rest.to_multiset().difference_with(unspent).count(e));
            }
        }
    }
}

/// A project failing exactly as it did before a create has nothing the
/// create introduced.
pub proof fn lemma_same_errors_introduce_nothing(errors: Seq<Seq<char>>)
    ensures
        introduced(errors.to_multiset(), errors).len() == 0,
{
    broadcast use vstd::multiset::lemma_difference_count;

    lemma_introduced_counts(errors.to_multiset(), errors);
    let out = introduced(errors.to_multiset(), errors);
    assert(errors.to_multiset().difference_with(errors.to_multiset()) =~= Multiset::empty());
    assert(out.to_multiset().len() == 0);
}

/// The errors in `after` that `inherited` does not account for. Each
/// inherited error is spent once.
pub fn errors_introduced_over(inherited: &Vec<String>, after: Vec<String>) -> (r: Vec<String>)
    ensures
        string_views(r@) == introduced(string_views(inherited@).to_multiset(), string_views(after@)),
        string_views(r@).to_multiset() == string_views(after@).to_multiset().difference_with(
            string_views(inherited@).to_multiset(),
        ),
{
    let ghost av = string_views(after@);
    let ghost u0 = string_views(inherited@).to_multiset();
    let mut unspent: Vec<String> = Vec::new();
    let mut j: usize = 0;
    while j < inherited.len()
        invariant
            j <= inherited@.len(),
            string_views(unspent@) == string_views(inherited@).take(j as int),
        decreases inherited@.len() - j,
    {
        let ghost before = unspent@;
        let copy = String::from_str(inherited[j].as_str());
        assert(copy@ == string_views(inherited@)[j as int]);
        unspent.push(copy);
        assert(string_views(unspent@) =~= string_views(before).push(copy@));
        assert(string_views(inherited@).take(j + 1) =~= string_views(inherited@).take(j as int).push(
            copy@,
        ));
        j += 1;
    }
    assert(string_views(inherited@).take(inherited@.len() as int) =~= string_views(inherited@));
    let mut out: Vec<String> = Vec::new();
    let mut i: usize = 0;
    assert(av.skip(0) =~= av);
    assert(string_views(out@) + introduced(u0, av.skip(0)) =~= introduced(u0, av));
    while i < after.len()
        invariant
            av == string_views(after@),
            i <= after@.len(),
            string_views(out@) + introduced(string_views(unspent@).to_multiset(), av.skip(i as int))
                == introduced(u0, av),
        decreases after@.len() - i,
    {
        let ghost um = string_views(unspent@).to_multiset();
        let e = after[i].as_str();
        assert(av.skip(i as int)[0] == e@);
        assert(av.skip(i as int).drop_first() =~= av.skip(i + 1));
        let mut k: usize = 0;
        let mut found: Option<usize> = None;
        while k < unspent.len() && found.is_none()
            invariant
                k <= unspent@.len(),
                found matches Some(f) ==> f < unspent@.len() && string_views(unspent@)[f as int] == e@,
                found is None ==> forall|q: int| 0 <= q < k ==> string_views(unspent@)[q] != e@,
            decreases unspent@.len() - k,
        {
            if str_eq(unspent[k].as_str(), e) {
                found = Some(k);
            }
            k += 1;
        }
        match found {
            Some(f) => {
                let ghost sv = string_views(unspent@);
                assert(sv[f as int] == e@);
                assert(sv.contains(e@));
                let _ = unspent.remove(f);
                assert(string_views(unspent@) =~= sv.remove(f as int));
                assert(um == sv.to_multiset());
                assert(sv.to_multiset().count(e@) > 0);
                assert(um.count(e@) > 0);
                assert(sv.remove(f as int).to_multiset() =~= um.remove(e@));
                assert(introduced(um, av.skip(i as int)) == introduced(um.remove(e@), av.skip(i + 1)));
            },
            None => {
                assert(!string_views(unspent@).contains(e@));
                assert(um.count(e@) == 0);
                assert(introduced(um, av.skip(i as int)) == seq![e@] + introduced(um, av.skip(i + 1)));
                let ghost before = out@;
                out.push(String::from_str(e));
                assert(string_views(out@) =~= string_views(before) + seq![e@]);
                assert(string_views(before) + (seq![e@] + introduced(um, av.skip(i + 1))) =~= string_views(
                    out@,
                ) + introduced(um, av.skip(i + 1)));
            },
        }
        i += 1;
    }
    assert(av.skip(after@.len() as int) =~= Seq::<Seq<char>>::empty());
    assert(string_views(out@) =~= introduced(u0, av));
    proof {
        lemma_introduced_counts(u0, av);
    }
    out
}

// ---------------------------------------------------------------------------
// Judging a written create
// ---------------------------------------------------------------------------

/// What the validation after a write says about the create.
#[derive(Debug, PartialEq)]
pub enum CreateVerdict {
    /// It added these errors: roll back ("the project would not validate
    /// with it").
    Introduced(Vec<String>),
    /// The project does not load, and did before in some other way: roll
    /// back ("the project would not load with it").
    Unloadable(String),
    /// The project did not load before the write and fails the same way
    /// after it: nothing here is the create's doing, and there is nothing to
    /// read the new id back out of.
    InheritedUnloadable,
    /// It added nothing: the new id has still to read back out of the plan.
    ReadBack,
}

/// Judge the validation after a write against the errors the project
/// already carried (`inherited`): `after` is the errors the validation
/// pass found, or the report of a project that would not load.
pub fn judge_validation(inherited: &Vec<String>, after: Result<Vec<String>, String>) -> (r: CreateVerdict)
    ensures
        match after {
            Ok(errors) => match r {
                CreateVerdict::Introduced(v) => string_views(v@) == introduced(
                    string_views(inherited@).to_multiset(),
                    string_views(errors@),
                ) && v@.len() > 0,
                CreateVerdict::ReadBack => introduced(
                    string_views(inherited@).to_multiset(),
                    string_views(errors@),
                ).len() == 0,
                _ => false,
            },
            Err(report) => match r {
                CreateVerdict::InheritedUnloadable => string_views(inherited@).contains(report@),
                CreateVerdict::Unloadable(m) => !string_views(inherited@).contains(report@) && m@ == report@,
                _ => false,
            },
        },
{
    match after {
        Ok(errors) => {
            let introduced_errors = errors_introduced_over(inherited, errors);
            if introduced_errors.len() > 0 {
                CreateVerdict::Introduced(introduced_errors)
            } else {
                CreateVerdict::ReadBack
            }
        },
        Err(report) => {
            let ghost iv = string_views(inherited@);
            let mut i: usize = 0;
            while i < inherited.len()
                invariant
                    iv == string_views(inherited@),
                    after == Err::<Vec<String>, String>(report),
                    i <= inherited@.len(),
                    forall|q: int| 0 <= q < i ==> iv[q] != report@,
                decreases inherited@.len() - i,
            {
                if str_eq(inherited[i].as_str(), report.as_str()) {
                    assert(iv[i as int] == report@);
                    return CreateVerdict::InheritedUnloadable;
                }
                i += 1;
            }
            CreateVerdict::Unloadable(report)
        },
    }
}

/// Whether a create reads back out of the reloaded plan: a rhei by its id
/// among the project's rheis; a ticket by its id, in the very file written.
pub fn created_id_reads_back(is_rhei: bool, rhei_ids: &Vec<String>, id: &str, task_found: bool, in_written_file: bool) -> (r: bool)
    ensures
        r == if is_rhei {
            string_views(rhei_ids@).contains(id@)
        } else {
            task_found && in_written_file
        },
{
    if is_rhei {
        let ghost iv = string_views(rhei_ids@);
        let mut i: usize = 0;
        while i < rhei_ids.len()
            invariant
                iv == string_views(rhei_ids@),
                is_rhei,
                i <= rhei_ids@.len(),
                forall|q: int| 0 <= q < i ==> iv[q] != id@,
            decreases rhei_ids@.len() - i,
        {
            if str_eq(rhei_ids[i].as_str(), id) {
                assert(iv[i as int] == id@);
                return true;
            }
            i += 1;
        }
        false
    } else {
        task_found && in_written_file
    }
}


// ---------------------------------------------------------------------------
// Keeping or undoing a create, and saying so
// ---------------------------------------------------------------------------

/// What becomes of a written create.
#[derive(Debug, PartialEq, Eq)]
pub enum NewWriteStep {
    /// A dry run whose create worked: undo it and show what it would write.
    PreviewDryRun,
    /// A dry run whose create would have been rolled back: undo it and fail
    /// with the reason.
    FailDryRun,
    /// It worked: keep it and report it.
    Keep,
    /// It failed and `--keep-on-error` was given: keep it and fail.
    KeepFailing,
    /// It failed: undo it and fail with the reason.
    RollBack,
}

/// A dry run undoes every create; a real one keeps what worked, and what
/// failed only under `--keep-on-error`.
pub fn new_write_step(dry_run: bool, failed: bool, keep_on_error: bool) -> (r: NewWriteStep)
    ensures
        r == if dry_run {
            if failed {
                NewWriteStep::FailDryRun
            } else {
                NewWriteStep::PreviewDryRun
            }
        } else if !failed {
            NewWriteStep::Keep
        } else if keep_on_error {
            NewWriteStep::KeepFailing
        } else {
            NewWriteStep::RollBack
        },
{
    if dry_run {
        if failed {
            NewWriteStep::FailDryRun
        } else {
            NewWriteStep::PreviewDryRun
        }
    } else if !failed {
        NewWriteStep::Keep
    } else if keep_on_error {
        NewWriteStep::KeepFailing
    } else {
        NewWriteStep::RollBack
    }
}

/// What is said before the failure itself when a create is undone, or kept
/// failing under `--keep-on-error`.
pub open spec fn failure_note_spec(step: NewWriteStep, reason: Seq<char>, path: Seq<char>) -> Option<Seq<char>> {
    match step {
        NewWriteStep::FailDryRun => Some(
            "note: nothing was written \u{2014} this was a dry run, and the real create would have been rolled back because "@
                + reason + "."@,
        ),
        NewWriteStep::RollBack => Some(
            "note: nothing was written \u{2014} the create was rolled back because "@ + reason
                + ". Re-run with `--keep-on-error` to inspect it."@,
        ),
        NewWriteStep::KeepFailing => Some("warning: kept "@ + path + " \u{2014} the project is left failing validation"@),
        _ => None,
    }
}

/// The line said before a failing create's own report.
pub fn failure_note(step: NewWriteStep, reason: &str, path: &str) -> (r: Option<String>)
    ensures
        match failure_note_spec(step, reason@, path@) {
            Some(m) => (r matches Some(x) && x@ == m),
            None => r is None,
        },
{
    match step {
        NewWriteStep::FailDryRun => {
            let mut m = String::from_str(
                "note: nothing was written \u{2014} this was a dry run, and the real create would have been rolled back because ",
            );
            push_str(&mut m, reason);
            push_str(&mut m, ".");
            Some(m)
        },
        NewWriteStep::RollBack => {
            let mut m = String::from_str("note: nothing was written \u{2014} the create was rolled back because ");
            push_str(&mut m, reason);
            push_str(&mut m, ". Re-run with `--keep-on-error` to inspect it.");
            Some(m)
        },
        NewWriteStep::KeepFailing => {
            let mut m = String::from_str("warning: kept ");
            push_str(&mut m, path);
            push_str(&mut m, " \u{2014} the project is left failing validation");
            Some(m)
        },
        _ => None,
    }
}

/// The warning that the project failed validation before the create: none
/// when it did not.
pub open spec fn inherited_warning_spec(count: nat) -> Option<Seq<char>> {
    if count == 0 {
        None
    } else {
        Some(
            "warning: the project was already failing validation before this create ("@ + decimal(count) + " "@
                + if count == 1 {
                "error"@
            } else {
                "errors"@
            }
                + "), and it fails the same way after it \u{2014} the write is kept, and those errors are not this create's. Run `rhei validate` to see them."@,
        )
    }
}

/// Say that the errors a project already carried are not the create's.
pub fn inherited_validation_warning(inherited: &Vec<String>) -> (r: Option<String>)
    ensures
        match inherited_warning_spec(inherited@.len()) {
            Some(m) => (r matches Some(x) && x@ == m),
            None => r is None,
        },
{
    let count = inherited.len();
    if count == 0 {
        return None;
    }
    let mut m = String::from_str("warning: the project was already failing validation before this create (");
    let n = u64_to_string(count as u64);
    push_str(&mut m, n.as_str());
    push_str(&mut m, " ");
    if count == 1 {
        push_str(&mut m, "error");
    } else {
        push_str(&mut m, "errors");
    }
    push_str(
        &mut m,
        "), and it fails the same way after it \u{2014} the write is kept, and those errors are not this create's. Run `rhei validate` to see them.",
    );
    Some(m)
}

/// A create as its report names it.
#[derive(Debug, PartialEq)]
pub struct NewWriteReport {
    /// `rhei` or `ticket`.
    pub kind: String,
    pub id: String,
    pub title: String,
    /// Where it is written, as displayed.
    pub path: String,
    /// The new ticket's state; `None` for a rhei.
    pub state: Option<String>,
    pub notes: Vec<String>,
    pub next_hint: Option<String>,
}

/// The lines a kept create is reported with: what was created where, each
/// note, and the command that follows, if any.
pub open spec fn new_write_lines(w: NewWriteReport) -> Seq<Seq<char>> {
    seq![
        match w.state {
            Some(st) => "Created ticket "@ + w.id@ + " \""@ + w.title@ + "\" ["@ + st@ + "] in "@ + w.path@,
            None => "Created rhei \""@ + w.title@ + "\" as `"@ + w.id@ + "` at "@ + w.path@,
        },
    ] + Seq::new(w.notes@.len(), |i: int| "Note: "@ + w.notes@[i]@) + match w.next_hint {
        Some(h) => seq!["Next: "@ + h@],
        None => Seq::empty(),
    }
}

/// Report a kept create.
pub fn report_new_write(w: &NewWriteReport) -> (r: Vec<String>)
    ensures
        Seq::new(r@.len(), |i: int| r@[i]@) == new_write_lines(*w),
{
    let mut out: Vec<String> = Vec::new();
    match &w.state {
        Some(st) => {
            let mut l = String::from_str("Created ticket ");
            push_str(&mut l, w.id.as_str());
            push_str(&mut l, " \"");
            push_str(&mut l, w.title.as_str());
            push_str(&mut l, "\" [");
            push_str(&mut l, st.as_str());
            push_str(&mut l, "] in ");
            push_str(&mut l, w.path.as_str());
            out.push(l);
        },
        None => {
            let mut l = String::from_str("Created rhei \"");
            push_str(&mut l, w.title.as_str());
            push_str(&mut l, "\" as `");
            push_str(&mut l, w.id.as_str());
            push_str(&mut l, "` at ");
            push_str(&mut l, w.path.as_str());
            out.push(l);
        },
    }
    let ghost first = Seq::new(out@.len(), |i: int| out@[i]@);
    let mut i: usize = 0;
    while i < w.notes.len()
        invariant
            i <= w.notes@.len(),
            out@.len() == i + 1,
            out@[0]@ == first[0],
            first.len() == 1,
            forall|k: int| 1 <= k <= i ==> (#[trigger] out@[k])@ == "Note: "@ + w.notes@[k - 1]@,
        decreases w.notes@.len() - i,
    {
        let mut l = String::from_str("Note: ");
        push_str(&mut l, w.notes[i].as_str());
        out.push(l);
        i += 1;
    }
    match &w.next_hint {
        Some(h) => {
            let mut l = String::from_str("Next: ");
            push_str(&mut l, h.as_str());
            out.push(l);
        },
        None => {},
    }
    assert(Seq::new(out@.len(), |k: int| out@[k]@) =~= new_write_lines(*w));
    out
}

/// What a dry run prints of a create that would work: what it would create
/// where, a blank line, and the text it would write.
pub fn dry_run_preview(kind: &str, id: &str, path: &str, preview: &str) -> (r: String)
    ensures
        r@ == "Would create "@ + kind@ + " "@ + id@ + " at "@ + path@ + "\n\n"@ + preview@,
{
    let mut l = String::from_str("Would create ");
    push_str(&mut l, kind);
    push_str(&mut l, " ");
    push_str(&mut l, id);
    push_str(&mut l, " at ");
    push_str(&mut l, path);
    push_str(&mut l, "\n\n");
    push_str(&mut l, preview);
    l
}

/// Where a create lands when the rhei named belongs to a project elsewhere:
/// said before anything is written. Nothing when the scope was not widened.
pub fn widened_scope_note(implied_scope: &Vec<String>, project_path: &str) -> (r: Option<String>)
    ensures
        implied_scope@.len() == 0 ==> r is None,
        implied_scope@.len() > 0 ==> (r matches Some(m) && m@ == "Scope: rhei '"@ + implied_scope@[0]@
            + "' belongs to the project at "@ + project_path@
            + ", and its state machine, settings, and cross-rhei **Prior:** resolve only there \u{2014} creating into that project."@),
{
    if implied_scope.len() == 0 {
        return None;
    }
    let mut m = String::from_str("Scope: rhei '");
    push_str(&mut m, implied_scope[0].as_str());
    push_str(&mut m, "' belongs to the project at ");
    push_str(&mut m, project_path);
    push_str(
        &mut m,
        ", and its state machine, settings, and cross-rhei **Prior:** resolve only there \u{2014} creating into that project.",
    );
    Some(m)
}


/// The clause completing "the create was rolled back because ..." for a
/// verdict that undoes the create; `None` for one that does not.
pub fn verdict_reason(v: &CreateVerdict) -> (r: Option<String>)
    ensures
        match v {
            CreateVerdict::Introduced(_) => (r matches Some(m) && m@ == "the project would not validate with it"@),
            CreateVerdict::Unloadable(_) => (r matches Some(m) && m@ == "the project would not load with it"@),
            _ => r is None,
        },
{
    match v {
        CreateVerdict::Introduced(_) => Some(String::from_str("the project would not validate with it")),
        CreateVerdict::Unloadable(_) => Some(String::from_str("the project would not load with it")),
        _ => None,
    }
}

/// A create that validates but does not read back out of the plan: the
/// message, the hint, and the clause for the rollback note.
pub fn not_read_back_failure(kind: &str, id: &str, path: &str) -> (r: (String, String, String))
    ensures
        r.0@ == kind@ + " '"@ + id@ + "' was written to "@ + path@
            + ", but reloading the project does not find it there"@,
        r.1@ == "check the block did not land inside a code fence, or past the end of the section it was aimed at."@,
        r.2@ == "the plan does not read it back"@,
{
    let mut m = String::from_str(kind);
    push_str(&mut m, " '");
    push_str(&mut m, id);
    push_str(&mut m, "' was written to ");
    push_str(&mut m, path);
    push_str(&mut m, ", but reloading the project does not find it there");
    (
        m,
        String::from_str(
            "check the block did not land inside a code fence, or past the end of the section it was aimed at.",
        ),
        String::from_str("the plan does not read it back"),
    )
}

/// Why a written create is undone.
#[derive(Debug, PartialEq)]
pub enum CreateFailure {
    /// The validation errors it introduced.
    Introduced(Vec<String>),
    /// The report of a project it left unloadable.
    Unloadable(String),
    /// It validates, but the plan does not read it back: the message and
    /// the hint.
    NotReadBack(String, String),
}

/// The clause completing "the create was rolled back because ...".
pub fn create_failure_reason(f: &CreateFailure) -> (r: String)
    ensures
        r@ == match f {
            CreateFailure::Introduced(_) => "the project would not validate with it"@,
            CreateFailure::Unloadable(_) => "the project would not load with it"@,
            CreateFailure::NotReadBack(_, _) => "the plan does not read it back"@,
        },
{
    match f {
        CreateFailure::Introduced(_) => String::from_str("the project would not validate with it"),
        CreateFailure::Unloadable(_) => String::from_str("the project would not load with it"),
        CreateFailure::NotReadBack(_, _) => String::from_str("the plan does not read it back"),
    }
}

/// Confirm a create reads back out of the reloaded plan (`reads_back`, as
/// `created_id_reads_back` decides): a `kind` named `id`, written to `path`.
pub fn verify_created_id(reads_back: bool, kind: &str, id: &str, path: &str) -> (r: Result<(), CreateFailure>)
    ensures
        reads_back ==> r is Ok,
        !reads_back ==> (r matches Err(CreateFailure::NotReadBack(m, h)) && m@ == kind@ + " '"@ + id@
            + "' was written to "@ + path@ + ", but reloading the project does not find it there"@ && h@
            == "check the block did not land inside a code fence, or past the end of the section it was aimed at."@),
{
    if reads_back {
        Ok(())
    } else {
        let (m, h, _) = not_read_back_failure(kind, id, path);
        Err(CreateFailure::NotReadBack(m, h))
    }
}

/// Judge a create that has just been written: first the errors it
/// introduced over `inherited` (`after`: the errors validation finds now, or
/// the report of a project that does not load), then whether it reads back.
/// `None` is success, including a project that was failing before and fails
/// in exactly the same way after.
pub fn new_write_failure(
    inherited: &Vec<String>,
    after: Result<Vec<String>, String>,
    reads_back: bool,
    kind: &str,
    id: &str,
    path: &str,
) -> (r: Option<CreateFailure>)
    ensures
        match after {
            Ok(errors) => if introduced(string_views(inherited@).to_multiset(), string_views(errors@)).len() > 0 {
                r matches Some(CreateFailure::Introduced(v)) && string_views(v@) == introduced(
                    string_views(inherited@).to_multiset(),
                    string_views(errors@),
                )
            } else if reads_back {
                r is None
            } else {
                r matches Some(CreateFailure::NotReadBack(m, _)) && m@ == kind@ + " '"@ + id@ + "' was written to "@
                    + path@ + ", but reloading the project does not find it there"@
            },
            Err(report) => if string_views(inherited@).contains(report@) {
                r is None
            } else {
                r matches Some(CreateFailure::Unloadable(m)) && m@ == report@
            },
        },
{
    match judge_validation(inherited, after) {
        CreateVerdict::Introduced(v) => Some(CreateFailure::Introduced(v)),
        CreateVerdict::Unloadable(m) => Some(CreateFailure::Unloadable(m)),
        CreateVerdict::InheritedUnloadable => None,
        CreateVerdict::ReadBack => match verify_created_id(reads_back, kind, id, path) {
            Ok(()) => None,
            Err(f) => Some(f),
        },
    }
}

} // verus!
