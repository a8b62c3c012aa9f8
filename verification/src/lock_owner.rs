//! Proof, from what Linux reports about a process, that a recorded run
//! still owns its run lock after the lock's path was renamed, unlinked or
//! replaced. A pid alone is no evidence (it may have been reused), so the
//! record on the locked file has to name this run, this workspace, and the
//! start time of the process that holds it.
use vstd::prelude::*;
use crate::paths::{path_file_name, path_file_name_spec, path_parent, path_parent_spec, same_components, same_components_spec};
use crate::text::{
    all_digits, chars_of, digits_value, has_prefix, is_ws, lines, parse_u64, parse_u64_spec,
    push_str, slice_vec, split_whitespace, str_eq, str_lines, string_of, u64_to_string, words,
    decimal, starts_with, chars_eq,
};

verus! {

// ---------------------------------------------------------------------------
// /proc/<pid>/stat
// ---------------------------------------------------------------------------

/// The last `) ` in `s`, which ends the command name (itself free to hold
/// parentheses).
pub open spec fn last_close(s: Seq<char>) -> Option<int>
    decreases s.len(),
{
    if s.len() < 2 {
        None
    } else if s[s.len() - 2] == ')' && s.last() == ' ' {
        Some(s.len() - 2)
    } else {
        last_close(s.drop_last())
    }
}

proof fn lemma_last_close_bounds(s: Seq<char>)
    ensures
        last_close(s) matches Some(i) ==> 0 <= i && i + 2 <= s.len() && s[i] == ')' && s[i + 1] == ' ',
    decreases s.len(),
{
    if s.len() >= 2 && !(s[s.len() - 2] == ')' && s.last() == ' ') {
        lemma_last_close_bounds(s.drop_last());
    }
}

/// Why `u64::from_str` refused a non-empty word: too large, or not digits.
pub open spec fn too_large(w: Seq<char>) -> bool {
    let d = if w.len() > 0 && w[0] == '+' {
        w.drop_first()
    } else {
        w
    };
    d.len() > 0 && all_digits(d) && digits_value(d) > u64::MAX
}

/// The process start time in a `/proc/<pid>/stat` text: the twentieth
/// field after the command name, parsed as a `u64`; or why it is not there.
pub open spec fn start_ticks_spec(stat: Seq<char>) -> Result<u64, Seq<char>> {
    match last_close(stat) {
        None => Err("the recorded process stat has no command terminator"@),
        Some(i) => {
            let fields = words(stat.skip(i + 2));
            if fields.len() <= 19 {
                Err("the recorded process stat has no start identity"@)
            } else {
                match parse_u64_spec(fields[19]) {
                    Some(n) => Ok(n),
                    None => Err(
                        "the recorded process start identity is invalid: "@ + if too_large(fields[19]) {
                            "number too large to fit in target type"@
                        } else {
                            "invalid digit found in string"@
                        },
                    ),
                }
            }
        },
    }
}

fn is_too_large(w: &Vec<char>) -> (r: bool)
    requires
        parse_u64_spec(w@) is None,
    ensures
        r == too_large(w@),
{
    let start: usize = if w.len() > 0 && w[0] == '+' {
        1
    } else {
        0
    };
    let d = slice_vec(w, start, w.len());
    assert(start == 1 ==> d@ =~= w@.drop_first());
    assert(start == 0 ==> d@ =~= w@);
    if d.len() == 0 {
        return false;
    }
    let mut k: usize = 0;
    let ghost dd = if w@.len() > 0 && w@[0] == '+' {
        w@.drop_first()
    } else {
        w@
    };
    assert(d@ == dd);
    while k < d.len()
        invariant
            k <= d@.len(),
            d@ == dd,
            dd == (if w@.len() > 0 && w@[0] == '+' {
                w@.drop_first()
            } else {
                w@
            }),
            forall|q: int| 0 <= q < k ==> crate::text::is_digit(#[trigger] d@[q]),
        decreases d@.len() - k,
    {
        if !crate::text::is_ascii_digit(d[k]) {
            assert(!all_digits(dd));
            return false;
        }
        k += 1;
    }
    true
}

/// Read the process start time out of a `/proc/<pid>/stat` text.
pub fn parse_linux_process_start_ticks(stat: &str) -> (r: Result<u64, String>)
    ensures
        match r {
            Ok(n) => start_ticks_spec(stat@) == Ok::<u64, Seq<char>>(n),
            Err(m) => start_ticks_spec(stat@) == Err::<u64, Seq<char>>(m@),
        },
{
    let v = chars_of(stat);
    let mut j: usize = v.len();
    proof {
        lemma_last_close_bounds(v@);
    }
    assert(v@.take(j as int) =~= v@);
    let mut found: Option<usize> = None;
    while j >= 2 && found.is_none()
        invariant
            j <= v@.len(),
            found is None ==> last_close(v@) == last_close(v@.take(j as int)),
            found matches Some(i) ==> last_close(v@) == Some(i as int) && i + 2 <= v@.len(),
        decreases j + if found is None {
            1int
        } else {
            0int
        },
    {
        let ghost t = v@.take(j as int);
        if v[j - 2] == ')' && v[j - 1] == ' ' {
            assert(t[t.len() - 2] == v@[j - 2]);
            found = Some(j - 2);
        } else {
            assert(t.drop_last() =~= v@.take(j - 1));
            j -= 1;
        }
    }
    let i = match found {
        Some(i) => i,
        None => {
            return Err(String::from_str("the recorded process stat has no command terminator"));
        },
    };
    let rest = slice_vec(&v, i + 2, v.len());
    assert(rest@ =~= v@.skip(i + 2));
    let fields = split_whitespace(rest.as_slice());
    if fields.len() <= 19 {
        return Err(String::from_str("the recorded process stat has no start identity"));
    }
    let f = &fields[19];
    match parse_u64(f.as_slice()) {
        Some(n) => Ok(n),
        None => {
            let mut m = String::from_str("the recorded process start identity is invalid: ");
            if is_too_large(f) {
                push_str(&mut m, "number too large to fit in target type");
            } else {
                push_str(&mut m, "invalid digit found in string");
            }
            Err(m)
        },
    }
}

// ---------------------------------------------------------------------------
// /proc/<pid>/fdinfo/<fd>
// ---------------------------------------------------------------------------

/// A `lock:` line of an fdinfo text recording an exclusive advisory flock
/// held by `pid`.
pub open spec fn exclusive_flock_line(line: Seq<char>, pid: u32) -> bool {
    let f = words(line);
    &&& f.len() >= 6
    &&& f[0] == "lock:"@
    &&& f[2] == "FLOCK"@
    &&& f[3] == "ADVISORY"@
    &&& f[4] == "WRITE"@
    &&& f[5] == decimal(pid as nat)
}

/// Whether an fdinfo text shows `pid` holding an exclusive flock on the
/// descriptor.
pub fn fdinfo_holds_exclusive_flock(fdinfo: &str, pid: u32) -> (r: bool)
    ensures
        r == exists|k: int| 0 <= k < lines(fdinfo@).len() && exclusive_flock_line(#[trigger] lines(fdinfo@)[k], pid),
{
    let ls = str_lines(fdinfo);
    let pid_text = u64_to_string(pid as u64);
    let pv = chars_of(pid_text.as_str());
    let lock_w = chars_of("lock:");
    let flock_w = chars_of("FLOCK");
    let advisory_w = chars_of("ADVISORY");
    let write_w = chars_of("WRITE");
    let mut k: usize = 0;
    while k < ls.len()
        invariant
            ls@.len() == lines(fdinfo@).len(),
            forall|q: int| 0 <= q < ls@.len() ==> (#[trigger] ls@[q])@ == lines(fdinfo@)[q],
            pv@ == decimal(pid as nat),
            lock_w@ == "lock:"@,
            flock_w@ == "FLOCK"@,
            advisory_w@ == "ADVISORY"@,
            write_w@ == "WRITE"@,
            k <= ls@.len(),
            forall|q: int| 0 <= q < k ==> !exclusive_flock_line(#[trigger] lines(fdinfo@)[q], pid),
        decreases ls@.len() - k,
    {
        let f = split_whitespace(ls[k].as_slice());
        let hit = f.len() >= 6 && chars_eq(f[0].as_slice(), lock_w.as_slice()) && chars_eq(
            f[2].as_slice(),
            flock_w.as_slice(),
        ) && chars_eq(f[3].as_slice(), advisory_w.as_slice()) && chars_eq(
            f[4].as_slice(),
            write_w.as_slice(),
        ) && chars_eq(f[5].as_slice(), pv.as_slice());
        assert(hit == exclusive_flock_line(lines(fdinfo@)[k as int], pid));
        if hit {
            return true;
        }
        k += 1;
    }
    false
}

// ---------------------------------------------------------------------------
// The lock file
// ---------------------------------------------------------------------------

/// A file that stands where the run lock stood: the lock path itself, the
/// lock path marked deleted, or a `run.lock.*` file beside it.
pub open spec fn displaced_spec(target: Seq<char>, lock: Seq<char>) -> bool {
    ||| target == lock
    ||| target == lock + " (deleted)"@
    ||| {
        &&& match (path_parent_spec(target), path_parent_spec(lock)) {
            (Some(a), Some(b)) => same_components_spec(a, b),
            (None, None) => true,
            _ => false,
        }
        &&& path_file_name_spec(target) matches Some(n) && has_prefix(n, "run.lock."@)
    }
}

/// Whether a locked file's link target is (a displaced copy of) the run
/// lock at `lock_path`.
pub fn displaced_run_lock_target(target: &str, lock_path: &str) -> (r: bool)
    ensures
        r == displaced_spec(target@, lock_path@),
{
    if str_eq(target, lock_path) {
        return true;
    }
    let mut deleted = String::from_str(lock_path);
    push_str(&mut deleted, " (deleted)");
    if str_eq(target, deleted.as_str()) {
        return true;
    }
    let parents_equal = match (path_parent(target), path_parent(lock_path)) {
        (Some(a), Some(b)) => same_components(a.as_str(), b.as_str()),
        (None, None) => true,
        _ => false,
    };
    if !parents_equal {
        return false;
    }
    match path_file_name(target) {
        Some(n) => {
            let nv = chars_of(n.as_str());
            let prefix = chars_of("run.lock.");
            starts_with(nv.as_slice(), prefix.as_slice())
        },
        None => false,
    }
}

/// The record a run writes on its held lock file.
#[derive(Debug, PartialEq)]
pub struct RunLockOwner {
    pub version: u8,
    pub id: String,
    pub pid: u32,
    pub workspace: String,
    pub process_start_ticks: u64,
}

/// What reading one locked descriptor's record gave.
#[derive(Debug, PartialEq)]
pub enum RecordRead {
    /// Over the size a record can have.
    TooLarge,
    /// Not a record.
    Unparsable,
    /// A record.
    Owner(RunLockOwner),
}

/// What the inspection of one of the process's descriptors found.
#[derive(Debug, PartialEq)]
pub enum FdFinding {
    /// Nothing to learn: not an exclusive flock held by the process, not a
    /// regular file, or gone in the meantime.
    Skip,
    /// Something on the way could not be read: why.
    Inconclusive(String),
    /// A regular file the process holds an exclusive flock on: its link
    /// target, and its record.
    Locked { target: String, record: RecordRead },
}

/// What a lock-ownership probe established about a recorded process.
#[derive(Debug, PartialEq)]
pub enum ProcessProbe {
    OwnsLock,
    DoesNotOwnLock,
    Gone,
    Unknown(String),
}

/// A record that names this run exactly: its id, pid, workspace, and the
/// start time of the process now holding the pid.
pub open spec fn owner_matches(o: RunLockOwner, id: Seq<char>, pid: u32, workspace: Seq<char>, ticks: u64) -> bool {
    &&& o.version == 1
    &&& o.id@ == id
    &&& o.pid == pid
    &&& same_components_spec(o.workspace@, workspace)
    &&& o.process_start_ticks == ticks
}

/// The probe over the first `k` findings: whether the lock was proven
/// owned, and the last inconclusive reason seen.
pub open spec fn probe_fold(
    id: Seq<char>,
    pid: u32,
    workspace: Seq<char>,
    lock: Seq<char>,
    ticks: u64,
    fs: Seq<FdFinding>,
    k: int,
) -> (bool, Option<Seq<char>>)
    decreases k,
{
    if k <= 0 {
        (false, None)
    } else {
        let st = probe_fold(id, pid, workspace, lock, ticks, fs, k - 1);
        if st.0 {
            st
        } else {
            match fs[k - 1] {
                FdFinding::Skip => st,
                FdFinding::Inconclusive(m) => (false, Some(m@)),
                FdFinding::Locked { target, record } => match record {
                    RecordRead::TooLarge => if displaced_spec(target@, lock) {
                        (
                            false,
                            Some(
                                target@ + " is locked by pid "@ + decimal(pid as nat)
                                    + " but its ownership record is too large"@,
                            ),
                        )
                    } else {
                        st
                    },
                    RecordRead::Unparsable => if displaced_spec(target@, lock) {
                        (
                            false,
                            Some(
                                target@ + " is locked by pid "@ + decimal(pid as nat)
                                    + " but carries no verifiable run ownership"@,
                            ),
                        )
                    } else {
                        st
                    },
                    RecordRead::Owner(o) => if owner_matches(o, id, pid, workspace, ticks) {
                        (true, st.1)
                    } else {
                        st
                    },
                },
            }
        }
    }
}

proof fn lemma_probe_fold_owned(
    id: Seq<char>,
    pid: u32,
    workspace: Seq<char>,
    lock: Seq<char>,
    ticks: u64,
    fs: Seq<FdFinding>,
    k: int,
    n: int,
)
    requires
        0 <= k <= n,
        probe_fold(id, pid, workspace, lock, ticks, fs, k).0,
    ensures
        probe_fold(id, pid, workspace, lock, ticks, fs, n).0,
    decreases n - k,
{
    if n > k {
        lemma_probe_fold_owned(id, pid, workspace, lock, ticks, fs, k, n - 1);
    }
}

/// A probe result as a value.
pub enum ProbeVerdict {
    OwnsLock,
    DoesNotOwnLock,
    Gone,
    Unknown(Seq<char>),
}

/// The verdict a probe reaches: owned when a record proves it, else
/// unknown when something could not be read, else not owned.
pub open spec fn probe_verdict_spec(st: (bool, Option<Seq<char>>)) -> ProbeVerdict {
    if st.0 {
        ProbeVerdict::OwnsLock
    } else {
        match st.1 {
            Some(m) => ProbeVerdict::Unknown(m),
            None => ProbeVerdict::DoesNotOwnLock,
        }
    }
}

pub open spec fn probe_view(p: ProcessProbe) -> ProbeVerdict {
    match p {
        ProcessProbe::OwnsLock => ProbeVerdict::OwnsLock,
        ProcessProbe::DoesNotOwnLock => ProbeVerdict::DoesNotOwnLock,
        ProcessProbe::Gone => ProbeVerdict::Gone,
        ProcessProbe::Unknown(m) => ProbeVerdict::Unknown(m@),
    }
}

fn locked_message(target: &String, pid: u32, tail: &str) -> (r: String)
    ensures
        r@ == target@ + " is locked by pid "@ + decimal(pid as nat) + tail@,
{
    let mut m = String::from_str(target.as_str());
    push_str(&mut m, " is locked by pid ");
    let p = u64_to_string(pid as u64);
    push_str(&mut m, p.as_str());
    push_str(&mut m, tail);
    m
}

/// Decide, from what the inspection of each of the recorded process's
/// descriptors found, whether that exact process (`id`, `pid`, `workspace`,
/// start time `ticks`) holds the run lock at `lock_path`. The first record
/// that names the run proves it; otherwise a displaced lock that cannot be
/// read, or anything unreadable on the way, leaves it unknown.
pub fn lock_owner_verdict(
    id: &str,
    pid: u32,
    workspace: &str,
    lock_path: &str,
    ticks: u64,
    findings: &Vec<FdFinding>,
) -> (r: ProcessProbe)
    ensures
        probe_view(r) == probe_verdict_spec(
            probe_fold(id@, pid, workspace@, lock_path@, ticks, findings@, findings@.len() as int),
        ),
{
    let mut inconclusive: Option<String> = None;
    let mut k: usize = 0;
    while k < findings.len()
        invariant
            k <= findings@.len(),
            !probe_fold(id@, pid, workspace@, lock_path@, ticks, findings@, k as int).0,
            match inconclusive {
                Some(m) => probe_fold(id@, pid, workspace@, lock_path@, ticks, findings@, k as int).1
                    == Some(m@),
                None => probe_fold(id@, pid, workspace@, lock_path@, ticks, findings@, k as int).1 is None,
            },
        decreases findings@.len() - k,
    {
        match &findings[k] {
            FdFinding::Skip => {},
            FdFinding::Inconclusive(m) => {
                inconclusive = Some(String::from_str(m.as_str()));
            },
            FdFinding::Locked { target, record } => match record {
                RecordRead::TooLarge => {
                    if displaced_run_lock_target(target.as_str(), lock_path) {
                        inconclusive = Some(
                            locked_message(target, pid, " but its ownership record is too large"),
                        );
                    }
                },
                RecordRead::Unparsable => {
                    if displaced_run_lock_target(target.as_str(), lock_path) {
                        inconclusive = Some(
                            locked_message(target, pid, " but carries no verifiable run ownership"),
                        );
                    }
                },
                RecordRead::Owner(o) => {
                    if o.version == 1 && str_eq(o.id.as_str(), id) && o.pid == pid && same_components(
                        o.workspace.as_str(),
                        workspace,
                    ) && o.process_start_ticks == ticks {
                        proof {
                            lemma_probe_fold_owned(
                                id@,
                                pid,
                                workspace@,
                                lock_path@,
                                ticks,
                                findings@,
                                k + 1,
                                findings@.len() as int,
                            );
                        }
                        return ProcessProbe::OwnsLock;
                    }
                },
            },
        }
        k += 1;
    }
    match inconclusive {
        Some(m) => ProcessProbe::Unknown(m),
        None => ProcessProbe::DoesNotOwnLock,
    }
}

/// A lock is proven owned only by a record on a locked file that names
/// this run exactly: finding the pid alone is no evidence.
pub proof fn lemma_owned_needs_record(
    id: Seq<char>,
    pid: u32,
    workspace: Seq<char>,
    lock: Seq<char>,
    ticks: u64,
    fs: Seq<FdFinding>,
    k: int,
)
    requires
        0 <= k <= fs.len(),
    ensures
        probe_fold(id, pid, workspace, lock, ticks, fs, k).0 ==> exists|j: int|
            0 <= j < k && (#[trigger] fs[j] matches FdFinding::Locked { record: RecordRead::Owner(o), .. }
                && owner_matches(o, id, pid, workspace, ticks)),
    decreases k,
{
    if k > 0 {
        lemma_owned_needs_record(id, pid, workspace, lock, ticks, fs, k - 1);
    }
}

} // verus!
