//! A run's identity on disk: its status, the descriptor every non-dry run
//! publishes, the verdict on whether a recorded run is still the live one,
//! how long a follower keeps polling a run it cannot decide on, and the
//! stamp a run leaves on its descriptor on the way out.
use vstd::prelude::*;
use crate::paths::{same_components, same_components_spec};
use crate::text::{push_str, push_char, str_eq, u64_to_string, decimal};

verus! {

/// Where a run is in its life. `finished` and `failed` are written by the
/// process itself on the way out; a killed run is left saying `running`.
#[derive(Debug, Clone, Copy, PartialEq, Eq, Structural)]
pub enum RunStatus {
    Running,
    Finished,
    Failed,
}

pub open spec fn status_label(s: RunStatus) -> Seq<char> {
    match s {
        RunStatus::Running => "running"@,
        RunStatus::Finished => "finished"@,
        RunStatus::Failed => "failed"@,
    }
}

impl RunStatus {
    /// The status as the descriptor and listings spell it.
    pub fn label(&self) -> (r: String)
        ensures
            r@ == status_label(*self),
    {
        match self {
            RunStatus::Running => String::from_str("running"),
            RunStatus::Finished => String::from_str("finished"),
            RunStatus::Failed => String::from_str("failed"),
        }
    }

    /// Whether the run recorded its own end.
    pub fn is_terminal(&self) -> (r: bool)
        ensures
            r == (*self is Finished || *self is Failed),
    {
        match self {
            RunStatus::Running => false,
            _ => true,
        }
    }
}

/// What a liveness probe could establish. An error reading the run lock or
/// the workspace descriptor says nothing about the run: that is `Unknown`,
/// and only `Gone` lets a registry entry be pruned.
#[derive(Debug, PartialEq)]
pub enum Liveness {
    Live,
    /// Over, but the workspace still names the run.
    Ended,
    /// Over, and the workspace no longer names it.
    Gone,
    /// Something in the way could not be read.
    Unknown(String),
}

impl Liveness {
    /// Whether the run is over as far as anything destructive is concerned.
    pub fn has_ended(&self) -> (r: bool)
        ensures
            r == (*self is Ended || *self is Gone),
    {
        match self {
            Liveness::Ended | Liveness::Gone => true,
            _ => false,
        }
    }
}

// ---------------------------------------------------------------------------
// Undecided probes
// ---------------------------------------------------------------------------

/// How long, in milliseconds, a follower keeps polling a run whose
/// liveness it cannot decide.
pub const UNDECIDED_GRACE_MS: u64 = 5000;

/// A run of consecutive undecided liveness probes: when it started (a time
/// in milliseconds on the caller's clock) and why the last probe could not
/// answer.
#[derive(Debug, PartialEq)]
pub struct UndecidedWatch {
    pub since: Option<u64>,
    pub reason: String,
}

/// An undecided probe at `now`: `(grace ran out, when the grace now in
/// progress started)`. The first undecided probe starts the grace; one at
/// least the grace after that reports and rearms.
pub open spec fn watch_step(since: Option<u64>, now: u64) -> (bool, Option<u64>) {
    match since {
        Some(started) => if now >= started && now - started >= UNDECIDED_GRACE_MS {
            (true, None)
        } else {
            (false, Some(started))
        },
        None => (false, Some(now)),
    }
}

/// A watch that reported rearms: the next undecided probe starts a new
/// grace instead of reporting again, whenever it comes.
pub proof fn lemma_watch_rearms(since: Option<u64>, now: u64, later: u64)
    ensures
        watch_step(since, now).0 ==> !watch_step(watch_step(since, now).1, later).0 && watch_step(
            watch_step(since, now).1,
            later,
        ).1 == Some(later),
{
}

/// Undecided probes never report before the grace has run out since the
/// first of them.
pub proof fn lemma_watch_waits_for_grace(start: u64, now: u64)
    ensures
        watch_step(Some(start), now).0 <==> (now >= start && now - start >= UNDECIDED_GRACE_MS),
{
}

impl UndecidedWatch {
    /// A watch with no grace in progress.
    pub fn new() -> (r: UndecidedWatch)
        ensures
            r.since is None,
            r.reason@ == Seq::<char>::empty(),
    {
        UndecidedWatch { since: None, reason: String::new() }
    }

    /// Note a decided probe, which retires any grace in progress.
    pub fn decided(&mut self)
        ensures
            final(self).since is None,
            final(self).reason@ == Seq::<char>::empty(),
    {
        self.since = None;
        self.reason = String::new();
    }

    /// Note an undecided probe at time `now`. `true` once the grace has run
    /// out since the first undecided probe, and the watch is rearmed so a
    /// caller that keeps going reports again rather than on every poll.
    pub fn exhausted(&mut self, reason: &str, now: u64) -> (r: bool)
        ensures
            final(self).reason@ == reason@,
            (r, final(self).since) == watch_step(old(self).since, now),
    {
        self.reason = String::from_str(reason);
        match self.since {
            Some(started) => {
                if now >= started && now - started >= UNDECIDED_GRACE_MS {
                    self.since = None;
                    true
                } else {
                    false
                }
            },
            None => {
                self.since = Some(now);
                false
            },
        }
    }

    /// Why the last undecided probe could not answer.
    pub fn reason(&self) -> (r: &str)
        ensures
            r@ == self.reason@,
    {
        self.reason.as_str()
    }
}

// ---------------------------------------------------------------------------
// The descriptor
// ---------------------------------------------------------------------------

/// The published description of one run.
#[derive(Debug, PartialEq)]
pub struct RunDescriptor {
    pub id: String,
    pub pid: u32,
    pub status: RunStatus,
    pub workspace: String,
    pub plan: String,
    pub state_machine: Option<String>,
    pub control_url: Option<String>,
    pub started_at: String,
    pub headless: bool,
    pub parallel: usize,
    pub log: Option<String>,
    pub events: String,
    pub exit_code: Option<i32>,
}

/// What reading a workspace's descriptor gave. Only `Missing` (the file is
/// not there) proves absence.
#[derive(Debug, PartialEq)]
pub enum DescriptorRead {
    Loaded(RunDescriptor),
    Missing,
    Unreadable(String),
}

/// The next step of a liveness check.
#[derive(Debug, PartialEq)]
pub enum LivenessStep {
    /// The verdict, without touching the run lock.
    Decided(Liveness),
    /// The workspace still names this running run: only the run lock can
    /// say whether it is alive.
    ProbeLock,
}

/// A liveness step as a value.
pub enum Verdict {
    Live,
    Ended,
    Gone,
    Unknown(Seq<char>),
    ProbeLock,
}

pub open spec fn step_view(s: LivenessStep) -> Verdict {
    match s {
        LivenessStep::Decided(Liveness::Live) => Verdict::Live,
        LivenessStep::Decided(Liveness::Ended) => Verdict::Ended,
        LivenessStep::Decided(Liveness::Gone) => Verdict::Gone,
        LivenessStep::Decided(Liveness::Unknown(m)) => Verdict::Unknown(m@),
        LivenessStep::ProbeLock => Verdict::ProbeLock,
    }
}

/// Missing descriptor: gone. Unreadable: unknown, saying why. Naming another
/// run: gone. Either copy terminal: ended. Otherwise ask the run lock.
pub open spec fn liveness_step_spec(recorded: RunDescriptor, path: Seq<char>, current: DescriptorRead) -> Verdict {
    match current {
        DescriptorRead::Missing => Verdict::Gone,
        DescriptorRead::Unreadable(why) => Verdict::Unknown(path + " could not be read: "@ + why@),
        DescriptorRead::Loaded(c) => if c.id@ != recorded.id@ {
            Verdict::Gone
        } else if recorded.status !is Running || c.status !is Running {
            Verdict::Ended
        } else {
            Verdict::ProbeLock
        },
    }
}

impl RunDescriptor {
    /// Whether this run is still the live one on its workspace, from what
    /// its workspace descriptor (at `path`) reads now: gone when the
    /// workspace no longer names it, ended when either copy recorded its
    /// end, and otherwise a question for the run lock.
    pub fn liveness_step(&self, path: &str, current: &DescriptorRead) -> (r: LivenessStep)
        ensures
            step_view(r) == liveness_step_spec(*self, path@, *current),
    {
        match current {
            DescriptorRead::Missing => LivenessStep::Decided(Liveness::Gone),
            DescriptorRead::Unreadable(why) => {
                let mut m = String::from_str(path);
                push_str(&mut m, " could not be read: ");
                push_str(&mut m, why.as_str());
                LivenessStep::Decided(Liveness::Unknown(m))
            },
            DescriptorRead::Loaded(c) => {
                if !str_eq(c.id.as_str(), self.id.as_str()) {
                    LivenessStep::Decided(Liveness::Gone)
                } else if self.status.is_terminal() || c.status.is_terminal() {
                    LivenessStep::Decided(Liveness::Ended)
                } else {
                    LivenessStep::ProbeLock
                }
            },
        }
    }

    /// A one-line human summary for `rhei runs` and `rhei stop`.
    pub fn summary_line(&self) -> (r: String)
        ensures
            r@ == summary_spec(*self),
    {
        let mut out = String::from_str(self.id.as_str());
        push_str(&mut out, "  ");
        let status = self.status.label();
        push_padded(&mut out, status.as_str(), 9);
        push_char(&mut out, ' ');
        if self.headless {
            push_padded(&mut out, "headless", 10);
        } else {
            push_padded(&mut out, "foreground", 10);
        }
        push_str(&mut out, " pid ");
        let pid = u64_to_string(self.pid as u64);
        push_padded(&mut out, pid.as_str(), 7);
        push_str(&mut out, " parallel ");
        let parallel = u64_to_string(self.parallel as u64);
        push_str(&mut out, parallel.as_str());
        push_str(&mut out, "  ");
        push_str(&mut out, self.plan.as_str());
        out
    }
}

/// `s` padded on the right with spaces to `width` characters.
pub open spec fn pad_right(s: Seq<char>, width: nat) -> Seq<char> {
    if s.len() >= width {
        s
    } else {
        s + Seq::new((width - s.len()) as nat, |i: int| ' ')
    }
}

fn push_padded(out: &mut String, s: &str, width: usize)
    ensures
        final(out)@ == old(out)@ + pad_right(s@, width as nat),
{
    let ghost start = out@;
    push_str(out, s);
    let n = crate::text::char_len(s);
    let mut k: usize = n;
    while k < width
        invariant
            n == s@.len(),
            n <= k <= width || (n > width && k == n),
            out@ == start + s@ + Seq::new((k - n) as nat, |i: int| ' '),
        decreases width - k,
    {
        push_char(out, ' ');
        assert(out@ =~= start + s@ + Seq::new((k + 1 - n) as nat, |i: int| ' '));
        k += 1;
    }
    assert(out@ =~= start + pad_right(s@, width as nat));
}

/// `{id}  {status:<9} {mode:<10} pid {pid:<7} parallel {parallel}  {plan}`.
pub open spec fn summary_spec(d: RunDescriptor) -> Seq<char> {
    d.id@ + "  "@ + pad_right(status_label(d.status), 9) + seq![' '] + pad_right(
        if d.headless {
            "headless"@
        } else {
            "foreground"@
        },
        10,
    ) + " pid "@ + pad_right(decimal(d.pid as nat), 7) + " parallel "@ + decimal(d.parallel as nat)
        + "  "@ + d.plan@
}

// ---------------------------------------------------------------------------
// Finalization
// ---------------------------------------------------------------------------

/// The status a run ends with: `finished` on exit code 0, `failed` otherwise.
pub open spec fn final_status(exit_code: i32) -> RunStatus {
    if exit_code == 0 {
        RunStatus::Finished
    } else {
        RunStatus::Failed
    }
}

/// Stamp the run's terminal status and exit code into the descriptor just
/// read back, but only while it still describes the run this process
/// published (same id and pid): a later run may own the workspace by now.
/// Returns whether it was stamped (and so should be written back).
pub fn stamp_final_status(descriptor: &mut RunDescriptor, published_id: &str, published_pid: u32, exit_code: i32) -> (r: bool)
    ensures
        r == (old(descriptor).id@ == published_id@ && old(descriptor).pid == published_pid),
        r ==> *final(descriptor) == (RunDescriptor {
            status: final_status(exit_code),
            exit_code: Some(exit_code),
            control_url: None,
            ..*old(descriptor)
        }),
        !r ==> *final(descriptor) == *old(descriptor),
{
    if !str_eq(descriptor.id.as_str(), published_id) || descriptor.pid != published_pid {
        return false;
    }
    descriptor.status = if exit_code == 0 {
        RunStatus::Finished
    } else {
        RunStatus::Failed
    };
    descriptor.exit_code = Some(exit_code);
    descriptor.control_url = None;
    true
}

/// Whether a registry entry still describes the run this process published
/// (same pid and workspace), so that rewriting it cannot drop a live run's
/// pointer after an id collision.
pub fn registry_entry_is_ours(existing: &RunDescriptor, published_pid: u32, published_workspace: &str) -> (r: bool)
    ensures
        r == (existing.pid == published_pid && same_components_spec(existing.workspace@, published_workspace@)),
{
    existing.pid == published_pid && same_components(existing.workspace.as_str(), published_workspace)
}

// ---------------------------------------------------------------------------
// Run locks
// ---------------------------------------------------------------------------

/// What to do about one execution root's run lock.
#[derive(Debug, PartialEq, Eq, Structural)]
pub enum LockAction {
    /// It was taken: hold it.
    Hold,
    /// Contended, and this is a detached child whose launcher is waiting on
    /// it: refuse at once rather than block.
    Refuse,
    /// Contended in the foreground: say whose run holds it, then wait.
    Wait,
}

/// The lock step of acquiring a run's locks.
pub fn lock_step(acquired: bool, headless_child: bool) -> (r: LockAction)
    ensures
        r == if acquired {
            LockAction::Hold
        } else if headless_child {
            LockAction::Refuse
        } else {
            LockAction::Wait
        },
{
    if acquired {
        LockAction::Hold
    } else if headless_child {
        LockAction::Refuse
    } else {
        LockAction::Wait
    }
}

/// One poll of a queued run waiting for a lock.
#[derive(Debug, PartialEq, Eq, Structural)]
pub enum WaitAction {
    /// The lock was taken.
    Done,
    /// The operator interrupted the wait.
    Stop,
    /// Sleep a slice and try again.
    Sleep,
}

/// The step of waiting for a contended run lock, in slices an interrupt
/// can end.
pub fn wait_step(acquired: bool, interrupted: bool) -> (r: WaitAction)
    ensures
        r == if acquired {
            WaitAction::Done
        } else if interrupted {
            WaitAction::Stop
        } else {
            WaitAction::Sleep
        },
{
    if acquired {
        WaitAction::Done
    } else if interrupted {
        WaitAction::Stop
    } else {
        WaitAction::Sleep
    }
}

/// Where a run stands in taking the run lock of every execution root, one
/// root after another in the order the roots are listed: how many are held,
/// of how many, and whether it is waiting on the next one.
#[derive(Debug, PartialEq, Eq)]
pub struct LockProgress {
    pub held: usize,
    pub roots: usize,
    pub waiting: bool,
}

/// What the run does next about its locks.
#[derive(Debug, PartialEq, Eq)]
pub enum LockCommand {
    /// Try the lock of this root.
    Try(usize),
    /// Name whose run holds this root's lock, then wait for it.
    AnnounceWait(usize),
    /// Sleep a slice, then try this root's lock again.
    Retry(usize),
    /// Every lock is held.
    Done,
    /// A detached child met a contended lock on this root: refuse the run.
    Conflict(usize),
    /// The operator interrupted the wait for this root's lock.
    Stopped(usize),
}

/// Start taking the locks of `roots` execution roots.
pub fn start_locks(roots: usize) -> (r: (LockProgress, LockCommand))
    ensures
        r.0 == (LockProgress { held: 0, roots, waiting: false }),
        r.1 == if roots == 0 {
            LockCommand::Done
        } else {
            LockCommand::Try(0)
        },
{
    let c = if roots == 0 {
        LockCommand::Done
    } else {
        LockCommand::Try(0)
    };
    (LockProgress { held: 0, roots, waiting: false }, c)
}

/// A well-formed lock progress: no more held than there are roots, and a
/// wait only on a root not yet held.
pub open spec fn lock_progress_ok(p: LockProgress) -> bool {
    &&& p.held <= p.roots
    &&& p.waiting ==> p.held < p.roots
}

/// What trying the next root's lock gave: `acquired` whether it was taken,
/// `interrupted` whether the operator asked the run to stop (read only while
/// waiting). A taken lock moves on to the next root; a contended one makes a
/// detached child refuse at once and a foreground run announce and wait,
/// retrying in slices until it is taken or the wait is interrupted.
pub fn lock_progress_step(p: &mut LockProgress, acquired: bool, interrupted: bool, headless_child: bool) -> (r: LockCommand)
    requires
        lock_progress_ok(*old(p)),
        old(p).held < old(p).roots,
    ensures
        lock_progress_ok(*final(p)),
        final(p).roots == old(p).roots,
        acquired ==> {
            &&& final(p).held == old(p).held + 1
            &&& !final(p).waiting
            &&& r == if final(p).held == final(p).roots {
                LockCommand::Done
            } else {
                LockCommand::Try(final(p).held)
            }
        },
        !acquired ==> final(p).held == old(p).held,
        !acquired && !old(p).waiting ==> {
            &&& final(p).waiting == !headless_child
            &&& r == if headless_child {
                LockCommand::Conflict(old(p).held)
            } else {
                LockCommand::AnnounceWait(old(p).held)
            }
        },
        !acquired && old(p).waiting ==> {
            &&& final(p).waiting == !interrupted
            &&& r == if interrupted {
                LockCommand::Stopped(old(p).held)
            } else {
                LockCommand::Retry(old(p).held)
            }
        },
{
    let i = p.held;
    if p.waiting {
        match wait_step(acquired, interrupted) {
            WaitAction::Done => {},
            WaitAction::Stop => {
                p.waiting = false;
                return LockCommand::Stopped(i);
            },
            WaitAction::Sleep => {
                return LockCommand::Retry(i);
            },
        }
    } else {
        match lock_step(acquired, headless_child) {
            LockAction::Hold => {},
            LockAction::Refuse => {
                return LockCommand::Conflict(i);
            },
            LockAction::Wait => {
                p.waiting = true;
                return LockCommand::AnnounceWait(i);
            },
        }
    }
    p.held = i + 1;
    p.waiting = false;
    if p.held == p.roots {
        LockCommand::Done
    } else {
        LockCommand::Try(p.held)
    }
}

/// The line a foreground run prints before it blocks on a lock: whose run
/// holds it (when a live one is recorded) and the root.
pub open spec fn lock_wait_spec(holder: Option<(Seq<char>, u32)>, root: Seq<char>) -> Seq<char> {
    "Waiting for "@ + match holder {
        Some(h) => "run "@ + h.0 + " (pid "@ + decimal(h.1 as nat) + ")"@,
        None => "another run"@,
    } + " to release the run lock on "@ + root + "..."@
}

pub fn lock_wait_line(holder: &Option<(String, u32)>, root: &str) -> (r: String)
    ensures
        r@ == lock_wait_spec(
            match holder {
                Some(h) => Some((h.0@, h.1)),
                None => None,
            },
            root@,
        ),
{
    let mut out = String::from_str("Waiting for ");
    match holder {
        Some((id, pid)) => {
            push_str(&mut out, "run ");
            push_str(&mut out, id.as_str());
            push_str(&mut out, " (pid ");
            let p = u64_to_string(*pid as u64);
            push_str(&mut out, p.as_str());
            push_str(&mut out, ")");
        },
        None => {
            push_str(&mut out, "another run");
        },
    }
    push_str(&mut out, " to release the run lock on ");
    push_str(&mut out, root);
    push_str(&mut out, "...");
    out
}

// ---------------------------------------------------------------------------
// Top-level tickets per file
// ---------------------------------------------------------------------------

/// How many of the first `k` top-level tickets each plan file holds, from
/// the file each one was read from (`None`: not known, counted nowhere).
pub open spec fn file_counts(sources: Seq<Option<Seq<char>>>, k: int) -> Map<Seq<char>, nat>
    decreases k,
{
    if k <= 0 {
        Map::empty()
    } else {
        let m = file_counts(sources, k - 1);
        match sources[k - 1] {
            Some(p) => m.insert(
                p,
                if m.contains_key(p) {
                    m[p] + 1
                } else {
                    1
                },
            ),
            None => m,
        }
    }
}

pub open spec fn source_views(v: Seq<Option<String>>) -> Seq<Option<Seq<char>>> {
    Seq::new(
        v.len(),
        |i: int|
            match v[i] {
                Some(s) => Some(s@),
                None => None,
            },
    )
}

/// Top-level tickets per owning plan file: only top-level tickets are
/// independently schedulable, so descendants never add to a count. One
/// entry per file, in the order files first appear.
pub fn ticket_file_counts(sources: &Vec<Option<String>>) -> (r: Vec<(String, usize)>)
    ensures
        forall|j: int|
            0 <= j < r@.len() ==> file_counts(source_views(sources@), sources@.len() as int).contains_key(
                #[trigger] r@[j].0@,
            ) && file_counts(source_views(sources@), sources@.len() as int)[r@[j].0@] == r@[j].1,
        forall|p: Seq<char>|
            #[trigger] file_counts(source_views(sources@), sources@.len() as int).contains_key(p) ==> exists|j: int|
                0 <= j < r@.len() && (#[trigger] r@[j].0@) == p,
        forall|a: int, b: int| 0 <= a < b < r@.len() ==> r@[a].0@ != r@[b].0@,
{
    let ghost sv = source_views(sources@);
    let mut out: Vec<(String, usize)> = Vec::new();
    let mut i: usize = 0;
    while i < sources.len()
        invariant
            sv == source_views(sources@),
            i <= sources@.len(),
            forall|j: int|
                0 <= j < out@.len() ==> file_counts(sv, i as int).contains_key(#[trigger] out@[j].0@)
                    && file_counts(sv, i as int)[out@[j].0@] == out@[j].1,
            forall|p: Seq<char>|
                #[trigger] file_counts(sv, i as int).contains_key(p) ==> exists|j: int|
                    0 <= j < out@.len() && (#[trigger] out@[j].0@) == p,
            forall|a: int, b: int| 0 <= a < b < out@.len() ==> out@[a].0@ != out@[b].0@,
            forall|j: int| 0 <= j < out@.len() ==> (#[trigger] out@[j]).1 <= i,
        decreases sources@.len() - i,
    {
        let ghost prev = file_counts(sv, i as int);
        match &sources[i] {
            None => {},
            Some(p) => {
                assert(sv[i as int] == Some(p@));
                let mut k: usize = 0;
                let mut found: Option<usize> = None;
                while k < out.len() && found.is_none()
                    invariant
                        k <= out@.len(),
                        found matches Some(f) ==> f < out@.len() && out@[f as int].0@ == p@,
                        found is None ==> forall|j: int| 0 <= j < k ==> out@[j].0@ != p@,
                    decreases out@.len() - k,
                {
                    if str_eq(out[k].0.as_str(), p.as_str()) {
                        found = Some(k);
                    }
                    k += 1;
                }
                match found {
                    Some(f) => {
                        let ghost before = out@;
                        let n = out[f].1;
                        let name = String::from_str(out[f].0.as_str());
                        out.set(f, (name, n + 1));
                        proof {
                            assert forall|j: int|
                                0 <= j < out@.len() implies file_counts(sv, i + 1).contains_key(
                                #[trigger] out@[j].0@,
                            ) && file_counts(sv, i + 1)[out@[j].0@] == out@[j].1 by {
                                if j != f {
                                    assert(out@[j] == before[j]);
                                    assert(before[j].0@ != p@);
                                }
                            }
                            assert forall|pp: Seq<char>|
                                #[trigger] file_counts(sv, i + 1).contains_key(pp) implies exists|j: int|
                                0 <= j < out@.len() && (#[trigger] out@[j].0@) == pp by {
                                if pp == p@ {
                                    assert(out@[f as int].0@ == pp);
                                } else {
                                    let j = choose|j: int| 0 <= j < before.len() && before[j].0@ == pp;
                                    assert(out@[j] == before[j]);
                                }
                            }
                            assert forall|a: int, b: int| 0 <= a < b < out@.len() implies out@[a].0@ != out@[b].0@ by {
                                if a != f {
                                    assert(out@[a] == before[a]);
                                }
                                if b != f {
                                    assert(out@[b] == before[b]);
                                }
                            }
                        }
                    },
                    None => {
                        assert(!prev.contains_key(p@));
                        let ghost before = out@;
                        out.push((String::from_str(p.as_str()), 1));
                        proof {
                            assert forall|pp: Seq<char>|
                                #[trigger] file_counts(sv, i + 1).contains_key(pp) implies exists|j: int|
                                0 <= j < out@.len() && (#[trigger] out@[j].0@) == pp by {
                                if pp == p@ {
                                    assert(out@[out@.len() - 1].0@ == pp);
                                } else {
                                    let j = choose|j: int| 0 <= j < before.len() && before[j].0@ == pp;
                                    assert(out@[j] == before[j]);
                                }
                            }
                        }
                    },
                }
            },
        }
        i += 1;
    }
    out
}

} // verus!
