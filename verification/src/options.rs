//! The options of `rhei run`, grouped as the command line groups them, and
//! the choices they make: which frontend drives the run, whether the
//! browser dashboard serves it, and whether it waits at human gates.
use vstd::prelude::*;

verus! {

pub open spec fn opt_str(o: Option<&str>) -> Option<Seq<char>> {
    match o {
        Some(s) => Some(s@),
        None => None,
    }
}

pub open spec fn opt_string(o: Option<String>) -> Option<Seq<char>> {
    match o {
        Some(s) => Some(s@),
        None => None,
    }
}

/// How the run executes on its own.
#[derive(Debug, PartialEq)]
pub struct StandaloneExecutionFlags {
    pub dry_run: bool,
    pub no_callbacks: bool,
    pub continue_on_error: bool,
    pub parallel: usize,
    pub prices: Option<String>,
    pub rhei: Vec<String>,
    pub tui: bool,
    pub no_tui: bool,
    pub json: bool,
    pub json_agent_output: bool,
    pub headless: bool,
    pub dashboard: bool,
    pub no_dashboard: bool,
}

/// How agents are chosen.
#[derive(Debug, PartialEq)]
pub struct AgentExecutionFlags {
    pub no_agent: bool,
    pub agent: Option<String>,
    pub agent_mode: Option<String>,
    pub model: Option<String>,
}

/// How programs run.
#[derive(Debug, PartialEq)]
pub struct ProgramExecutionFlags {
    pub no_program: bool,
    pub program_timeout: Option<String>,
}

/// Running from a snapshot.
#[derive(Debug, PartialEq)]
pub struct SnapshotExecutionFlags {
    pub from_snapshot: Option<String>,
    pub override_inherit: bool,
    pub snapshot_task: Option<String>,
    pub snapshot_target: Option<String>,
}

/// Every option of a run, and the price book its costs are reckoned with.
#[derive(Debug, PartialEq)]
pub struct RunOptions<B> {
    pub standalone: StandaloneExecutionFlags,
    pub agent: AgentExecutionFlags,
    pub program: ProgramExecutionFlags,
    pub snapshot: SnapshotExecutionFlags,
    pub price_book: B,
}

/// The surface that drives a run.
#[derive(Debug, PartialEq)]
pub enum FrontendKind {
    /// JSON records on stdout, with or without the agents' own output.
    Json { agent_output: bool },
    Tui,
    Stdout,
    /// The terminal decides.
    Auto,
}

pub open spec fn string_views(v: Seq<String>) -> Seq<Seq<char>> {
    Seq::new(v.len(), |i: int| v[i]@)
}

impl<B> RunOptions<B> {
    /// Whether this is a dry run.
    pub fn dry_run(&self) -> (r: bool)
        ensures
            r == self.standalone.dry_run,
    {
        self.standalone.dry_run
    }

    /// Whether callbacks are skipped.
    pub fn no_callbacks(&self) -> (r: bool)
        ensures
            r == self.standalone.no_callbacks,
    {
        self.standalone.no_callbacks
    }

    /// Whether the run keeps going past a failed ticket.
    pub fn continue_on_error(&self) -> (r: bool)
        ensures
            r == self.standalone.continue_on_error,
    {
        self.standalone.continue_on_error
    }

    /// How many workers run at once.
    pub fn parallel(&self) -> (r: usize)
        ensures
            r == self.standalone.parallel,
    {
        self.standalone.parallel
    }

    /// The `--prices` file.
    pub fn prices_path(&self) -> (r: Option<&str>)
        ensures
            opt_str(r) == opt_string(self.standalone.prices),
    {
        match &self.standalone.prices {
            Some(s) => Some(s.as_str()),
            None => None,
        }
    }

    /// Whether the run detaches.
    pub fn headless(&self) -> (r: bool)
        ensures
            r == self.standalone.headless,
    {
        self.standalone.headless
    }

    /// Whether output is JSON records.
    pub fn json(&self) -> (r: bool)
        ensures
            r == self.standalone.json,
    {
        self.standalone.json
    }

    /// Whether agents are skipped.
    pub fn no_agent(&self) -> (r: bool)
        ensures
            r == self.agent.no_agent,
    {
        self.agent.no_agent
    }

    /// The `--agent` override.
    pub fn agent_override(&self) -> (r: Option<&str>)
        ensures
            opt_str(r) == opt_string(self.agent.agent),
    {
        match &self.agent.agent {
            Some(s) => Some(s.as_str()),
            None => None,
        }
    }

    /// The `--agent-mode` override.
    pub fn agent_mode_override(&self) -> (r: Option<&str>)
        ensures
            opt_str(r) == opt_string(self.agent.agent_mode),
    {
        match &self.agent.agent_mode {
            Some(s) => Some(s.as_str()),
            None => None,
        }
    }

    /// The `--model` override.
    pub fn model_override(&self) -> (r: Option<&str>)
        ensures
            opt_str(r) == opt_string(self.agent.model),
    {
        match &self.agent.model {
            Some(s) => Some(s.as_str()),
            None => None,
        }
    }

    /// Whether programs are skipped.
    pub fn no_program(&self) -> (r: bool)
        ensures
            r == self.program.no_program,
    {
        self.program.no_program
    }

    /// The `--program-timeout` override.
    pub fn program_timeout_override(&self) -> (r: Option<&str>)
        ensures
            opt_str(r) == opt_string(self.program.program_timeout),
    {
        match &self.program.program_timeout {
            Some(s) => Some(s.as_str()),
            None => None,
        }
    }

    /// The `--from-snapshot` reference.
    pub fn snapshot_override_ref(&self) -> (r: Option<&str>)
        ensures
            opt_str(r) == opt_string(self.snapshot.from_snapshot),
    {
        match &self.snapshot.from_snapshot {
            Some(s) => Some(s.as_str()),
            None => None,
        }
    }

    /// Whether `--override-inherit` was given.
    pub fn override_inherit(&self) -> (r: bool)
        ensures
            r == self.snapshot.override_inherit,
    {
        self.snapshot.override_inherit
    }

    /// The snapshot's `--task` selector.
    pub fn snapshot_task_selector(&self) -> (r: Option<&str>)
        ensures
            opt_str(r) == opt_string(self.snapshot.snapshot_task),
    {
        match &self.snapshot.snapshot_task {
            Some(s) => Some(s.as_str()),
            None => None,
        }
    }

    /// The snapshot's `--target` selector.
    pub fn snapshot_target_selector(&self) -> (r: Option<&str>)
        ensures
            opt_str(r) == opt_string(self.snapshot.snapshot_target),
    {
        match &self.snapshot.snapshot_target {
            Some(s) => Some(s.as_str()),
            None => None,
        }
    }


    /// The price book costs are reckoned with.
    pub fn price_book(&self) -> (r: &B)
        ensures
            *r == self.price_book,
    {
        &self.price_book
    }

    /// Reckon costs with another price book.
    pub fn select_price_book(&mut self, price_book: B)
        ensures
            final(self).price_book == price_book,
            final(self).standalone == old(self).standalone,
            final(self).agent == old(self).agent,
            final(self).program == old(self).program,
            final(self).snapshot == old(self).snapshot,
    {
        self.price_book = price_book;
    }

    /// The rheis `--rhei` narrows the run to.
    pub fn rhei_scope(&self) -> (r: &Vec<String>)
        ensures
            r@ == self.standalone.rhei@,
    {
        &self.standalone.rhei
    }

    /// Narrow the run to `scope`.
    pub fn narrow_to(&mut self, scope: Vec<String>)
        ensures
            final(self).standalone.rhei@ == scope@,
            final(self).standalone.dry_run == old(self).standalone.dry_run,
            final(self).standalone.parallel == old(self).standalone.parallel,
            final(self).standalone.json == old(self).standalone.json,
            final(self).standalone.headless == old(self).standalone.headless,
            final(self).agent == old(self).agent,
            final(self).program == old(self).program,
            final(self).snapshot == old(self).snapshot,
            final(self).price_book == old(self).price_book,
    {
        self.standalone.rhei = scope;
    }

    /// The frontend: JSON when asked for, else the TUI or plain stdout when
    /// asked for, else whatever the terminal supports.
    pub fn frontend_kind(&self) -> (r: FrontendKind)
        ensures
            if self.standalone.json {
                r == (FrontendKind::Json { agent_output: self.standalone.json_agent_output })
            } else if self.standalone.tui {
                r is Tui
            } else if self.standalone.no_tui {
                r is Stdout
            } else {
                r is Auto
            },
    {
        if self.standalone.json {
            FrontendKind::Json { agent_output: self.standalone.json_agent_output }
        } else if self.standalone.tui {
            FrontendKind::Tui
        } else if self.standalone.no_tui {
            FrontendKind::Stdout
        } else {
            FrontendKind::Auto
        }
    }

    /// Whether the browser dashboard serves this run: `--dashboard` always;
    /// `--no-dashboard` only for a detached run (which has no other surface);
    /// otherwise under the TUI or when detached.
    pub fn dashboard_enabled(&self, frontend_is_tui: bool, headless_child: bool) -> (r: bool)
        ensures
            r == if self.standalone.dashboard {
                true
            } else if self.standalone.no_dashboard {
                headless_child
            } else {
                frontend_is_tui || headless_child
            },
    {
        if self.standalone.dashboard {
            true
        } else if self.standalone.no_dashboard {
            headless_child
        } else {
            frontend_is_tui || headless_child
        }
    }

    /// Whether the run mentions the dashboard it could serve.
    pub fn announces_dashboard(&self) -> (r: bool)
        ensures
            r == !self.standalone.no_dashboard,
    {
        !self.standalone.no_dashboard
    }

    /// Whether the run waits at human gates rather than halting: only when a
    /// surface can release them (the TUI, or a detached run's attach).
    pub fn waits_for_human_gates(&self, frontend_is_tui: bool, headless_child: bool) -> (r: bool)
        ensures
            r == (frontend_is_tui || headless_child),
    {
        frontend_is_tui || headless_child
    }
}


/// Whether output is colored: not when `--no-color` is given, not when
/// `NO_COLOR` is set to anything non-empty, and otherwise only on a
/// terminal.
pub fn should_use_color(no_color_flag: bool, no_color_env: Option<&str>, stdout_is_terminal: bool) -> (r: bool)
    ensures
        r == (!no_color_flag && !(no_color_env matches Some(v) && v@.len() > 0) && stdout_is_terminal),
{
    if no_color_flag {
        return false;
    }
    match no_color_env {
        Some(v) => if crate::text::char_len(v) > 0 {
            return false;
        },
        None => {},
    }
    stdout_is_terminal
}


/// The first place `x` stands among the first `k` of `s`.
pub open spec fn first_of(s: Seq<Seq<char>>, x: Seq<char>, k: int) -> Option<int>
    decreases k,
{
    if k <= 0 {
        None
    } else {
        match first_of(s, x, k - 1) {
            Some(i) => Some(i),
            None => if s[k - 1] == x {
                Some(k - 1)
            } else {
                None
            },
        }
    }
}

proof fn lemma_first_of_stays(s: Seq<Seq<char>>, x: Seq<char>, k: int, n: int)
    requires
        0 < k <= n,
        first_of(s, x, k - 1) is None,
        s[k - 1] == x,
    ensures
        first_of(s, x, n) == Some(k - 1),
    decreases n - k,
{
    if n > k {
        lemma_first_of_stays(s, x, k, n - 1);
    }
}

/// Where `x` first stands in `v`, from `from` on.
fn position_from(v: &Vec<String>, x: &str, from: usize) -> (r: Option<usize>)
    requires
        from <= v@.len(),
    ensures
        match r {
            Some(i) => from <= i < v@.len() && v@[i as int]@ == x@ && forall|j: int| from <= j < i ==> v@[j]@ != x@,
            None => forall|j: int| from <= j < v@.len() ==> v@[j]@ != x@,
        },
{
    let mut i = from;
    while i < v.len()
        invariant
            from <= i <= v@.len(),
            forall|j: int| from <= j < i ==> v@[j]@ != x@,
        decreases v@.len() - i,
    {
        if crate::text::str_eq(v[i].as_str(), x) {
            return Some(i);
        }
        i += 1;
    }
    None
}

/// The command `rhei instantiate --execute ... -- <command>` is to run:
/// the arguments after the `--` that follows `instantiate`, when
/// `--execute` stands between them; nothing otherwise.
pub open spec fn execute_args_spec(args: Seq<Seq<char>>) -> Seq<Seq<char>> {
    match first_of(args, "instantiate"@, args.len() as int) {
        None => Seq::empty(),
        Some(c) => {
            let rest = args.skip(c + 1);
            match first_of(rest, "--"@, rest.len() as int) {
                None => Seq::empty(),
                Some(sep) => if rest.take(sep).contains("--execute"@) {
                    rest.skip(sep + 1)
                } else {
                    Seq::empty()
                },
            }
        },
    }
}

proof fn lemma_first_of_is(s: Seq<Seq<char>>, x: Seq<char>, i: int)
    requires
        0 <= i < s.len(),
        s[i] == x,
        forall|j: int| 0 <= j < i ==> s[j] != x,
    ensures
        first_of(s, x, s.len() as int) == Some(i),
{
    lemma_first_of_none(s, x, i);
    lemma_first_of_stays(s, x, i + 1, s.len() as int);
}

proof fn lemma_first_of_none(s: Seq<Seq<char>>, x: Seq<char>, k: int)
    requires
        0 <= k <= s.len(),
        forall|j: int| 0 <= j < k ==> s[j] != x,
    ensures
        first_of(s, x, k) is None,
    decreases k,
{
    if k > 0 {
        lemma_first_of_none(s, x, k - 1);
    }
}

/// The command to execute from `rhei instantiate`'s arguments (the
/// program's name left out).
pub fn instantiate_execute_args(args: &Vec<String>) -> (r: Vec<String>)
    ensures
        Seq::new(r@.len(), |i: int| r@[i]@) == execute_args_spec(Seq::new(args@.len(), |i: int| args@[i]@)),
{
    let ghost av = Seq::new(args@.len(), |i: int| args@[i]@);
    let c = match position_from(args, "instantiate", 0) {
        None => {
            proof {
                lemma_first_of_none(av, "instantiate"@, av.len() as int);
            }
            let out: Vec<String> = Vec::new();
            assert(Seq::new(out@.len(), |i: int| out@[i]@) =~= execute_args_spec(av));
            return out;
        },
        Some(c) => c,
    };
    proof {
        lemma_first_of_is(av, "instantiate"@, c as int);
    }
    let ghost rest = av.skip(c + 1);
    assert(c < args.len());
    let sep = match position_from(args, "--", c + 1) {
        None => {
            proof {
                assert forall|j: int| 0 <= j < rest.len() implies rest[j] != "--"@ by {
                    assert(rest[j] == args@[c + 1 + j]@);
                }
                lemma_first_of_none(rest, "--"@, rest.len() as int);
            }
            let out: Vec<String> = Vec::new();
            assert(Seq::new(out@.len(), |i: int| out@[i]@) =~= execute_args_spec(av));
            return out;
        },
        Some(p) => p,
    };
    let ghost rs = (sep - c - 1) as int;
    proof {
        assert forall|j: int| 0 <= j < rs implies rest[j] != "--"@ by {
            assert(rest[j] == args@[c + 1 + j]@);
        }
        assert(rest[rs] == args@[sep as int]@);
        lemma_first_of_is(rest, "--"@, rs);
    }
    let mut has_execute = false;
    let mut i = c + 1;
    while i < sep
        invariant
            c + 1 <= i <= sep,
            sep < args@.len(),
            rest == av.skip(c + 1),
            av == Seq::new(args@.len(), |k: int| args@[k]@),
            has_execute <==> exists|j: int| c + 1 <= j < i && args@[j]@ == "--execute"@,
        decreases sep - i,
    {
        if crate::text::str_eq(args[i].as_str(), "--execute") {
            has_execute = true;
        }
        i += 1;
    }
    proof {
        if has_execute {
            let j = choose|j: int| c + 1 <= j < sep && args@[j]@ == "--execute"@;
            assert(rest.take(rs)[j - c - 1] == "--execute"@);
        }
        if rest.take(rs).contains("--execute"@) {
            let j = choose|j: int| 0 <= j < rest.take(rs).len() && rest.take(rs)[j] == "--execute"@;
            assert(args@[c + 1 + j]@ == "--execute"@);
        }
    }
    let mut out: Vec<String> = Vec::new();
    if !has_execute {
        assert(Seq::new(out@.len(), |i: int| out@[i]@) =~= execute_args_spec(av));
        return out;
    }
    assert(sep < args.len());
    let mut k = sep + 1;
    while k < args.len()
        invariant
            sep + 1 <= k <= args@.len(),
            Seq::new(out@.len(), |i: int| out@[i]@) == av.subrange(sep + 1, k as int),
            av == Seq::new(args@.len(), |q: int| args@[q]@),
        decreases args@.len() - k,
    {
        let ghost before = Seq::new(out@.len(), |i: int| out@[i]@);
        out.push(String::from_str(args[k].as_str()));
        assert(Seq::new(out@.len(), |i: int| out@[i]@) =~= before.push(args@[k as int]@));
        assert(av.subrange(sep + 1, k + 1) =~= av.subrange(sep + 1, k as int).push(av[k as int]));
        k += 1;
    }
    assert(rest.skip(rs + 1) =~= av.subrange(sep + 1, av.len() as int));
    out
}

/// The items of a list of lists, in order.
pub open spec fn flatten(lists: Seq<Vec<String>>) -> Seq<Seq<char>>
    decreases lists.len(),
{
    if lists.len() == 0 {
        Seq::empty()
    } else {
        flatten(lists.drop_last()) + string_views(lists.last()@)
    }
}

/// The union of several lists, each item once, in the order first met.
pub fn union_in_order(lists: &Vec<Vec<String>>) -> (r: Vec<String>)
    ensures
        string_views(r@).no_duplicates(),
        string_views(r@).to_set() == flatten(lists@).to_set(),
{
    let mut out: Vec<String> = Vec::new();
    let mut l: usize = 0;
    assert(string_views(out@).to_set() =~= Set::<Seq<char>>::empty());
    assert(flatten(lists@.take(0)).to_set() =~= Set::<Seq<char>>::empty());
    while l < lists.len()
        invariant
            l <= lists@.len(),
            string_views(out@).no_duplicates(),
            string_views(out@).to_set() == flatten(lists@.take(l as int)).to_set(),
        decreases lists@.len() - l,
    {
        let list = &lists[l];
        let ghost base = flatten(lists@.take(l as int));
        let mut j: usize = 0;
        assert(string_views(list@).take(0) =~= Seq::<Seq<char>>::empty());
        assert(base + string_views(list@).take(0) =~= base);
        while j < list.len()
            invariant
                l < lists@.len(),
                list == &lists@[l as int],
                j <= list@.len(),
                string_views(out@).no_duplicates(),
                string_views(out@).to_set() == (base + string_views(list@).take(j as int)).to_set(),
            decreases list@.len() - j,
        {
            let item = list[j].as_str();
            let ghost before = string_views(out@);
            let ghost seen = base + string_views(list@).take(j as int);
            assert(base + string_views(list@).take(j + 1) =~= seen.push(item@));
            proof {
                seen.lemma_push_to_set_commute(item@);
            }
            match position_from(&out, item, 0) {
                Some(p) => {
                    proof {
                        assert(before[p as int] == item@);
                        assert(before.to_set().contains(item@));
                        assert(seen.to_set().insert(item@) =~= seen.to_set());
                    }
                },
                None => {
                    out.push(String::from_str(item));
                    proof {
                        assert(string_views(out@) =~= before.push(item@));
                        before.lemma_push_to_set_commute(item@);
                        assert forall|x: int, y: int|
                            0 <= x < string_views(out@).len() && 0 <= y < string_views(out@).len() && x != y implies string_views(
                            out@,
                        )[x] != string_views(out@)[y] by {
                            if x < before.len() && y < before.len() {
                            } else if x == before.len() {
                                assert(string_views(out@)[y] == before[y]);
                            } else {
                                assert(string_views(out@)[x] == before[x]);
                            }
                        }
                    }
                },
            }
            j += 1;
        }
        proof {
            assert(string_views(list@).take(list@.len() as int) =~= string_views(list@));
            assert(lists@.take(l + 1).drop_last() =~= lists@.take(l as int));
            assert(lists@.take(l + 1).last() == lists@[l as int]);
        }
        l += 1;
    }
    assert(lists@.take(lists@.len() as int) =~= lists@);
    out
}

} // verus!
