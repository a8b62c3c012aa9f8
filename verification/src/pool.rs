//! The worker pool of a parallel run: the display slots free to hand out
//! (the smallest first, then extra ones past the configured width), and
//! what is running now, per ticket and per non-concurrent state. Spawning
//! takes a slot and counts the worker in; its completion gives both back.
use vstd::prelude::*;
use crate::text::str_eq;

verus! {

/// What one entry adds to the count of `k`.
pub open spec fn share_of(e: (String, usize), k: Seq<char>) -> nat {
    if e.0@ == k {
        e.1 as nat
    } else {
        0
    }
}

/// The count the entries hold for `k`.
pub open spec fn tally(v: Seq<(String, usize)>, k: Seq<char>) -> nat
    decreases v.len(),
{
    if v.len() == 0 {
        0
    } else {
        tally(v.drop_last(), k) + share_of(v.last(), k)
    }
}

/// The keys of the entries.
pub open spec fn keys(v: Seq<(String, usize)>) -> Seq<Seq<char>> {
    Seq::new(v.len(), |i: int| v[i].0@)
}

/// Each key once, each count positive.
pub open spec fn entries_ok(v: Seq<(String, usize)>) -> bool {
    &&& keys(v).no_duplicates()
    &&& forall|i: int| 0 <= i < v.len() ==> (#[trigger] v[i]).1 > 0
}

/// Each slot sorts strictly before the next.
pub open spec fn ascending(s: Seq<u64>) -> bool {
    forall|i: int, j: int| 0 <= i < j < s.len() ==> s[i] < s[j]
}

proof fn lemma_tally_update(v: Seq<(String, usize)>, i: int, e: (String, usize), k: Seq<char>)
    requires
        0 <= i < v.len(),
    ensures
        tally(v.update(i, e), k) + share_of(v[i], k) == tally(v, k) + share_of(e, k),
    decreases v.len(),
{
    let w = v.update(i, e);
    if i == v.len() - 1 {
        assert(w.drop_last() =~= v.drop_last());
    } else {
        assert(w.drop_last() =~= v.drop_last().update(i, e));
        lemma_tally_update(v.drop_last(), i, e, k);
    }
}

proof fn lemma_tally_remove(v: Seq<(String, usize)>, i: int, k: Seq<char>)
    requires
        0 <= i < v.len(),
    ensures
        tally(v.remove(i), k) + share_of(v[i], k) == tally(v, k),
    decreases v.len(),
{
    let w = v.remove(i);
    if i == v.len() - 1 {
        assert(w =~= v.drop_last());
    } else {
        assert(w.drop_last() =~= v.drop_last().remove(i));
        assert(w.last() == v.last());
        lemma_tally_remove(v.drop_last(), i, k);
    }
}

proof fn lemma_tally_absent(v: Seq<(String, usize)>, k: Seq<char>)
    requires
        !keys(v).contains(k),
    ensures
        tally(v, k) == 0,
    decreases v.len(),
{
    if v.len() > 0 {
        assert(keys(v)[v.len() - 1] == v.last().0@);
        assert forall|x: int| 0 <= x < v.len() - 1 implies keys(v.drop_last())[x] != k by {
            assert(keys(v.drop_last())[x] == keys(v)[x]);
        }
        lemma_tally_absent(v.drop_last(), k);
    }
}

proof fn lemma_tally_at(v: Seq<(String, usize)>, i: int)
    requires
        0 <= i < v.len(),
        keys(v).no_duplicates(),
    ensures
        tally(v, v[i].0@) == v[i].1,
    decreases v.len(),
{
    let k = v[i].0@;
    let d = v.drop_last();
    assert forall|a: int, b: int| 0 <= a < d.len() && 0 <= b < d.len() && a != b implies keys(d)[a] != keys(d)[b] by {
        assert(keys(d)[a] == keys(v)[a]);
        assert(keys(d)[b] == keys(v)[b]);
    }
    if i == v.len() - 1 {
        assert forall|x: int| 0 <= x < d.len() implies keys(d)[x] != k by {
            assert(keys(v)[x] != keys(v)[i]);
        }
        lemma_tally_absent(d, k);
    } else {
        assert(keys(v)[v.len() - 1] != keys(v)[i]);
        lemma_tally_at(d, i);
    }
}

/// Where `key` stands among the entries, if it does.
fn find_key(v: &Vec<(String, usize)>, key: &str) -> (r: Option<usize>)
    ensures
        match r {
            Some(i) => i < v@.len() && v@[i as int].0@ == key@,
            None => !keys(v@).contains(key@),
        },
{
    let mut i: usize = 0;
    while i < v.len()
        invariant
            i <= v@.len(),
            forall|x: int| 0 <= x < i ==> keys(v@)[x] != key@,
        decreases v@.len() - i,
    {
        if str_eq(v[i].0.as_str(), key) {
            return Some(i);
        }
        i += 1;
    }
    None
}

/// Count one more for `key`.
fn count_up(v: &mut Vec<(String, usize)>, key: &str)
    requires
        entries_ok(old(v)@),
        tally(old(v)@, key@) < usize::MAX,
    ensures
        entries_ok(final(v)@),
        forall|k: Seq<char>| #[trigger] tally(final(v)@, k) == tally(old(v)@, k) + if k == key@ {
            1nat
        } else {
            0nat
        },
        keys(final(v)@).to_set() == keys(old(v)@).to_set().insert(key@),
{
    let ghost before = v@;
    match find_key(v, key) {
        Some(i) => {
            proof {
                lemma_tally_at(before, i as int);
            }
            let c = v[i].1;
            let e = (String::from_str(key), c + 1);
            v.set(i, e);
            proof {
                assert(keys(v@) =~= keys(before));
                assert forall|k: Seq<char>| #[trigger] tally(v@, k) == tally(before, k) + if k == key@ {
                    1nat
                } else {
                    0nat
                } by {
                    lemma_tally_update(before, i as int, e, k);
                }
                assert(keys(before).to_set().contains(key@)) by {
                    assert(keys(before)[i as int] == key@);
                }
                assert(keys(v@).to_set() =~= keys(before).to_set().insert(key@));
            }
        },
        None => {
            let e = (String::from_str(key), 1usize);
            v.push(e);
            proof {
                assert(v@.drop_last() =~= before);
                assert(keys(v@) =~= keys(before).push(key@));
                assert forall|a: int, b: int| 0 <= a < v@.len() && 0 <= b < v@.len() && a != b implies keys(v@)[a]
                    != keys(v@)[b] by {
                    if a < before.len() && b < before.len() {
                        assert(keys(v@)[a] == keys(before)[a]);
                        assert(keys(v@)[b] == keys(before)[b]);
                    } else if a == before.len() {
                        assert(keys(v@)[b] == keys(before)[b]);
                    } else {
                        assert(keys(v@)[a] == keys(before)[a]);
                    }
                }
                keys(before).lemma_push_to_set_commute(key@);
            }
        },
    }
}

/// Count one fewer for `key`, dropping it at zero.
fn count_down(v: &mut Vec<(String, usize)>, key: &str)
    requires
        entries_ok(old(v)@),
    ensures
        entries_ok(final(v)@),
        forall|k: Seq<char>| #[trigger] tally(final(v)@, k) == if k == key@ && tally(old(v)@, k) > 0 {
            (tally(old(v)@, k) - 1) as nat
        } else {
            tally(old(v)@, k)
        },
        forall|k: Seq<char>| #[trigger] keys(final(v)@).to_set().contains(k) <==> tally(final(v)@, k) > 0,
{
    let ghost before = v@;
    match find_key(v, key) {
        Some(i) => {
            proof {
                lemma_tally_at(before, i as int);
            }
            let c = v[i].1;
            if c <= 1 {
                v.remove(i);
                proof {
                    assert(keys(v@) =~= keys(before).remove(i as int));
                    assert forall|a: int, b: int| 0 <= a < v@.len() && 0 <= b < v@.len() && a != b implies keys(v@)[a]
                        != keys(v@)[b] by {
                        let a2 = if a < i { a } else { a + 1 };
                        let b2 = if b < i { b } else { b + 1 };
                        assert(keys(v@)[a] == keys(before)[a2]);
                        assert(keys(v@)[b] == keys(before)[b2]);
                    }
                    assert forall|x: int| 0 <= x < v@.len() implies (#[trigger] v@[x]).1 > 0 by {
                        let x2 = if x < i { x } else { x + 1 };
                        assert(v@[x] == before[x2]);
                    }
                    assert forall|k: Seq<char>| #[trigger] tally(v@, k) == if k == key@ && tally(before, k) > 0 {
                        (tally(before, k) - 1) as nat
                    } else {
                        tally(before, k)
                    } by {
                        lemma_tally_remove(before, i as int, k);
                    }
                }
            } else {
                let e = (String::from_str(key), c - 1);
                v.set(i, e);
                proof {
                    assert(keys(v@) =~= keys(before));
                    assert forall|k: Seq<char>| #[trigger] tally(v@, k) == if k == key@ && tally(before, k) > 0 {
                        (tally(before, k) - 1) as nat
                    } else {
                        tally(before, k)
                    } by {
                        lemma_tally_update(before, i as int, e, k);
                    }
                }
            }
        },
        None => {
            proof {
                lemma_tally_absent(before, key@);
            }
        },
    }
    proof {
        assert forall|k: Seq<char>| #[trigger] keys(v@).to_set().contains(k) <==> tally(v@, k) > 0 by {
            if keys(v@).to_set().contains(k) {
                let x = choose|x: int| 0 <= x < keys(v@).len() && keys(v@)[x] == k;
                lemma_tally_at(v@, x);
            } else {
                lemma_tally_absent(v@, k);
            }
        }
    }
}

/// Put `slot` among the free slots, keeping them in order.
fn insert_slot(free: &mut Vec<u64>, slot: u64)
    requires
        ascending(old(free)@),
    ensures
        ascending(final(free)@),
        final(free)@.to_set() == old(free)@.to_set().insert(slot),
{
    let ghost before = free@;
    let mut i: usize = 0;
    while i < free.len() && free[i] < slot
        invariant
            i <= free@.len(),
            free@ == before,
            forall|x: int| 0 <= x < i ==> free@[x] < slot,
        decreases free@.len() - i,
    {
        i += 1;
    }
    if i < free.len() && free[i] == slot {
        assert(before.to_set().contains(slot)) by {
            assert(before[i as int] == slot);
        }
        assert(before.to_set() =~= before.to_set().insert(slot));
        return;
    }
    free.insert(i, slot);
    proof {
        let now = free@;
        assert(now =~= before.insert(i as int, slot));
        assert forall|a: int, b: int| 0 <= a < b < now.len() implies now[a] < now[b] by {
            if b < i {
            } else if a < i && b == i {
            } else if a < i && b > i {
                assert(now[b] == before[b - 1]);
                assert(before[i as int] > slot || before[i as int] == slot);
                if b - 1 > i {
                    assert(before[i as int] < before[b - 1]);
                }
            } else if a == i {
                assert(now[b] == before[b - 1]);
                if b - 1 > i {
                    assert(before[i as int] < before[b - 1]);
                }
            } else {
                assert(now[a] == before[a - 1]);
                assert(now[b] == before[b - 1]);
            }
        }
        assert forall|s: u64| #[trigger] now.to_set().contains(s) <==> before.to_set().insert(slot).contains(s) by {
            if now.to_set().contains(s) {
                let x = choose|x: int| 0 <= x < now.len() && now[x] == s;
                if x < i {
                    assert(before[x] == s);
                } else if x > i {
                    assert(before[x - 1] == s);
                }
            }
            if before.to_set().contains(s) {
                let x = choose|x: int| 0 <= x < before.len() && before[x] == s;
                if x < i {
                    assert(now[x] == s);
                } else {
                    assert(now[x + 1] == s);
                }
            }
            if s == slot {
                assert(now[i as int] == slot);
            }
        }
        assert(now.to_set() =~= before.to_set().insert(slot));
    }
}


/// The slots free to hand out and what is running.
pub struct WorkerPool {
    free: Vec<u64>,
    next_extra: u64,
    tasks: Vec<(String, usize)>,
    states: Vec<(String, usize)>,
}

impl WorkerPool {
    /// The pool's bookkeeping is consistent.
    pub closed spec fn wf(&self) -> bool {
        &&& ascending(self.free@)
        &&& entries_ok(self.tasks@)
        &&& entries_ok(self.states@)
    }

    /// The slots free to hand out.
    pub closed spec fn free_slots(&self) -> Set<u64> {
        self.free@.to_set()
    }

    /// The slot handed out when none is free.
    pub closed spec fn next_extra(&self) -> u64 {
        self.next_extra
    }

    /// How many workers run for ticket `task`.
    pub closed spec fn running(&self, task: Seq<char>) -> nat {
        tally(self.tasks@, task)
    }

    /// How many workers hold the non-concurrent state `state`.
    pub closed spec fn holding(&self, state: Seq<char>) -> nat {
        tally(self.states@, state)
    }

    /// The tickets with a worker running.
    pub closed spec fn active_tasks(&self) -> Set<Seq<char>> {
        keys(self.tasks@).to_set()
    }

    /// The non-concurrent states a worker holds.
    pub closed spec fn active_states(&self) -> Set<Seq<char>> {
        keys(self.states@).to_set()
    }

    /// A pool of `width` slots, all free, with nothing running.
    pub fn new(width: u64) -> (r: Self)
        ensures
            r.wf(),
            forall|s: u64| #[trigger] r.free_slots().contains(s) <==> s < width,
            r.next_extra() == width,
            forall|k: Seq<char>| #[trigger] r.running(k) == 0,
            forall|k: Seq<char>| #[trigger] r.holding(k) == 0,
            r.active_tasks().len() == 0,
            r.active_states().len() == 0,
    {
        let mut free: Vec<u64> = Vec::new();
        let mut i: u64 = 0;
        while i < width
            invariant
                i <= width,
                free@.len() == i,
                forall|x: int| 0 <= x < i ==> free@[x] == x,
            decreases width - i,
        {
            free.push(i);
            i += 1;
        }
        let r = WorkerPool { free, next_extra: width, tasks: Vec::new(), states: Vec::new() };
        proof {
            assert forall|s: u64| #[trigger] r.free_slots().contains(s) <==> s < width by {
                if s < width {
                    assert(r.free@[s as int] == s);
                }
            }
            assert(keys(r.tasks@).to_set() =~= Set::<Seq<char>>::empty());
            assert(keys(r.states@).to_set() =~= Set::<Seq<char>>::empty());
        }
        r
    }

    /// Hand out the smallest free slot, or, with none free, the next extra
    /// one (the counter past it stops at the largest slot).
    pub fn take_slot(&mut self) -> (r: u64)
        requires
            old(self).wf(),
        ensures
            final(self).wf(),
            old(self).free_slots().len() > 0 ==> {
                &&& old(self).free_slots().contains(r)
                &&& forall|s: u64| #[trigger] old(self).free_slots().contains(s) ==> r <= s
                &&& final(self).free_slots() == old(self).free_slots().remove(r)
                &&& final(self).next_extra() == old(self).next_extra()
            },
            old(self).free_slots().len() == 0 ==> {
                &&& r == old(self).next_extra()
                &&& final(self).free_slots() == old(self).free_slots()
                &&& final(self).next_extra() == if old(self).next_extra() < u64::MAX {
                    (old(self).next_extra() + 1) as u64
                } else {
                    u64::MAX
                }
            },
            forall|k: Seq<char>| #[trigger] final(self).running(k) == old(self).running(k),
            forall|k: Seq<char>| #[trigger] final(self).holding(k) == old(self).holding(k),
            final(self).active_tasks() == old(self).active_tasks(),
            final(self).active_states() == old(self).active_states(),
    {
        let ghost before = self.free@;
        proof {
            if before.len() == 0 {
                assert(before.to_set() =~= Set::<u64>::empty());
            } else {
                assert(before.to_set().contains(before[0]));
            }
        }
        if self.free.len() > 0 {
            let r = self.free.remove(0);
            proof {
                assert(self.free@ =~= before.subrange(1, before.len() as int));
                assert forall|s: u64| #[trigger] before.to_set().contains(s) implies r <= s by {
                    let x = choose|x: int| 0 <= x < before.len() && before[x] == s;
                    if x > 0 {
                        assert(before[0] < before[x]);
                    }
                }
                assert forall|s: u64| #[trigger] self.free@.to_set().contains(s) <==> before.to_set().remove(r).contains(s) by {
                    if self.free@.to_set().contains(s) {
                        let x = choose|x: int| 0 <= x < self.free@.len() && self.free@[x] == s;
                        assert(before[x + 1] == s);
                        assert(before[0] < before[x + 1]);
                    }
                    if before.to_set().remove(r).contains(s) {
                        let x = choose|x: int| 0 <= x < before.len() && before[x] == s;
                        assert(x != 0);
                        assert(self.free@[x - 1] == s);
                    }
                }
                assert(self.free@.to_set() =~= before.to_set().remove(r));
            }
            r
        } else {
            let r = self.next_extra;
            self.next_extra = self.next_extra.saturating_add(1);
            r
        }
    }

    /// Give a slot back.
    pub fn return_slot(&mut self, slot: u64)
        requires
            old(self).wf(),
        ensures
            final(self).wf(),
            final(self).free_slots() == old(self).free_slots().insert(slot),
            final(self).next_extra() == old(self).next_extra(),
            forall|k: Seq<char>| #[trigger] final(self).running(k) == old(self).running(k),
            forall|k: Seq<char>| #[trigger] final(self).holding(k) == old(self).holding(k),
            final(self).active_tasks() == old(self).active_tasks(),
            final(self).active_states() == old(self).active_states(),
    {
        insert_slot(&mut self.free, slot);
    }

    /// Count a spawned worker in: one more running for `task`, and, for a
    /// state that is not concurrent, one more holding `state`.
    pub fn record_spawn(&mut self, task: &str, state: &str, concurrent: bool)
        requires
            old(self).wf(),
            old(self).running(task@) < usize::MAX,
            old(self).holding(state@) < usize::MAX,
        ensures
            final(self).wf(),
            final(self).free_slots() == old(self).free_slots(),
            final(self).next_extra() == old(self).next_extra(),
            forall|k: Seq<char>| #[trigger] final(self).running(k) == old(self).running(k) + if k == task@ {
                1nat
            } else {
                0nat
            },
            forall|k: Seq<char>| #[trigger] final(self).holding(k) == old(self).holding(k) + if k == state@ && !concurrent {
                1nat
            } else {
                0nat
            },
            final(self).active_tasks() == old(self).active_tasks().insert(task@),
            final(self).active_states() == if concurrent {
                old(self).active_states()
            } else {
                old(self).active_states().insert(state@)
            },
    {
        count_up(&mut self.tasks, task);
        if !concurrent {
            count_up(&mut self.states, state);
        }
    }

    /// A worker finished: its slot is free again, and it no longer counts
    /// for its ticket or its state (a count reaching zero is dropped).
    pub fn release(&mut self, task: &str, state: &str, slot: u64)
        requires
            old(self).wf(),
        ensures
            final(self).wf(),
            final(self).free_slots() == old(self).free_slots().insert(slot),
            final(self).next_extra() == old(self).next_extra(),
            forall|k: Seq<char>| #[trigger] final(self).running(k) == if k == task@ && old(self).running(k) > 0 {
                (old(self).running(k) - 1) as nat
            } else {
                old(self).running(k)
            },
            forall|k: Seq<char>| #[trigger] final(self).holding(k) == if k == state@ && old(self).holding(k) > 0 {
                (old(self).holding(k) - 1) as nat
            } else {
                old(self).holding(k)
            },
            forall|k: Seq<char>| #[trigger] final(self).active_tasks().contains(k) <==> final(self).running(k) > 0,
            forall|k: Seq<char>| #[trigger] final(self).active_states().contains(k) <==> final(self).holding(k) > 0,
    {
        insert_slot(&mut self.free, slot);
        count_down(&mut self.tasks, task);
        count_down(&mut self.states, state);
    }

    /// Whether a worker runs for `task`.
    pub fn is_active_task(&self, task: &str) -> (r: bool)
        requires
            self.wf(),
        ensures
            r == self.active_tasks().contains(task@),
            r == (self.running(task@) > 0),
    {
        match find_key(&self.tasks, task) {
            Some(i) => {
                proof {
                    lemma_tally_at(self.tasks@, i as int);
                    assert(keys(self.tasks@)[i as int] == task@);
                }
                true
            },
            None => {
                proof {
                    lemma_tally_absent(self.tasks@, task@);
                }
                false
            },
        }
    }

    /// Whether a worker holds the non-concurrent state `state`.
    pub fn holds_state(&self, state: &str) -> (r: bool)
        requires
            self.wf(),
        ensures
            r == self.active_states().contains(state@),
            r == (self.holding(state@) > 0),
    {
        match find_key(&self.states, state) {
            Some(i) => {
                proof {
                    lemma_tally_at(self.states@, i as int);
                    assert(keys(self.states@)[i as int] == state@);
                }
                true
            },
            None => {
                proof {
                    lemma_tally_absent(self.states@, state@);
                }
                false
            },
        }
    }

    /// How many more tickets may start: all of them without a limit, else
    /// the limit less the tickets running now (none past it).
    pub fn task_capacity(&self, limit: Option<usize>) -> (r: usize)
        requires
            self.wf(),
        ensures
            limit is None ==> r == usize::MAX,
            limit matches Some(l) ==> r == if l >= self.active_tasks().len() {
                (l - self.active_tasks().len()) as usize
            } else {
                0usize
            },
    {
        proof {
            keys(self.tasks@).unique_seq_to_set();
        }
        match limit {
            None => usize::MAX,
            Some(l) => l.saturating_sub(self.tasks.len()),
        }
    }
}

/// Which work items a pass attempts: every item of a ticket already picked,
/// and items of new tickets while fewer than `max_new` tickets are picked.
pub open spec fn picked_tickets(ids: Seq<Seq<char>>, max_new: nat, k: int) -> Set<Seq<char>>
    decreases k,
{
    if k <= 0 {
        Set::empty()
    } else {
        let before = picked_tickets(ids, max_new, k - 1);
        if !before.contains(ids[k - 1]) && before.len() < max_new {
            before.insert(ids[k - 1])
        } else {
            before
        }
    }
}

/// Whether the item at `k` is attempted.
pub open spec fn attempted(ids: Seq<Seq<char>>, max_new: nat, k: int) -> bool {
    picked_tickets(ids, max_new, k + 1).contains(ids[k])
}

proof fn lemma_picked_finite(ids: Seq<Seq<char>>, max_new: nat, k: int)
    ensures
        picked_tickets(ids, max_new, k).finite(),
        picked_tickets(ids, max_new, k).len() <= max_new,
    decreases k,
{
    if k > 0 {
        lemma_picked_finite(ids, max_new, k - 1);
    }
}

/// For each work item (by its ticket id, in the order the items come),
/// whether it is attempted under `max_new` new tickets.
pub fn admit_work_items(task_ids: &Vec<String>, max_new: usize) -> (r: Vec<bool>)
    ensures
        r@.len() == task_ids@.len(),
        forall|k: int| 0 <= k < r@.len() ==> r@[k] == attempted(
            Seq::new(task_ids@.len(), |i: int| task_ids@[i]@),
            max_new as nat,
            k,
        ),
{
    let ghost ids = Seq::new(task_ids@.len(), |i: int| task_ids@[i]@);
    let mut picked: Vec<String> = Vec::new();
    let mut out: Vec<bool> = Vec::new();
    let mut k: usize = 0;
    while k < task_ids.len()
        invariant
            ids == Seq::new(task_ids@.len(), |i: int| task_ids@[i]@),
            k <= task_ids@.len(),
            out@.len() == k,
            Seq::new(picked@.len(), |i: int| picked@[i]@).no_duplicates(),
            Seq::new(picked@.len(), |i: int| picked@[i]@).to_set() == picked_tickets(ids, max_new as nat, k as int),
            forall|x: int| 0 <= x < k ==> out@[x] == attempted(ids, max_new as nat, x),
        decreases task_ids@.len() - k,
    {
        let ghost pv = Seq::new(picked@.len(), |i: int| picked@[i]@);
        proof {
            pv.unique_seq_to_set();
            lemma_picked_finite(ids, max_new as nat, k as int);
        }
        let id = task_ids[k].as_str();
        let mut seen = false;
        let mut j: usize = 0;
        while j < picked.len()
            invariant
                pv == Seq::new(picked@.len(), |i: int| picked@[i]@),
                j <= picked@.len(),
                seen <==> exists|x: int| 0 <= x < j && pv[x] == id@,
            decreases picked@.len() - j,
        {
            if str_eq(picked[j].as_str(), id) {
                seen = true;
                proof {
                    assert(pv[j as int] == id@);
                }
            }
            j += 1;
        }
        proof {
            assert(ids[k as int] == id@);
            if pv.to_set().contains(id@) {
                let x = choose|x: int| 0 <= x < pv.len() && pv[x] == id@;
                assert(seen);
            }
        }
        if seen {
            out.push(true);
        } else if picked.len() < max_new {
            picked.push(String::from_str(id));
            out.push(true);
            proof {
                let nv = Seq::new(picked@.len(), |i: int| picked@[i]@);
                assert(nv =~= pv.push(id@));
                pv.lemma_push_to_set_commute(id@);
                assert forall|a: int, b: int| 0 <= a < nv.len() && 0 <= b < nv.len() && a != b implies nv[a] != nv[b] by {
                    if a < pv.len() && b < pv.len() {
                    } else if a == pv.len() {
                        assert(nv[b] == pv[b]);
                    } else {
                        assert(nv[a] == pv[a]);
                    }
                }
            }
        } else {
            out.push(false);
        }
        proof {
            assert(out@[k as int] == attempted(ids, max_new as nat, k as int));
        }
        k += 1;
    }
    out
}

/// Spawning a worker and seeing it finish leaves the counts as they were.
pub proof fn lemma_release_undoes_spawn(
    before: WorkerPool,
    spawned: WorkerPool,
    after: WorkerPool,
    task: Seq<char>,
    state: Seq<char>,
    concurrent: bool,
)
    requires
        forall|k: Seq<char>| #[trigger] spawned.running(k) == before.running(k) + if k == task {
            1nat
        } else {
            0nat
        },
        forall|k: Seq<char>| #[trigger] spawned.holding(k) == before.holding(k) + if k == state && !concurrent {
            1nat
        } else {
            0nat
        },
        forall|k: Seq<char>| #[trigger] after.running(k) == if k == task && spawned.running(k) > 0 {
            (spawned.running(k) - 1) as nat
        } else {
            spawned.running(k)
        },
        forall|k: Seq<char>| #[trigger] after.holding(k) == if k == state && spawned.holding(k) > 0 {
            (spawned.holding(k) - 1) as nat
        } else {
            spawned.holding(k)
        },
        !concurrent || before.holding(state) == 0,
    ensures
        forall|k: Seq<char>| #[trigger] after.running(k) == before.running(k),
        forall|k: Seq<char>| #[trigger] after.holding(k) == before.holding(k),
{
    assert forall|k: Seq<char>| #[trigger] after.running(k) == before.running(k) by {
        assert(spawned.running(k) == before.running(k) + if k == task { 1nat } else { 0nat });
    }
    assert forall|k: Seq<char>| #[trigger] after.holding(k) == before.holding(k) by {
        assert(spawned.holding(k) == before.holding(k) + if k == state && !concurrent { 1nat } else { 0nat });
    }
}

} // verus!
