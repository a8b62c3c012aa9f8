//! Depth-first search over a dependency graph given as adjacency lists:
//! finding a dependency cycle, ordering nodes so that dependencies come first,
//! and collecting everything reachable from a set of roots.
use vstd::prelude::*;

verus! {

/// Every adjacency entry names a node of the graph.
pub open spec fn well_formed(g: Seq<Seq<usize>>) -> bool {
    forall|u: int, k: int|
        0 <= u < g.len() && 0 <= k < g[u].len() ==> (#[trigger] g[u][k] as int) < g.len()
}

/// `u` lists `v` among its dependencies.
pub open spec fn edge(g: Seq<Seq<usize>>, u: int, v: int) -> bool {
    0 <= u < g.len() && 0 <= v < g.len() && g[u].contains(v as usize)
}

/// A walk along dependency edges.
pub open spec fn is_path(g: Seq<Seq<usize>>, p: Seq<int>) -> bool {
    &&& p.len() >= 1
    &&& forall|k: int| 0 <= k < p.len() ==> 0 <= #[trigger] p[k] < g.len()
    &&& forall|k: int| 0 <= k < p.len() - 1 ==> #[trigger] edge(g, p[k], p[k + 1])
}

/// A walk that returns to where it started.
pub open spec fn is_cycle(g: Seq<Seq<usize>>, p: Seq<int>) -> bool {
    is_path(g, p) && p.len() >= 2 && p[0] == p[p.len() - 1]
}

pub open spec fn has_cycle(g: Seq<Seq<usize>>) -> bool {
    exists|p: Seq<int>| is_cycle(g, p)
}

/// A walk whose last node also occurs earlier in it: it closes a cycle.
pub open spec fn closes_cycle(g: Seq<Seq<usize>>, p: Seq<int>) -> bool {
    is_path(g, p) && exists|k: int| 0 <= k < p.len() - 1 && #[trigger] p[k] == p[p.len() - 1]
}

/// `v` can be reached from one of `roots` by following dependency edges
/// (every root reaches itself).
pub open spec fn reachable(g: Seq<Seq<usize>>, roots: Seq<usize>, v: int) -> bool {
    exists|p: Seq<int>|
        is_path(g, p) && roots.contains(p[0] as usize) && #[trigger] p[p.len() - 1] == v
}

pub open spec fn usize_seq_to_int(s: Seq<usize>) -> Seq<int> {
    s.map_values(|x: usize| x as int)
}

// ---------------------------------------------------------------------------
// Search state
// ---------------------------------------------------------------------------

/// Number of nodes not yet entered (mark 0).
pub open spec fn unmarked(m: Seq<u8>) -> nat
    decreases m.len(),
{
    if m.len() == 0 {
        0
    } else {
        unmarked(m.drop_last()) + if m.last() == 0u8 {
            1nat
        } else {
            0nat
        }
    }
}

proof fn lemma_unmarked_bound(m: Seq<u8>)
    ensures
        unmarked(m) <= m.len(),
    decreases m.len(),
{
    if m.len() > 0 {
        lemma_unmarked_bound(m.drop_last());
    }
}

proof fn lemma_unmarked_update(m: Seq<u8>, i: int, b: u8)
    requires
        0 <= i < m.len(),
    ensures
        m[i] == 0 && b != 0 ==> unmarked(m.update(i, b)) + 1 == unmarked(m),
        m[i] != 0 && b != 0 ==> unmarked(m.update(i, b)) == unmarked(m),
    decreases m.len(),
{
    let u = m.update(i, b);
    if i == m.len() - 1 {
        assert(u.drop_last() =~= m.drop_last());
    } else {
        assert(u.drop_last() =~= m.drop_last().update(i, b));
        lemma_unmarked_update(m.drop_last(), i, b);
    }
}

proof fn lemma_unmarked_mono(m0: Seq<u8>, m1: Seq<u8>)
    requires
        m0.len() == m1.len(),
        forall|x: int| 0 <= x < m0.len() && m0[x] != 0 ==> #[trigger] m1[x] != 0,
    ensures
        unmarked(m1) <= unmarked(m0),
    decreases m0.len(),
{
    if m0.len() > 0 {
        assert forall|x: int|
            0 <= x < m0.drop_last().len() && m0.drop_last()[x] != 0 implies #[trigger] m1.drop_last()[x]
            != 0 by {
            assert(m0.drop_last()[x] == m0[x]);
            assert(m1.drop_last()[x] == m1[x]);
        }
        lemma_unmarked_mono(m0.drop_last(), m1.drop_last());
    }
}

proof fn lemma_unmarked_full(m: Seq<u8>)
    requires
        unmarked(m) == 0,
    ensures
        forall|x: int| 0 <= x < m.len() ==> #[trigger] m[x] != 0,
    decreases m.len(),
{
    if m.len() > 0 {
        lemma_unmarked_full(m.drop_last());
        assert forall|x: int| 0 <= x < m.len() implies #[trigger] m[x] != 0 by {
            if x < m.len() - 1 {
                assert(m[x] == m.drop_last()[x]);
            }
        }
    }
}

/// The search state: marks are 0 (not entered), 1 (on the stack), or 2
/// (finished); the stack is a walk; every finished node's dependencies are
/// finished and carry a smaller finishing rank.
pub open spec fn search_inv(
    g: Seq<Seq<usize>>,
    m: Seq<u8>,
    s: Seq<usize>,
    rank: Seq<usize>,
    t: nat,
    closed: bool,
) -> bool {
    &&& m.len() == g.len()
    &&& rank.len() == g.len()
    &&& forall|x: int| 0 <= x < m.len() ==> #[trigger] m[x] <= 2
    &&& forall|x: int| 0 <= x < m.len() ==> (#[trigger] m[x] == 1 <==> s.contains(x as usize))
    &&& forall|k: int| 0 <= k < s.len() ==> (#[trigger] s[k] as int) < g.len()
    &&& forall|k: int| 0 <= k < s.len() - 1 ==> #[trigger] edge(g, s[k] as int, s[k + 1] as int)
    &&& forall|x: int| 0 <= x < m.len() && #[trigger] m[x] == 2 ==> (rank[x] as int) < t
    &&& closed ==> forall|u: int, v: int|
        0 <= u < m.len() && m[u] == 2 && #[trigger] edge(g, u, v) ==> m[v] == 2 && rank[v]
            < rank[u]
    &&& t + unmarked(m) + s.len() == g.len()
}

/// Marks never move backwards: an entered node stays entered, a finished node
/// stays finished with its rank.
pub open spec fn marks_grow(m0: Seq<u8>, m1: Seq<u8>, r0: Seq<usize>, r1: Seq<usize>) -> bool {
    &&& m1.len() == m0.len()
    &&& forall|x: int| 0 <= x < m0.len() && m0[x] == 1 ==> #[trigger] m1[x] == 1
    &&& forall|x: int| 0 <= x < m0.len() && m0[x] == 2 ==> #[trigger] m1[x] == 2 && r1[x] == r0[x]
    &&& forall|x: int| 0 <= x < m0.len() && m1[x] == 1 ==> #[trigger] m0[x] == 1
}

pub open spec fn adjacency(g: Seq<Vec<usize>>) -> Seq<Seq<usize>> {
    g.map_values(|a: Vec<usize>| a@)
}

/// A cycle cannot pass through a finished node of a closed search state.
proof fn lemma_no_cycle_through_finished(
    g: Seq<Seq<usize>>,
    m: Seq<u8>,
    rank: Seq<usize>,
    p: Seq<int>,
    k: int,
)
    requires
        m.len() == g.len(),
        rank.len() == g.len(),
        forall|u: int, v: int|
            0 <= u < m.len() && m[u] == 2 && #[trigger] edge(g, u, v) ==> m[v] == 2 && rank[v]
                < rank[u],
    ensures
        is_cycle(g, p) && 0 <= k < p.len() ==> m[p[k]] != 2,
{
    if is_cycle(g, p) && 0 <= k < p.len() && m[p[k]] == 2 {
        // Everything after a finished node on the walk is finished.
        lemma_forward_finished(g, m, rank, p, k, p.len() - 1);
        assert(m[p[0]] == 2);
        lemma_rank_descends(g, m, rank, p, p.len() - 1);
        assert(rank[p[p.len() - 1]] as int <= rank[p[0]] - (p.len() - 1));
    }
}

proof fn lemma_forward_finished(
    g: Seq<Seq<usize>>,
    m: Seq<u8>,
    rank: Seq<usize>,
    p: Seq<int>,
    k: int,
    j: int,
)
    requires
        m.len() == g.len(),
        rank.len() == g.len(),
        forall|u: int, v: int|
            0 <= u < m.len() && m[u] == 2 && #[trigger] edge(g, u, v) ==> m[v] == 2 && rank[v]
                < rank[u],
        is_path(g, p),
        0 <= k <= j < p.len(),
        m[p[k]] == 2,
    ensures
        m[p[j]] == 2,
    decreases j - k,
{
    if j > k {
        lemma_forward_finished(g, m, rank, p, k, j - 1);
        assert(edge(g, p[j - 1], p[(j - 1) + 1]));
    }
}

proof fn lemma_rank_descends(
    g: Seq<Seq<usize>>,
    m: Seq<u8>,
    rank: Seq<usize>,
    p: Seq<int>,
    j: int,
)
    requires
        m.len() == g.len(),
        rank.len() == g.len(),
        forall|u: int, v: int|
            0 <= u < m.len() && m[u] == 2 && #[trigger] edge(g, u, v) ==> m[v] == 2 && rank[v]
                < rank[u],
        is_path(g, p),
        0 <= j < p.len(),
        m[p[0]] == 2,
    ensures
        m[p[j]] == 2,
        rank[p[j]] as int <= rank[p[0]] - j,
    decreases j,
{
    if j > 0 {
        lemma_rank_descends(g, m, rank, p, j - 1);
        assert(edge(g, p[j - 1], p[(j - 1) + 1]));
    }
}

/// The stack from position `k` on, closed by an edge back to `s[k]`, is a cycle.
proof fn lemma_back_edge_cycle(g: Seq<Seq<usize>>, s: Seq<usize>, k: int, v: int)
    requires
        0 <= k < s.len(),
        s[k] as int == v,
        forall|i: int| 0 <= i < s.len() ==> (#[trigger] s[i] as int) < g.len(),
        forall|i: int| 0 <= i < s.len() - 1 ==> #[trigger] edge(g, s[i] as int, s[i + 1] as int),
        edge(g, s[s.len() - 1] as int, v),
    ensures
        has_cycle(g),
{
    let p = usize_seq_to_int(s.subrange(k, s.len() as int)).push(v);
    assert forall|i: int| 0 <= i < p.len() implies 0 <= #[trigger] p[i] < g.len() by {
        if i < p.len() - 1 {
            assert(p[i] == s[k + i] as int);
        }
    }
    assert forall|i: int| 0 <= i < p.len() - 1 implies #[trigger] edge(g, p[i], p[i + 1]) by {
        if i < p.len() - 2 {
            assert(p[i] == s[k + i] as int);
            assert(p[i + 1] == s[k + i + 1] as int);
        } else {
            assert(p[i] == s[s.len() - 1] as int);
        }
    }
    assert(p[0] == s[k] as int);
    assert(is_cycle(g, p));
}

// ---------------------------------------------------------------------------
// Cycle search
// ---------------------------------------------------------------------------

/// What a cycle search entering `u` from the walk `st` gives: the marks it
/// leaves (0 new, 1 on the walk, 2 finished) and the walk that closes a
/// cycle, if it meets one. A finished node is done with; a node on the walk
/// closes a cycle (the walk plus that node); a new node is searched through
/// its dependencies in the order they are listed, stopping at the first
/// cycle. `fuel` bounds the depth; as many as there are unmarked nodes is
/// enough.
pub open spec fn cycle_visit(g: Seq<Seq<usize>>, fuel: nat, u: int, m: Seq<u8>, st: Seq<usize>) -> (
    Seq<u8>,
    Option<Seq<usize>>,
)
    decreases fuel, 0nat, 0int,
{
    if m[u] == 2 {
        (m, None)
    } else if m[u] == 1 {
        (m, Some(st.push(u as usize)))
    } else if fuel == 0 {
        (m, None)
    } else {
        let r = cycle_children(g, (fuel - 1) as nat, u, g[u].len() as int, m.update(u, 1), st.push(u as usize));
        if r.1 is Some {
            r
        } else {
            (r.0.update(u, 2), None)
        }
    }
}

/// The cycle search through the first `k` dependencies of `u`, stopping at
/// the first cycle.
pub open spec fn cycle_children(g: Seq<Seq<usize>>, fuel: nat, u: int, k: int, m: Seq<u8>, st: Seq<usize>) -> (
    Seq<u8>,
    Option<Seq<usize>>,
)
    decreases fuel, 1nat, k,
{
    if k <= 0 {
        (m, None)
    } else {
        let r = cycle_children(g, fuel, u, k - 1, m, st);
        if r.1 is Some {
            r
        } else {
            cycle_visit(g, fuel, g[u][k - 1] as int, r.0, st)
        }
    }
}

/// The cycle search from the first `j` roots in turn, each with an empty
/// walk, from no marks, stopping at the first cycle.
pub open spec fn cycle_from_roots(g: Seq<Seq<usize>>, roots: Seq<usize>, j: int) -> (Seq<u8>, Option<Seq<usize>>)
    decreases j,
{
    if j <= 0 {
        (Seq::new(g.len(), |i: int| 0u8), None)
    } else {
        let r = cycle_from_roots(g, roots, j - 1);
        if r.1 is Some {
            r
        } else {
            cycle_visit(g, g.len(), roots[j - 1] as int, r.0, Seq::empty())
        }
    }
}

/// The walk that closes the first cycle a depth-first search from each root
/// in turn meets, if any.
pub open spec fn first_cycle_walk(g: Seq<Seq<usize>>, roots: Seq<usize>) -> Option<Seq<usize>> {
    cycle_from_roots(g, roots, roots.len() as int).1
}

proof fn lemma_cycle_from_roots_stays(g: Seq<Seq<usize>>, roots: Seq<usize>, j: int, n: int)
    requires
        0 <= j <= n,
        cycle_from_roots(g, roots, j).1 is Some,
    ensures
        cycle_from_roots(g, roots, n) == cycle_from_roots(g, roots, j),
    decreases n - j,
{
    if n > j {
        lemma_cycle_from_roots_stays(g, roots, j, n - 1);
    }
}

proof fn lemma_cycle_children_stays(g: Seq<Seq<usize>>, fuel: nat, u: int, k: int, n: int, m: Seq<u8>, st: Seq<usize>)
    requires
        0 <= k <= n,
        cycle_children(g, fuel, u, k, m, st).1 is Some,
    ensures
        cycle_children(g, fuel, u, n, m, st) == cycle_children(g, fuel, u, k, m, st),
    decreases n - k,
{
    if n > k {
        lemma_cycle_children_stays(g, fuel, u, k, n - 1, m, st);
    }
}

pub open spec fn opt_walk(r: Option<Vec<usize>>) -> Option<Seq<usize>> {
    match r {
        Some(p) => Some(p@),
        None => None,
    }
}

/// Enter `u` from the top of `stack`: a node already finished is done with, a
/// node on the stack closes a cycle (returned as the stack plus `u`), and a new
/// node is searched through its dependencies in order.
fn visit_for_cycle(
    g: &Vec<Vec<usize>>,
    u: usize,
    marks: &mut Vec<u8>,
    stack: &mut Vec<usize>,
    rank: &mut Vec<usize>,
    t: &mut usize,
    Ghost(fuel): Ghost<nat>,
) -> (r: Option<Vec<usize>>)
    requires
        well_formed(adjacency(g@)),
        (u as int) < g@.len(),
        fuel >= unmarked(old(marks)@),
        search_inv(adjacency(g@), old(marks)@, old(stack)@, old(rank)@, *old(t) as nat, true),
        old(stack)@.len() > 0 ==> edge(
            adjacency(g@),
            old(stack)@[old(stack)@.len() - 1] as int,
            u as int,
        ),
    ensures
        match r {
            Some(p) => closes_cycle(adjacency(g@), usize_seq_to_int(p@)),
            None => {
                &&& search_inv(
                    adjacency(g@),
                    final(marks)@,
                    final(stack)@,
                    final(rank)@,
                    *final(t) as nat,
                    true,
                )
                &&& final(stack)@ == old(stack)@
                &&& final(marks)@[u as int] == 2
                &&& marks_grow(old(marks)@, final(marks)@, old(rank)@, final(rank)@)
            },
        },
        cycle_visit(adjacency(g@), fuel, u as int, old(marks)@, old(stack)@) == (final(marks)@, opt_walk(r)),
    decreases unmarked(old(marks)@),
{
    let ghost gg = adjacency(g@);
    let total = g.len();
    if marks[u] == 2 {
        return None;
    }
    if marks[u] == 1 {
        let mut p = stack.clone();
        p.push(u);
        proof {
            assert(stack@.contains(u));
            let k = choose|k: int| 0 <= k < stack@.len() && stack@[k] == u;
            let pi = usize_seq_to_int(p@);
            assert(pi[k] == pi[pi.len() - 1]);
            assert forall|i: int| 0 <= i < pi.len() implies 0 <= #[trigger] pi[i] < gg.len() by {
                if i < pi.len() - 1 {
                    assert(pi[i] == stack@[i] as int);
                }
            }
            assert forall|i: int| 0 <= i < pi.len() - 1 implies #[trigger] edge(
                gg,
                pi[i],
                pi[i + 1],
            ) by {
                assert(pi[i] == stack@[i] as int);
                if i < pi.len() - 2 {
                    assert(pi[i + 1] == stack@[i + 1] as int);
                }
            }
        }
        return Some(p);
    }
    // A node not entered yet.

    let ghost m0 = marks@;
    let ghost r0 = rank@;
    let ghost s0 = stack@;
    proof {
        lemma_unmarked_update(marks@, u as int, 1);
        assert(!stack@.contains(u));
    }
    assert(m0[u as int] <= 2);
    assert(m0[u as int] == 0);
    marks.set(u, 1);
    stack.push(u);
    assert(marks@ == m0.update(u as int, 1));
    proof {
        let mm = marks@;
        let ss = stack@;
        assert(ss == s0.push(u));
        assert forall|x: int| 0 <= x < mm.len() implies (#[trigger] mm[x] == 1 <==> ss.contains(
            x as usize,
        )) by {
            if x == u {
                assert(ss[ss.len() - 1] == u);
            } else {
                assert(mm[x] == m0[x]);
                if s0.contains(x as usize) {
                    let i = choose|i: int| 0 <= i < s0.len() && s0[i] == x as usize;
                    assert(ss[i] == x as usize);
                }
                if ss.contains(x as usize) {
                    let i = choose|i: int| 0 <= i < ss.len() && ss[i] == x as usize;
                    assert(i < s0.len());
                    assert(s0[i] == x as usize);
                }
            }
        }
        assert forall|i: int| 0 <= i < ss.len() - 1 implies #[trigger] edge(
            gg,
            ss[i] as int,
            ss[i + 1] as int,
        ) by {
            if i < ss.len() - 2 {
                assert(ss[i] == s0[i]);
                assert(ss[i + 1] == s0[i + 1]);
            }
        }
        assert forall|k: int| 0 <= k < ss.len() implies (#[trigger] ss[k] as int) < gg.len() by {
            if k < s0.len() {
                assert(ss[k] == s0[k]);
            }
        }
    }
    let n = g[u].len();
    let mut k: usize = 0;
    while k < n
        invariant
            well_formed(gg),
            gg == adjacency(g@),
            (u as int) < g@.len(),
            n == gg[u as int].len(),
            k <= n,
            search_inv(gg, marks@, stack@, rank@, *t as nat, true),
            stack@ == s0.push(u),
            !s0.contains(u),
            marks@[u as int] == 1,
            unmarked(marks@) < unmarked(m0),
            m0 == old(marks)@,
            m0.len() == gg.len(),
            r0.len() == gg.len(),
            g@.len() == total,
            forall|x: int| 0 <= x < m0.len() && m0[x] == 1 ==> #[trigger] marks@[x] == 1,
            forall|x: int|
                0 <= x < m0.len() && m0[x] == 2 ==> #[trigger] marks@[x] == 2 && rank@[x]
                    == r0[x],
            forall|x: int|
                0 <= x < m0.len() && x != u && marks@[x] == 1 ==> #[trigger] m0[x] == 1,
            forall|j: int| 0 <= j < k ==> marks@[#[trigger] gg[u as int][j] as int] == 2,
            fuel >= unmarked(m0),
            fuel >= 1,
            m0[u as int] == 0,
            s0 == old(stack)@,
            (marks@, None::<Seq<usize>>) == cycle_children(
                gg,
                (fuel - 1) as nat,
                u as int,
                k as int,
                m0.update(u as int, 1),
                s0.push(u),
            ),
        decreases n - k,
    {
        let v = g[u][k];
        proof {
            assert(gg[u as int][k as int] == v);
            assert(gg[u as int].contains(v));
            assert(edge(gg, u as int, v as int));
        }
        let ghost mb = marks@;
        let ghost rb = rank@;
        let ghost sb = stack@;
        let res = visit_for_cycle(g, v, marks, stack, rank, t, Ghost((fuel - 1) as nat));
        proof {
            assert(gg[u as int][k as int] == v);
        }
        if res.is_some() {
            proof {
                assert(sb == s0.push(u));
                assert(cycle_children(gg, (fuel - 1) as nat, u as int, k + 1, m0.update(u as int, 1), s0.push(u))
                    == cycle_visit(gg, (fuel - 1) as nat, v as int, mb, sb));
                lemma_cycle_children_stays(
                    gg,
                    (fuel - 1) as nat,
                    u as int,
                    k + 1,
                    n as int,
                    m0.update(u as int, 1),
                    s0.push(u),
                );
                assert(m0[u as int] == 0);
                assert(fuel != 0);
                assert(cycle_children(gg, (fuel - 1) as nat, u as int, n as int, m0.update(u as int, 1), s0.push(u)).1 is Some);
                assert(cycle_visit(gg, fuel, u as int, m0, s0) == cycle_children(
                    gg,
                    (fuel - 1) as nat,
                    u as int,
                    gg[u as int].len() as int,
                    m0.update(u as int, 1),
                    s0.push(u),
                ));
            }
            return res;
        }
        proof {
            assert(res.is_none());
            assert(marks_grow(mb, marks@, rb, rank@));
            lemma_unmarked_mono(mb, marks@);
            assert(gg[u as int][k as int] == v);
            assert forall|x: int| 0 <= x < m0.len() && m0[x] == 1 implies #[trigger] marks@[x]
                == 1 by {
                assert(mb[x] == 1);
            }
            assert forall|x: int| 0 <= x < m0.len() && m0[x] == 2 implies #[trigger] marks@[x]
                == 2 && rank@[x] == r0[x] by {
                assert(mb[x] == 2);
                assert(rb[x] == r0[x]);
            }
            assert forall|x: int| 0 <= x < m0.len() && x != u && marks@[x] == 1 implies #[trigger] m0[x]
                == 1 by {
                assert(mb[x] == 1);
            }
            assert forall|j: int| 0 <= j < k + 1 implies marks@[#[trigger] gg[u as int][j] as int] == 2 by {
                if j < k {
                    assert(mb[gg[u as int][j] as int] == 2);
                }
            }
        }
        k += 1;
    }
    proof {
        lemma_unmarked_update(marks@, u as int, 2);
    }
    let ghost before = marks@;
    marks.set(u, 2);
    rank.set(u, *t);
    *t = *t + 1;
    stack.pop();
    proof {
        assert(stack@ =~= s0);
        let mm = marks@;
        assert forall|x: int| 0 <= x < mm.len() implies (#[trigger] mm[x] == 1 <==> s0.contains(
            x as usize,
        )) by {
            if x == u {
                assert(!s0.contains(u));
            } else {
                assert(mm[x] == before[x]);
                if s0.contains(x as usize) {
                    let i = choose|i: int| 0 <= i < s0.len() && s0[i] == x as usize;
                    assert(s0.push(u)[i] == x as usize);
                }
                if before[x] == 1 {
                    assert(s0.push(u).contains(x as usize));
                    let i = choose|i: int| 0 <= i < s0.len() + 1 && s0.push(u)[i] == x as usize;
                    assert(i < s0.len());
                }
            }
        }
        assert forall|a: int, b: int|
            0 <= a < mm.len() && mm[a] == 2 && #[trigger] edge(gg, a, b) implies mm[b] == 2
            && rank@[b] < rank@[a] by {
            if a == u {
                let j = choose|j: int| 0 <= j < gg[u as int].len() && gg[u as int][j] == b as usize;
                assert(marks@[gg[u as int][j] as int] == 2);
            }
        }
        assert forall|i: int| 0 <= i < stack@.len() - 1 implies #[trigger] edge(
            gg,
            stack@[i] as int,
            stack@[i + 1] as int,
        ) by {
            assert(s0.push(u)[i] == stack@[i]);
            assert(s0.push(u)[i + 1] == stack@[i + 1]);
        }
    }
    None
}

/// Search from each of `roots` in order. `Some(walk)` is the first dependency
/// cycle met, written as the walk from the search root into it; `None` means
/// no cycle passes through any root.
pub fn find_cycle(g: &Vec<Vec<usize>>, roots: &Vec<usize>) -> (r: Option<Vec<usize>>)
    requires
        well_formed(adjacency(g@)),
        forall|k: int| 0 <= k < roots@.len() ==> (#[trigger] roots@[k] as int) < g@.len(),
    ensures
        opt_walk(r) == first_cycle_walk(adjacency(g@), roots@),
        match r {
            Some(p) => closes_cycle(adjacency(g@), usize_seq_to_int(p@)),
            None => forall|p: Seq<int>, k: int|
                is_cycle(adjacency(g@), p) && 0 <= k < p.len() ==> !roots@.contains(
                    #[trigger] p[k] as usize,
                ),
        },
{
    let ghost gg = adjacency(g@);
    let n = g.len();
    let mut marks: Vec<u8> = Vec::new();
    let mut rank: Vec<usize> = Vec::new();
    let mut i: usize = 0;
    while i < n
        invariant
            n == g@.len(),
            i <= n,
            marks@.len() == i,
            rank@.len() == i,
            forall|x: int| 0 <= x < i ==> #[trigger] marks@[x] == 0,
            unmarked(marks@) == i,
        decreases n - i,
    {
        let ghost prev = marks@;
        marks.push(0);
        rank.push(0);
        assert(marks@.drop_last() =~= prev);
        i += 1;
    }
    let mut t: usize = 0;
    let mut j: usize = 0;
    assert(marks@ =~= Seq::new(gg.len(), |i: int| 0u8));
    while j < roots.len()
        invariant
            well_formed(gg),
            gg == adjacency(g@),
            forall|k: int| 0 <= k < roots@.len() ==> (#[trigger] roots@[k] as int) < g@.len(),
            j <= roots@.len(),
            search_inv(gg, marks@, Seq::<usize>::empty(), rank@, t as nat, true),
            forall|k: int| 0 <= k < j ==> marks@[#[trigger] roots@[k] as int] == 2,
            (marks@, None::<Seq<usize>>) == cycle_from_roots(gg, roots@, j as int),
            marks@.len() == n,
            n == g@.len(),
        decreases roots@.len() - j,
    {
        let mut stack: Vec<usize> = Vec::new();
        let ghost m0 = marks@;
        proof {
            lemma_unmarked_bound(marks@);
        }
        let res = visit_for_cycle(g, roots[j], &mut marks, &mut stack, &mut rank, &mut t, Ghost(n as nat));
        if res.is_some() {
            proof {
                lemma_cycle_from_roots_stays(gg, roots@, j + 1, roots@.len() as int);
            }
            return res;
        }
        j += 1;
    }
    proof {
        assert forall|p: Seq<int>, k: int|
            is_cycle(gg, p) && 0 <= k < p.len() implies !roots@.contains(#[trigger] p[k] as usize) by {
            if roots@.contains(p[k] as usize) {
                let q = choose|q: int| 0 <= q < roots@.len() && roots@[q] == p[k] as usize;
                assert(marks@[roots@[q] as int] == 2);
                lemma_no_cycle_through_finished(gg, marks@, rank@, p, k);
            }
        }
    }
    None
}


// ---------------------------------------------------------------------------
// Dependency order
// ---------------------------------------------------------------------------

/// The finishing order of a search: it lists exactly the finished nodes, each
/// at the position its rank records.
pub open spec fn order_matches(m: Seq<u8>, rank: Seq<usize>, order: Seq<usize>, t: nat) -> bool {
    &&& order.len() == t
    &&& forall|a: int|
        0 <= a < order.len() ==> (#[trigger] order[a] as int) < m.len() && m[order[a] as int]
            == 2 && rank[order[a] as int] == a
    &&& forall|x: int| 0 <= x < m.len() && m[x] == 2 ==> #[trigger] order[rank[x] as int] == x
}

/// A depth-first search entering `u` with marks `m` (0 new, 1 entered,
/// 2 finished) and finishing order `ord`: a node already entered is left
/// alone; a new one is entered, its dependencies searched in the order they
/// are listed, and then it is finished and appended. `fuel` bounds the depth;
/// as many as there are unmarked nodes is enough.
pub open spec fn dfs_visit(g: Seq<Seq<usize>>, fuel: nat, u: int, m: Seq<u8>, ord: Seq<usize>) -> (
    Seq<u8>,
    Seq<usize>,
)
    decreases fuel, 0nat, 0int,
{
    if fuel == 0 || m[u] != 0 {
        (m, ord)
    } else {
        let r = dfs_children(g, (fuel - 1) as nat, u, g[u].len() as int, m.update(u, 1), ord);
        (r.0.update(u, 2), r.1.push(u as usize))
    }
}

/// The search of the first `k` dependencies of `u`, one after another.
pub open spec fn dfs_children(g: Seq<Seq<usize>>, fuel: nat, u: int, k: int, m: Seq<u8>, ord: Seq<usize>) -> (
    Seq<u8>,
    Seq<usize>,
)
    decreases fuel, 1nat, k,
{
    if k <= 0 {
        (m, ord)
    } else {
        let r = dfs_children(g, fuel, u, k - 1, m, ord);
        dfs_visit(g, fuel, g[u][k - 1] as int, r.0, r.1)
    }
}

/// The search started from the first `j` nodes in turn, from no marks.
pub open spec fn dfs_from_each(g: Seq<Seq<usize>>, j: int) -> (Seq<u8>, Seq<usize>)
    decreases j,
{
    if j <= 0 {
        (Seq::new(g.len(), |i: int| 0u8), Seq::empty())
    } else {
        let r = dfs_from_each(g, j - 1);
        dfs_visit(g, g.len(), j - 1, r.0, r.1)
    }
}

/// The finishing order of a depth-first search started from each node in
/// turn, dependencies taken in the order they are listed.
pub open spec fn dfs_finish_order(g: Seq<Seq<usize>>) -> Seq<usize> {
    dfs_from_each(g, g.len() as int).1
}

/// Enter `u`: a node already entered is left alone; a new one is finished
/// after all of its dependencies, and appended to `order` when it finishes.
fn visit_for_order(
    g: &Vec<Vec<usize>>,
    u: usize,
    marks: &mut Vec<u8>,
    rank: &mut Vec<usize>,
    order: &mut Vec<usize>,
    Ghost(stack): Ghost<Seq<usize>>,
    Ghost(fuel): Ghost<nat>,
)
    requires
        well_formed(adjacency(g@)),
        (u as int) < g@.len(),
        fuel >= unmarked(old(marks)@),
        search_inv(
            adjacency(g@),
            old(marks)@,
            stack,
            old(rank)@,
            old(order)@.len(),
            !has_cycle(adjacency(g@)),
        ),
        order_matches(old(marks)@, old(rank)@, old(order)@, old(order)@.len()),
        stack.len() > 0 ==> edge(adjacency(g@), stack[stack.len() - 1] as int, u as int),
    ensures
        search_inv(
            adjacency(g@),
            final(marks)@,
            stack,
            final(rank)@,
            final(order)@.len(),
            !has_cycle(adjacency(g@)),
        ),
        order_matches(final(marks)@, final(rank)@, final(order)@, final(order)@.len()),
        final(marks)@[u as int] != 0,
        marks_grow(old(marks)@, final(marks)@, old(rank)@, final(rank)@),
        old(marks)@[u as int] == 1 && !has_cycle(adjacency(g@)) ==> false,
        old(marks)@[u as int] != 1 ==> final(marks)@[u as int] == 2,
        (final(marks)@, final(order)@) == dfs_visit(adjacency(g@), fuel, u as int, old(marks)@, old(order)@),
    decreases unmarked(old(marks)@),
{
    let ghost gg = adjacency(g@);
    let ghost closed = !has_cycle(gg);
    let glen = g.len();
    assert(gg.len() == glen);
    if marks[u] != 0 {
        proof {
            if marks@[u as int] == 1 && closed {
                assert(stack.contains(u));
                let k = choose|k: int| 0 <= k < stack.len() && stack[k] == u;
                lemma_back_edge_cycle(gg, stack, k, u as int);
            }
        }
        return;
    }
    let ghost m0 = marks@;
    let ghost r0 = rank@;
    let ghost o0 = order@;
    let ghost s1 = stack.push(u);
    proof {
        lemma_unmarked_update(marks@, u as int, 1);
        assert(!stack.contains(u));
    }
    proof {
        lemma_unmarked_update(m0, u as int, 1);
    }
    marks.set(u, 1);
    proof {
        let mm = marks@;
        assert(s1[s1.len() - 1] == u);
        assert(s1.len() == stack.len() + 1);
        assert forall|x: int| 0 <= x < mm.len() implies (#[trigger] mm[x] == 1 <==> s1.contains(
            x as usize,
        )) by {
            if x == u {
                assert(s1[s1.len() - 1] == u);
        assert(s1.len() == stack.len() + 1);
            } else {
                assert(mm[x] == m0[x]);
                if stack.contains(x as usize) {
                    let i = choose|i: int| 0 <= i < stack.len() && stack[i] == x as usize;
                    assert(s1[i] == x as usize);
                }
                if s1.contains(x as usize) {
                    let i = choose|i: int| 0 <= i < s1.len() && s1[i] == x as usize;
                    assert(i < stack.len());
                    assert(stack[i] == x as usize);
                }
            }
        }
        assert forall|i: int| 0 <= i < s1.len() - 1 implies #[trigger] edge(
            gg,
            s1[i] as int,
            s1[i + 1] as int,
        ) by {
            if i < s1.len() - 2 {
                assert(s1[i] == stack[i]);
                assert(s1[i + 1] == stack[i + 1]);
            }
        }
        assert forall|k: int| 0 <= k < s1.len() implies (#[trigger] s1[k] as int) < gg.len() by {
            if k < stack.len() {
                assert(s1[k] == stack[k]);
            }
        }
        assert forall|a: int| 0 <= a < order@.len() implies (#[trigger] order@[a] as int)
            < mm.len() && mm[order@[a] as int] == 2 && rank@[order@[a] as int] == a by {
            assert(m0[order@[a] as int] == 2);
        }
    }
    assert(marks@ == m0.update(u as int, 1));
    let n = g[u].len();
    let mut k: usize = 0;
    while k < n
        invariant
            well_formed(gg),
            gg == adjacency(g@),
            closed == !has_cycle(gg),
            gg.len() == glen,
            (u as int) < g@.len(),
            n == gg[u as int].len(),
            k <= n,
            search_inv(gg, marks@, s1, rank@, order@.len(), closed),
            order_matches(marks@, rank@, order@, order@.len()),
            s1 == stack.push(u),
            !stack.contains(u),
            marks@[u as int] == 1,
            unmarked(marks@) < unmarked(m0),
            m0 == old(marks)@,
            m0.len() == gg.len(),
            r0.len() == gg.len(),
            forall|x: int| 0 <= x < m0.len() && m0[x] == 1 ==> #[trigger] marks@[x] == 1,
            forall|x: int|
                0 <= x < m0.len() && m0[x] == 2 ==> #[trigger] marks@[x] == 2 && rank@[x]
                    == r0[x],
            forall|x: int|
                0 <= x < m0.len() && x != u && marks@[x] == 1 ==> #[trigger] m0[x] == 1,
            closed ==> forall|j: int| 0 <= j < k ==> marks@[#[trigger] gg[u as int][j] as int] == 2,
            fuel >= unmarked(m0),
            fuel >= 1,
            (marks@, order@) == dfs_children(gg, (fuel - 1) as nat, u as int, k as int, m0.update(u as int, 1), o0),
        decreases n - k,
    {
        let v = g[u][k];
        proof {
            assert(gg[u as int][k as int] == v);
            assert(gg[u as int].contains(v));
            assert(edge(gg, u as int, v as int));
        }
        let ghost mb = marks@;
        let ghost rb = rank@;
        visit_for_order(g, v, marks, rank, order, Ghost(s1), Ghost((fuel - 1) as nat));
        proof {
            assert(marks_grow(mb, marks@, rb, rank@));
            lemma_unmarked_mono(mb, marks@);
            assert forall|x: int| 0 <= x < m0.len() && m0[x] == 1 implies #[trigger] marks@[x]
                == 1 by {
                assert(mb[x] == 1);
            }
            assert forall|x: int| 0 <= x < m0.len() && m0[x] == 2 implies #[trigger] marks@[x]
                == 2 && rank@[x] == r0[x] by {
                assert(mb[x] == 2);
                assert(rb[x] == r0[x]);
            }
            assert forall|x: int| 0 <= x < m0.len() && x != u && marks@[x] == 1 implies #[trigger] m0[x]
                == 1 by {
                assert(mb[x] == 1);
            }
            if closed {
                assert forall|j: int| 0 <= j < k + 1 implies marks@[#[trigger] gg[u as int][j] as int]
                    == 2 by {
                    if j < k {
                        assert(mb[gg[u as int][j] as int] == 2);
                    }
                }
            }
        }
        k += 1;
    }
    proof {
        lemma_unmarked_update(marks@, u as int, 2);
    }
    let ghost before = marks@;
    let ghost rbefore = rank@;
    let ghost obefore = order@;
    let t = order.len();
    marks.set(u, 2);
    rank.set(u, t);
    order.push(u);
    proof {
        let mm = marks@;
        assert forall|x: int| 0 <= x < mm.len() implies (#[trigger] mm[x] == 1 <==> stack.contains(
            x as usize,
        )) by {
            if x == u {
            } else {
                assert(mm[x] == before[x]);
                if stack.contains(x as usize) {
                    let i = choose|i: int| 0 <= i < stack.len() && stack[i] == x as usize;
                    assert(s1[i] == x as usize);
                }
                if before[x] == 1 {
                    assert(s1.contains(x as usize));
                    let i = choose|i: int| 0 <= i < s1.len() && s1[i] == x as usize;
                    assert(i < stack.len());
                    assert(stack[i] == x as usize);
                }
            }
        }
        if closed {
            assert forall|a: int, b: int|
                0 <= a < mm.len() && mm[a] == 2 && #[trigger] edge(gg, a, b) implies mm[b] == 2
                && rank@[b] < rank@[a] by {
                if a == u {
                    let j = choose|j: int|
                        0 <= j < gg[u as int].len() && gg[u as int][j] == b as usize;
                    assert(before[gg[u as int][j] as int] == 2);
                    assert(b != u);
                    assert(rank@[b] == rbefore[b]);
                } else {
                    assert(before[a] == 2);
                    assert(before[b] == 2);
                    assert(b != u);
                    assert(rank@[a] == rbefore[a]);
                    assert(rank@[b] == rbefore[b]);
                }
            }
        }
        assert forall|i: int| 0 <= i < stack.len() - 1 implies #[trigger] edge(
            gg,
            stack[i] as int,
            stack[i + 1] as int,
        ) by {
            assert(s1[i] == stack[i]);
            assert(s1[i + 1] == stack[i + 1]);
        }
        assert forall|kk: int| 0 <= kk < stack.len() implies (#[trigger] stack[kk] as int)
            < gg.len() by {
            assert(s1[kk] == stack[kk]);
        }
        assert forall|x: int| 0 <= x < mm.len() && mm[x] == 2 implies (rank@[x] as int) < order@.len() by {
            if x != u {
                assert(before[x] == 2);
            }
        }
        assert forall|a: int| 0 <= a < order@.len() implies (#[trigger] order@[a] as int)
            < mm.len() && mm[order@[a] as int] == 2 && rank@[order@[a] as int] == a by {
            if a < obefore.len() {
                assert(order@[a] == obefore[a]);
                assert(before[obefore[a] as int] == 2);
            }
        }
        assert forall|x: int| 0 <= x < mm.len() && mm[x] == 2 implies #[trigger] order@[rank@[x] as int]
            == x by {
            if x != u {
                assert(before[x] == 2);
                assert(obefore[rbefore[x] as int] == x);
            }
        }
        assert forall|x: int| 0 <= x < m0.len() && m0[x] == 2 implies #[trigger] marks@[x] == 2
            && rank@[x] == r0[x] by {
            assert(before[x] == 2);
        }
    }
}

/// Every node, each once, in an order that puts a node's dependencies before
/// it whenever the graph has no cycle: the finishing order of a depth-first
/// search started from each node in turn.
pub fn dependency_order(g: &Vec<Vec<usize>>) -> (order: Vec<usize>)
    requires
        well_formed(adjacency(g@)),
    ensures
        order@ == dfs_finish_order(adjacency(g@)),
        order@.len() == g@.len(),
        forall|a: int| 0 <= a < order@.len() ==> (#[trigger] order@[a] as int) < g@.len(),
        forall|x: usize| (x as int) < g@.len() ==> #[trigger] order@.contains(x),
        forall|a: int, b: int| 0 <= a < b < order@.len() ==> order@[a] != order@[b],
        !has_cycle(adjacency(g@)) ==> forall|a: int, b: int|
            0 <= a < order@.len() && 0 <= b < order@.len() && #[trigger] edge(
                adjacency(g@),
                order@[a] as int,
                order@[b] as int,
            ) ==> b < a,
{
    let ghost gg = adjacency(g@);
    let ghost closed = !has_cycle(gg);
    let n = g.len();
    let mut marks: Vec<u8> = Vec::new();
    let mut rank: Vec<usize> = Vec::new();
    let mut i: usize = 0;
    while i < n
        invariant
            n == g@.len(),
            i <= n,
            marks@.len() == i,
            rank@.len() == i,
            forall|x: int| 0 <= x < i ==> #[trigger] marks@[x] == 0,
            unmarked(marks@) == i,
        decreases n - i,
    {
        let ghost prev = marks@;
        marks.push(0);
        rank.push(0);
        assert(marks@.drop_last() =~= prev);
        i += 1;
    }
    let mut order: Vec<usize> = Vec::new();
    let mut j: usize = 0;
    assert(marks@ =~= Seq::new(gg.len(), |i: int| 0u8));
    while j < n
        invariant
            well_formed(gg),
            gg == adjacency(g@),
            closed == !has_cycle(gg),
            n == g@.len(),
            j <= n,
            search_inv(gg, marks@, Seq::<usize>::empty(), rank@, order@.len(), closed),
            order_matches(marks@, rank@, order@, order@.len()),
            forall|x: int| 0 <= x < j ==> #[trigger] marks@[x] == 2,
            (marks@, order@) == dfs_from_each(gg, j as int),
            marks@.len() == n,
        decreases n - j,
    {
        let ghost mb = marks@;
        let ghost rb = rank@;
        proof {
            lemma_unmarked_bound(marks@);
        }
        visit_for_order(g, j, &mut marks, &mut rank, &mut order, Ghost(Seq::<usize>::empty()), Ghost(n as nat));
        proof {
            assert forall|x: int| 0 <= x < j + 1 implies #[trigger] marks@[x] == 2 by {
                if x < j {
                    assert(mb[x] == 2);
                } else {
                    assert(!Seq::<usize>::empty().contains(j));
                }
            }
        }
        j += 1;
    }
    proof {
        let mm = marks@;
        assert forall|x: usize| (x as int) < n implies #[trigger] order@.contains(x) by {
            assert(mm[x as int] == 2);
            assert(order@[rank@[x as int] as int] == x);
        }
        assert forall|a: int, b: int| 0 <= a < b < order@.len() implies order@[a] != order@[b] by {
            assert(rank@[order@[a] as int] == a);
            assert(rank@[order@[b] as int] == b);
        }
        if closed {
            assert forall|a: int, b: int|
                0 <= a < order@.len() && 0 <= b < order@.len() && #[trigger] edge(
                    gg,
                    order@[a] as int,
                    order@[b] as int,
                ) implies b < a by {
                assert(mm[order@[a] as int] == 2);
                assert(rank@[order@[a] as int] == a);
                assert(rank@[order@[b] as int] == b);
            }
        }
        assert(order@.len() == n) by {
            assert(unmarked(mm) == 0) by {
                lemma_unmarked_zero(mm);
            }
        }
    }
    order
}

proof fn lemma_unmarked_zero(m: Seq<u8>)
    requires
        forall|x: int| 0 <= x < m.len() ==> #[trigger] m[x] != 0,
    ensures
        unmarked(m) == 0,
    decreases m.len(),
{
    if m.len() > 0 {
        assert forall|x: int| 0 <= x < m.drop_last().len() implies #[trigger] m.drop_last()[x] != 0 by {
            assert(m.drop_last()[x] == m[x]);
        }
        lemma_unmarked_zero(m.drop_last());
    }
}


// ---------------------------------------------------------------------------
// Reachability
// ---------------------------------------------------------------------------

pub open spec fn count_false(k: Seq<bool>) -> nat
    decreases k.len(),
{
    if k.len() == 0 {
        0
    } else {
        count_false(k.drop_last()) + if k.last() {
            0nat
        } else {
            1nat
        }
    }
}

proof fn lemma_count_false_set(k: Seq<bool>, i: int)
    requires
        0 <= i < k.len(),
        !k[i],
    ensures
        count_false(k.update(i, true)) + 1 == count_false(k),
    decreases k.len(),
{
    let u = k.update(i, true);
    if i == k.len() - 1 {
        assert(u.drop_last() =~= k.drop_last());
    } else {
        assert(u.drop_last() =~= k.drop_last().update(i, true));
        lemma_count_false_set(k.drop_last(), i);
    }
}

/// A set that holds the roots and is closed under dependency edges holds
/// everything reachable from the roots.
proof fn lemma_closed_holds_reachable(g: Seq<Seq<usize>>, roots: Seq<usize>, keep: Seq<bool>, p: Seq<int>, j: int)
    requires
        keep.len() == g.len(),
        g.len() <= usize::MAX,
        forall|r: int| 0 <= r < roots.len() ==> keep[#[trigger] roots[r] as int],
        forall|u: int, v: int| 0 <= u < keep.len() && keep[u] && #[trigger] edge(g, u, v) ==> keep[v],
        is_path(g, p),
        roots.contains(p[0] as usize),
        0 <= j < p.len(),
    ensures
        keep[p[j]],
    decreases j,
{
    if j == 0 {
        let r = choose|r: int| 0 <= r < roots.len() && roots[r] == p[0] as usize;
        assert(keep[roots[r] as int]);
    } else {
        lemma_closed_holds_reachable(g, roots, keep, p, j - 1);
        assert(edge(g, p[j - 1], p[(j - 1) + 1]));
    }
}

/// Every node reachable from `roots`, as a membership vector: the roots and
/// everything they transitively depend on.
pub fn reachable_set(g: &Vec<Vec<usize>>, roots: &Vec<usize>) -> (keep: Vec<bool>)
    requires
        well_formed(adjacency(g@)),
        forall|k: int| 0 <= k < roots@.len() ==> (#[trigger] roots@[k] as int) < g@.len(),
    ensures
        keep@.len() == g@.len(),
        forall|x: int| 0 <= x < g@.len() ==> (#[trigger] keep@[x] <==> reachable(adjacency(g@), roots@, x)),
{
    let ghost gg = adjacency(g@);
    let n = g.len();
    let mut keep: Vec<bool> = Vec::new();
    let mut i: usize = 0;
    while i < n
        invariant
            n == g@.len(),
            i <= n,
            keep@.len() == i,
            forall|x: int| 0 <= x < i ==> !#[trigger] keep@[x],
        decreases n - i,
    {
        keep.push(false);
        i += 1;
    }
    let mut stack: Vec<usize> = Vec::new();
    let mut r: usize = 0;
    while r < roots.len()
        invariant
            n == g@.len(),
            gg == adjacency(g@),
            keep@.len() == n,
            forall|x: int| 0 <= x < n ==> !#[trigger] keep@[x],
            forall|k: int| 0 <= k < roots@.len() ==> (#[trigger] roots@[k] as int) < g@.len(),
            r <= roots@.len(),
            stack@ == roots@.take(r as int),
        decreases roots@.len() - r,
    {
        stack.push(roots[r]);
        assert(roots@.take(r + 1) =~= roots@.take(r as int).push(roots@[r as int]));
        r += 1;
    }
    assert(stack@ =~= roots@);
    proof {
        assert forall|k: int| 0 <= k < stack@.len() implies reachable(gg, roots@, #[trigger] stack@[k] as int) by {
            let p = seq![stack@[k] as int];
            assert(is_path(gg, p));
            assert(roots@[k] == stack@[k]);
            assert(p[p.len() - 1] == stack@[k] as int);
        }
    }
    while stack.len() > 0
        invariant
            n == g@.len(),
            gg == adjacency(g@),
            well_formed(gg),
            keep@.len() == n,
            forall|k: int| 0 <= k < roots@.len() ==> (#[trigger] roots@[k] as int) < g@.len(),
            forall|k: int| 0 <= k < stack@.len() ==> (#[trigger] stack@[k] as int) < n,
            forall|x: int| 0 <= x < n && #[trigger] keep@[x] ==> reachable(gg, roots@, x),
            forall|k: int| 0 <= k < stack@.len() ==> reachable(gg, roots@, #[trigger] stack@[k] as int),
            forall|q: int| 0 <= q < roots@.len() ==> keep@[#[trigger] roots@[q] as int] || stack@.contains(roots@[q]),
            forall|u: int, v: int|
                0 <= u < n && keep@[u] && #[trigger] edge(gg, u, v) ==> keep@[v] || stack@.contains(v as usize),
        decreases count_false(keep@), stack@.len(),
    {
        let ghost s0 = stack@;
        let ghost k0 = keep@;
        let top = stack.pop().unwrap();
        assert(s0 == stack@.push(top));
        assert(s0[s0.len() - 1] == top);
        if keep[top] {
            proof {
                assert forall|q: int| 0 <= q < roots@.len() implies keep@[#[trigger] roots@[q] as int] || stack@.contains(roots@[q]) by {
                    if !keep@[roots@[q] as int] {
                        let j = choose|j: int| 0 <= j < s0.len() && s0[j] == roots@[q];
                        if j < stack@.len() {
                            assert(stack@[j] == roots@[q]);
                        }
                    }
                }
                assert forall|u: int, v: int|
                    0 <= u < n && keep@[u] && #[trigger] edge(gg, u, v) implies keep@[v] || stack@.contains(v as usize) by {
                    if !keep@[v] {
                        let j = choose|j: int| 0 <= j < s0.len() && s0[j] == v as usize;
                        if j < stack@.len() {
                            assert(stack@[j] == v as usize);
                        }
                    }
                }
                assert forall|k: int| 0 <= k < stack@.len() implies reachable(gg, roots@, #[trigger] stack@[k] as int) by {
                    assert(s0[k] == stack@[k]);
                }
            }
            continue;
        }
        proof {
            lemma_count_false_set(keep@, top as int);
        }
        keep.set(top, true);
        let ghost s1 = stack@;
        let deg = g[top].len();
        let mut k: usize = 0;
        proof {
            assert(reachable(gg, roots@, top as int)) by {
                assert(reachable(gg, roots@, s0[s0.len() - 1] as int));
            }
        }
        while k < deg
            invariant
                n == g@.len(),
                gg == adjacency(g@),
                well_formed(gg),
                (top as int) < n,
                deg == gg[top as int].len(),
                k <= deg,
                keep@.len() == n,
                keep@[top as int],
                reachable(gg, roots@, top as int),
                stack@.len() >= s1.len(),
                forall|j: int| 0 <= j < s1.len() ==> stack@[j] == #[trigger] s1[j],
                forall|j: int| 0 <= j < k ==> stack@.contains(#[trigger] gg[top as int][j]),
                forall|j: int| 0 <= j < stack@.len() ==> (#[trigger] stack@[j] as int) < n,
                forall|j: int| 0 <= j < stack@.len() ==> reachable(gg, roots@, #[trigger] stack@[j] as int),
            decreases deg - k,
        {
            let v = g[top][k];
            let ghost sb = stack@;
            stack.push(v);
            proof {
                assert(gg[top as int][k as int] == v);
                assert((v as int) < n);
                assert(edge(gg, top as int, v as int)) by {
                    assert(gg[top as int].contains(v));
                }
                assert(stack@[stack@.len() - 1] == v);
                let pt = choose|p: Seq<int>| is_path(gg, p) && roots@.contains(p[0] as usize) && #[trigger] p[p.len() - 1] == top as int;
                let pv = pt.push(v as int);
                assert forall|i: int| 0 <= i < pv.len() - 1 implies #[trigger] edge(gg, pv[i], pv[i + 1]) by {
                    if i < pv.len() - 2 {
                        assert(pv[i] == pt[i]);
                        assert(pv[i + 1] == pt[i + 1]);
                    }
                }
                assert(is_path(gg, pv));
                assert(pv[pv.len() - 1] == v as int);
                assert forall|j: int| 0 <= j < stack@.len() implies reachable(gg, roots@, #[trigger] stack@[j] as int) by {
                    if j < sb.len() {
                        assert(stack@[j] == sb[j]);
                    }
                }
                assert forall|j: int| 0 <= j < k + 1 implies stack@.contains(#[trigger] gg[top as int][j]) by {
                    if j < k {
                        let w = choose|w: int| 0 <= w < sb.len() && sb[w] == gg[top as int][j];
                        assert(stack@[w] == sb[w]);
                    } else {
                        assert(stack@[stack@.len() - 1] == gg[top as int][j]);
                    }
                }
            }
            k += 1;
        }
        proof {
            let kk = keep@;
            assert forall|x: int| 0 <= x < n && #[trigger] kk[x] implies reachable(gg, roots@, x) by {
                if x != top {
                    assert(k0[x]);
                }
            }
            assert forall|q: int| 0 <= q < roots@.len() implies kk[#[trigger] roots@[q] as int] || stack@.contains(roots@[q]) by {
                if !kk[roots@[q] as int] {
                    assert(!k0[roots@[q] as int]);
                    let j = choose|j: int| 0 <= j < s0.len() && s0[j] == roots@[q];
                    assert(j < s1.len());
                    assert(stack@[j] == roots@[q]);
                }
            }
            assert forall|u: int, v: int|
                0 <= u < n && kk[u] && #[trigger] edge(gg, u, v) implies kk[v] || stack@.contains(v as usize) by {
                if u == top {
                    let j = choose|j: int| 0 <= j < gg[top as int].len() && gg[top as int][j] == v as usize;
                    assert(stack@.contains(gg[top as int][j]));
                } else if !kk[v] {
                    assert(k0[u]);
                    assert(!k0[v]);
                    let j = choose|j: int| 0 <= j < s0.len() && s0[j] == v as usize;
                    assert(j < s1.len());
                    assert(stack@[j] == v as usize);
                }
            }
        }
    }
    proof {
        assert forall|x: int| 0 <= x < n implies (#[trigger] keep@[x] <==> reachable(gg, roots@, x)) by {
            if reachable(gg, roots@, x) {
                let p = choose|p: Seq<int>| is_path(gg, p) && roots@.contains(p[0] as usize) && #[trigger] p[p.len() - 1] == x;
                lemma_closed_holds_reachable(gg, roots@, keep@, p, p.len() - 1);
            }
        }
    }
    keep
}

} // verus!
