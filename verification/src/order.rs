//! The order `str` sorts in (character by character, by code point, a
//! proper prefix first), and a stable sort of texts by it.
use vstd::prelude::*;
use crate::text::chars_of;

verus! {

/// `a` sorts strictly before `b`.
pub open spec fn lex_lt(a: Seq<char>, b: Seq<char>) -> bool
    decreases a.len(),
{
    if a.len() == 0 {
        b.len() > 0
    } else if b.len() == 0 {
        false
    } else if a[0] != b[0] {
        a[0] < b[0]
    } else {
        lex_lt(a.drop_first(), b.drop_first())
    }
}

pub proof fn lemma_lex_irreflexive(a: Seq<char>)
    ensures
        !lex_lt(a, a),
    decreases a.len(),
{
    if a.len() > 0 {
        lemma_lex_irreflexive(a.drop_first());
    }
}

pub proof fn lemma_lex_asymmetric(a: Seq<char>, b: Seq<char>)
    ensures
        lex_lt(a, b) ==> !lex_lt(b, a),
    decreases a.len(),
{
    if a.len() > 0 && b.len() > 0 && a[0] == b[0] {
        lemma_lex_asymmetric(a.drop_first(), b.drop_first());
    }
}

pub proof fn lemma_lex_total(a: Seq<char>, b: Seq<char>)
    ensures
        a != b ==> lex_lt(a, b) || lex_lt(b, a),
    decreases a.len(),
{
    if a.len() > 0 && b.len() > 0 && a[0] == b[0] {
        lemma_lex_total(a.drop_first(), b.drop_first());
        if a.drop_first() == b.drop_first() {
            assert(a =~= seq![a[0]] + a.drop_first());
            assert(b =~= seq![b[0]] + b.drop_first());
        }
    } else if a.len() == 0 && b.len() == 0 {
        assert(a =~= b);
    } else if a.len() > 0 && b.len() > 0 {
    }
}

/// Whether `a` sorts strictly before `b`.
pub fn lex_less(a: &str, b: &str) -> (r: bool)
    ensures
        r == lex_lt(a@, b@),
{
    let va = chars_of(a);
    let vb = chars_of(b);
    let mut i: usize = 0;
    assert(a@.skip(0) =~= a@);
    assert(b@.skip(0) =~= b@);
    while i < va.len() && i < vb.len() && va[i] == vb[i]
        invariant
            va@ == a@,
            vb@ == b@,
            i <= va@.len(),
            i <= vb@.len(),
            lex_lt(a@, b@) == lex_lt(a@.skip(i as int), b@.skip(i as int)),
        decreases va@.len() - i,
    {
        assert(a@.skip(i as int).drop_first() =~= a@.skip(i + 1));
        assert(b@.skip(i as int).drop_first() =~= b@.skip(i + 1));
        i += 1;
    }
    if i == va.len() {
        i < vb.len()
    } else if i == vb.len() {
        false
    } else {
        va[i] < vb[i]
    }
}

/// The keys' order is non-decreasing along `order`, keeping input order
/// among equal keys.
pub open spec fn sorted_by(keys: Seq<Seq<char>>, order: Seq<usize>) -> bool {
    forall|q: int|
        0 <= q < order.len() - 1 ==> !lex_lt(keys[order[q + 1] as int], keys[#[trigger] order[q] as int]) && (keys[order[q
            + 1] as int] == keys[order[q] as int] ==> order[q] < order[q + 1])
}

/// `j` stands somewhere in `order`.
pub open spec fn occurs(order: Seq<usize>, j: int) -> bool {
    exists|q: int| 0 <= q < order.len() && order[q] == j
}

/// Each of `0..n` exactly once.
pub open spec fn permutation_of(order: Seq<usize>, n: int) -> bool {
    &&& order.len() == n
    &&& forall|q: int| 0 <= q < order.len() ==> (#[trigger] order[q]) < n
    &&& forall|a: int, b: int| 0 <= a < b < order.len() ==> order[a] != order[b]
    &&& forall|j: int| 0 <= j < n ==> #[trigger] occurs(order, j)
}

/// The indices of `keys`, stably sorted by key.
proof fn lemma_insert_keeps_permutation(before: Seq<usize>, p: int, k: usize)
    requires
        permutation_of(before, k as int),
        0 <= p <= before.len(),
    ensures
        permutation_of(before.insert(p, k), k + 1),
{
    let out = before.insert(p, k);
    assert forall|q: int| 0 <= q < out.len() implies (#[trigger] out[q]) < k + 1 by {
        if q < p {
            assert(out[q] == before[q]);
        } else if q > p {
            assert(out[q] == before[q - 1]);
        }
    }
    assert forall|a: int, b: int| 0 <= a < b < out.len() implies out[a] != out[b] by {
        let va = if a < p { before[a] } else if a == p { k } else { before[a - 1] };
        let vb = if b < p { before[b] } else if b == p { k } else { before[b - 1] };
        assert(out[a] == va);
        assert(out[b] == vb);
    }
    assert forall|j: int| 0 <= j < k + 1 implies #[trigger] occurs(out, j) by {
        if j == k {
            assert(out[p] == k);
        } else {
            assert(occurs(before, j));
            let q0 = choose|q: int| 0 <= q < before.len() && before[q] == j;
            if q0 < p {
                assert(out[q0] == j);
            } else {
                assert(out[q0 + 1] == j);
            }
        }
    }
}

proof fn lemma_insert_keeps_sorted(ks: Seq<Seq<char>>, before: Seq<usize>, p: int, k: usize)
    requires
        0 <= k < ks.len(),
        0 <= p <= before.len(),
        forall|q: int| 0 <= q < before.len() ==> (#[trigger] before[q]) < k,
        forall|q: int| 0 <= q < before.len() ==> (#[trigger] before[q]) < ks.len(),
        sorted_by(ks, before),
        forall|q: int| 0 <= q < p ==> !lex_lt(ks[k as int], ks[#[trigger] before[q] as int]),
        p < before.len() ==> lex_lt(ks[k as int], ks[before[p] as int]),
    ensures
        sorted_by(ks, before.insert(p, k)),
{
    let out = before.insert(p, k);
    assert forall|q: int| 0 <= q < out.len() - 1 implies !lex_lt(ks[out[q + 1] as int], ks[#[trigger] out[q] as int])
        && (ks[out[q + 1] as int] == ks[out[q] as int] ==> out[q] < out[q + 1]) by {
        if q + 1 < p {
            assert(out[q] == before[q] && out[q + 1] == before[q + 1]);
        } else if q + 1 == p {
            assert(out[q] == before[q] && out[q + 1] == k);
        } else if q == p {
            assert(out[q] == k && out[q + 1] == before[q]);
            lemma_lex_asymmetric(ks[k as int], ks[before[q] as int]);
            lemma_lex_irreflexive(ks[k as int]);
        } else {
            assert(out[q] == before[q - 1] && out[q + 1] == before[q]);
        }
    }
}

/// The indices of `keys`, stably sorted by key.
pub fn stable_order(keys: &Vec<String>) -> (r: Vec<usize>)
    ensures
        permutation_of(r@, keys@.len() as int),
        sorted_by(Seq::new(keys@.len(), |i: int| keys@[i]@), r@),
{
    let ghost ks = Seq::new(keys@.len(), |i: int| keys@[i]@);
    let mut out: Vec<usize> = Vec::new();
    let mut k: usize = 0;
    while k < keys.len()
        invariant
            ks == Seq::new(keys@.len(), |i: int| keys@[i]@),
            k <= keys@.len(),
            permutation_of(out@, k as int),
            sorted_by(ks, out@),
        decreases keys@.len() - k,
    {
        let mut p: usize = 0;
        while p < out.len() && !lex_less(keys[k].as_str(), keys[out[p]].as_str())
            invariant
                ks == Seq::new(keys@.len(), |i: int| keys@[i]@),
                k < keys@.len(),
                p <= out@.len(),
                permutation_of(out@, k as int),
                forall|q: int| 0 <= q < p ==> !lex_lt(ks[k as int], ks[#[trigger] out@[q] as int]),
            decreases out@.len() - p,
        {
            p += 1;
        }
        let ghost before = out@;
        proof {
            lemma_insert_keeps_permutation(before, p as int, k);
            lemma_insert_keeps_sorted(ks, before, p as int, k);
        }
        out.insert(p, k);
        k += 1;
    }
    out
}


/// Equal neighbours of `ks` merged into `(text, how many)`.
pub open spec fn runs(ks: Seq<Seq<char>>) -> Seq<(Seq<char>, nat)>
    decreases ks.len(),
{
    if ks.len() == 0 {
        Seq::empty()
    } else {
        let r = runs(ks.drop_last());
        if r.len() > 0 && r.last().0 == ks.last() {
            r.update(r.len() - 1, (ks.last(), r.last().1 + 1))
        } else {
            r.push((ks.last(), 1nat))
        }
    }
}

/// `state=count`.
pub open spec fn count_item(run: (Seq<char>, nat)) -> Seq<char> {
    run.0 + "="@ + crate::text::decimal(run.1)
}

/// The keys in the order `order` lists them.
pub open spec fn arranged(ks: Seq<Seq<char>>, order: Seq<usize>) -> Seq<Seq<char>> {
    Seq::new(order.len(), |q: int| ks[order[q] as int])
}

/// `sorted_by`, kept folded so that its quantifier is unfolded only where a
/// step asks for it.
#[verifier::opaque]
spec fn sorted_folded(keys: Seq<Seq<char>>, order: Seq<usize>) -> bool {
    sorted_by(keys, order)
}

proof fn lemma_sorted_step(keys: Seq<Seq<char>>, order: Seq<usize>, q: int)
    requires
        sorted_folded(keys, order),
        0 < q < order.len(),
    ensures
        !lex_lt(keys[order[q] as int], keys[order[q - 1] as int]),
{
    reveal(sorted_folded);
    assert(!lex_lt(keys[order[(q - 1) + 1] as int], keys[order[q - 1] as int]));
}

/// The views of a list of strings.
pub open spec fn texts(v: Seq<String>) -> Seq<Seq<char>> {
    Seq::new(v.len(), |i: int| v[i]@)
}

/// The text at `k` sorts strictly before the next one.
pub open spec fn ascends_at(s: Seq<Seq<char>>, k: int) -> bool {
    lex_lt(s[k], s[k + 1])
}

/// Each text sorts strictly before the next.
pub open spec fn strictly_ascending(s: Seq<Seq<char>>) -> bool {
    forall|k: int| 0 <= k < s.len() - 1 ==> #[trigger] ascends_at(s, k)
}

/// The texts of `ids`, each once, in the order texts sort.
pub fn sorted_distinct(ids: &Vec<String>) -> (out: Vec<String>)
    ensures
        strictly_ascending(texts(out@)),
        forall|k: int| 0 <= k < out@.len() ==> texts(ids@).contains(#[trigger] texts(out@)[k]),
        forall|x: int| 0 <= x < ids@.len() ==> texts(out@).contains(#[trigger] texts(ids@)[x]),
{
    let ghost ks = texts(ids@);
    let order = stable_order(ids);
    proof {
        reveal(sorted_folded);
        assert(Seq::new(ids@.len(), |x: int| ids@[x]@) == ks);
    }
    assert(sorted_folded(ks, order@));
    let mut out: Vec<String> = Vec::new();
    let mut q: usize = 0;
    while q < order.len()
        invariant
            ks == texts(ids@),
            permutation_of(order@, ids@.len() as int),
            sorted_folded(ks, order@),
            q <= order@.len(),
            q > 0 ==> out@.len() > 0 && texts(out@).last() == ks[order@[q - 1] as int],
            q == 0 ==> out@.len() == 0,
            strictly_ascending(texts(out@)),
            forall|k: int| 0 <= k < out@.len() ==> ks.contains(#[trigger] texts(out@)[k]),
            forall|p: int| 0 <= p < q ==> texts(out@).contains(ks[#[trigger] order@[p] as int]),
        decreases order@.len() - q,
    {
        let j = order[q];
        let n = out.len();
        let ghost before = texts(out@);
        proof {
            assert(order@[q as int] == j);
            assert(ks[j as int] == ids@[j as int]@);
        }
        if n > 0 && crate::text::str_eq(out[n - 1].as_str(), ids[j].as_str()) {
            proof {
                assert(before[n - 1] == ks[order@[q as int] as int]);
            }
        } else {
            proof {
                if n > 0 {
                    lemma_sorted_step(ks, order@, q as int);
                    lemma_lex_total(before[n - 1], ks[j as int]);
                }
            }
            out.push(String::from_str(ids[j].as_str()));
            proof {
                let after = texts(out@);
                assert(after =~= before.push(ks[j as int]));
                assert forall|k: int| 0 <= k < after.len() - 1 implies #[trigger] ascends_at(after, k) by {
                    if k < n - 1 {
                        assert(ascends_at(before, k));
                    }
                }
                assert forall|p: int| 0 <= p < q + 1 implies after.contains(ks[#[trigger] order@[p] as int]) by {
                    if p < q {
                        assert(before.contains(ks[order@[p] as int]));
                        let k = choose|k: int| 0 <= k < before.len() && before[k] == ks[order@[p] as int];
                        assert(after[k] == before[k]);
                    } else {
                        assert(after[n as int] == ks[order@[p] as int]);
                    }
                }
                assert forall|k: int| 0 <= k < out@.len() implies ks.contains(#[trigger] texts(out@)[k]) by {
                    if k < n {
                        assert(after[k] == before[k]);
                    } else {
                        assert(ks[j as int] == after[k]);
                    }
                }
            }
        }
        q += 1;
    }
    proof {
        assert forall|x: int| 0 <= x < ids@.len() implies texts(out@).contains(#[trigger] texts(ids@)[x]) by {
            assert(occurs(order@, x));
            let p = choose|p: int| 0 <= p < order@.len() && order@[p] == x;
            assert(texts(out@).contains(ks[order@[p] as int]));
        }
    }
    out
}

/// How many tickets stand in each state, `state=count` in the order states
/// sort, joined by `, `.
pub fn format_state_counts(states: &Vec<String>) -> (r: String)
    ensures
        exists|order: Seq<usize>|
            permutation_of(order, states@.len() as int) && sorted_by(Seq::new(states@.len(), |i: int| states@[i]@), order)
                && r@ == crate::text::join(
                Seq::new(
                    runs(arranged(Seq::new(states@.len(), |i: int| states@[i]@), order)).len(),
                    |q: int| count_item(runs(arranged(Seq::new(states@.len(), |i: int| states@[i]@), order))[q]),
                ),
                ", "@,
            ),
{
    let ghost ks = Seq::new(states@.len(), |i: int| states@[i]@);
    let order = stable_order(states);
    let ghost ak = arranged(ks, order@);
    let mut names: Vec<String> = Vec::new();
    let mut counts: Vec<usize> = Vec::new();
    let mut q: usize = 0;
    assert(ak.take(0) =~= Seq::<Seq<char>>::empty());
    while q < order.len()
        invariant
            ks == Seq::new(states@.len(), |i: int| states@[i]@),
            permutation_of(order@, states@.len() as int),
            ak == arranged(ks, order@),
            q <= order@.len(),
            names@.len() == counts@.len(),
            names@.len() == runs(ak.take(q as int)).len(),
            forall|x: int| 0 <= x < names@.len() ==> (#[trigger] names@[x])@ == runs(ak.take(q as int))[x].0
                && counts@[x] as nat == runs(ak.take(q as int))[x].1 && counts@[x] <= q,
        decreases order@.len() - q,
    {
        let s = &states[order[q]];
        assert(ak.take(q + 1).drop_last() =~= ak.take(q as int));
        assert(ak.take(q + 1).last() == s@);
        let n = names.len();
        let ghost prev = runs(ak.take(q as int));
        let ghost old_names = names@;
        let ghost old_counts = counts@;
        if n > 0 && crate::text::str_eq(names[n - 1].as_str(), s.as_str()) {
            let c = counts[n - 1];
            counts.set(n - 1, c + 1);
            proof {
                assert(prev.last().0 == s@);
                let cur = runs(ak.take(q + 1));
                assert(cur == prev.update(prev.len() - 1, (s@, prev.last().1 + 1)));
                assert forall|x: int| 0 <= x < names@.len() implies (#[trigger] names@[x])@ == cur[x].0
                    && counts@[x] as nat == cur[x].1 && counts@[x] <= q + 1 by {
                    if x < n - 1 {
                        assert(counts@[x] == old_counts[x]);
                    }
                }
            }
        } else {
            names.push(String::from_str(s.as_str()));
            counts.push(1);
            proof {
                let cur = runs(ak.take(q + 1));
                assert(!(prev.len() > 0 && prev.last().0 == s@));
                assert(cur == prev.push((s@, 1nat)));
                assert forall|x: int| 0 <= x < names@.len() implies (#[trigger] names@[x])@ == cur[x].0
                    && counts@[x] as nat == cur[x].1 && counts@[x] <= q + 1 by {
                    if x < n {
                        assert(names@[x] == old_names[x]);
                        assert(counts@[x] == old_counts[x]);
                    }
                }
            }
        }
        q += 1;
    }
    assert(ak.take(order@.len() as int) =~= ak);
    let mut items: Vec<String> = Vec::new();
    let mut x: usize = 0;
    while x < names.len()
        invariant
            names@.len() == counts@.len(),
            names@.len() == runs(ak).len(),
            forall|y: int| 0 <= y < names@.len() ==> (#[trigger] names@[y])@ == runs(ak)[y].0 && counts@[y] as nat
                == runs(ak)[y].1,
            x <= names@.len(),
            items@.len() == x,
            forall|y: int| 0 <= y < x ==> (#[trigger] items@[y])@ == count_item(runs(ak)[y]),
        decreases names@.len() - x,
    {
        let mut item = String::from_str(names[x].as_str());
        crate::text::push_str(&mut item, "=");
        let d = crate::text::u64_to_string(counts[x] as u64);
        crate::text::push_str(&mut item, d.as_str());
        items.push(item);
        x += 1;
    }
    let r = crate::text::join_strings(&items, ", ");
    proof {
        assert(items@.map_values(|p: String| p@) =~= Seq::new(runs(ak).len(), |q: int| count_item(runs(ak)[q])));
    }
    r
}

} // verus!
