//! After a successful run: if `HEAD` moved while the run wrote its plan and
//! results, and those tracked paths are still uncommitted, the worktree
//! reflects transitions `HEAD` does not. Reading git's answers and saying
//! so.
use vstd::prelude::*;
use crate::text::{chars_of, join_strings, lines, push_str, slice_vec, str_eq, str_lines, string_of, trim, trimmed};

verus! {

/// The number of bytes `c` takes in UTF-8.
pub open spec fn utf8_len(c: char) -> nat {
    if (c as u32) < 0x80 {
        1
    } else if (c as u32) < 0x800 {
        2
    } else if (c as u32) < 0x10000 {
        3
    } else {
        4
    }
}

/// The number of bytes `s` takes in UTF-8.
pub open spec fn byte_len(s: Seq<char>) -> nat
    decreases s.len(),
{
    if s.len() == 0 {
        0
    } else {
        byte_len(s.drop_last()) + utf8_len(s.last())
    }
}

/// The characters that make up exactly the first `n` bytes of `s`, if `n`
/// falls on a character boundary (`str::get(..n)`).
pub open spec fn prefix_bytes(s: Seq<char>, n: nat) -> Option<int> {
    if exists|k: int| 0 <= k <= s.len() && byte_len(#[trigger] s.take(k)) == n {
        Some(choose|k: int| 0 <= k <= s.len() && byte_len(#[trigger] s.take(k)) == n)
    } else {
        None
    }
}

proof fn lemma_byte_len_step(s: Seq<char>, k: int)
    requires
        0 <= k < s.len(),
    ensures
        byte_len(s.take(k + 1)) == byte_len(s.take(k)) + utf8_len(s[k]),
        byte_len(s.take(k + 1)) > byte_len(s.take(k)),
{
    assert(s.take(k + 1).drop_last() =~= s.take(k));
}

proof fn lemma_byte_len_monotone(s: Seq<char>, a: int, b: int)
    requires
        0 <= a <= b <= s.len(),
    ensures
        byte_len(s.take(a)) <= byte_len(s.take(b)),
        a < b ==> byte_len(s.take(a)) < byte_len(s.take(b)),
    decreases b - a,
{
    if a < b {
        lemma_byte_len_monotone(s, a, b - 1);
        lemma_byte_len_step(s, b - 1);
    }
}

fn char_bytes(c: char) -> (n: usize)
    ensures
        n == utf8_len(c),
{
    let u = c as u32;
    if u < 0x80 {
        1
    } else if u < 0x800 {
        2
    } else if u < 0x10000 {
        3
    } else {
        4
    }
}

/// The number of characters making up the first `n` bytes of `v`, if `n`
/// falls on a character boundary.
fn chars_in_bytes(v: &Vec<char>, n: usize) -> (r: Option<usize>)
    requires
        n <= 64,
    ensures
        match r {
            Some(k) => k <= v@.len() && byte_len(v@.take(k as int)) == n && prefix_bytes(v@, n as nat) == Some(
                k as int,
            ),
            None => prefix_bytes(v@, n as nat) is None,
        },
{
    let mut k: usize = 0;
    let mut b: usize = 0;
    assert(v@.take(0) =~= Seq::<char>::empty());
    while k < v.len() && b < n
        invariant
            k <= v@.len(),
            b == byte_len(v@.take(k as int)),
            b <= n + 4,
            n <= 64,
            forall|j: int| 0 <= j < k ==> byte_len(#[trigger] v@.take(j)) < n,
        decreases v@.len() - k,
    {
        proof {
            lemma_byte_len_step(v@, k as int);
            assert(byte_len(v@.take(k as int)) < n) by {
                if k > 0 {
                    assert(byte_len(v@.take(k - 1)) < n);
                }
            }
        }
        b = b + char_bytes(v[k]);
        k += 1;
    }
    proof {
        assert forall|j: int| 0 <= j <= v@.len() && byte_len(#[trigger] v@.take(j)) == n implies j == k by {
            if j < k {
                assert(byte_len(v@.take(j)) < n);
            } else if j > k {
                lemma_byte_len_monotone(v@, k as int, j);
            }
        }
    }
    if b == n {
        Some(k)
    } else {
        proof {
            assert forall|j: int| 0 <= j <= v@.len() implies byte_len(#[trigger] v@.take(j)) != n by {
                if j < k {
                    assert(byte_len(v@.take(j)) < n);
                } else if j > k {
                    lemma_byte_len_monotone(v@, k as int, j);
                    if b < n {
                        assert(k == v@.len());
                    }
                }
            }
        }
        None
    }
}

/// A commit id shortened to its first 12 bytes (the whole id when it is
/// shorter, or when byte 12 is inside a character).
pub open spec fn short_head_spec(head: Seq<char>) -> Seq<char> {
    match prefix_bytes(head, 12) {
        Some(k) => head.take(k),
        None => head,
    }
}

/// A commit id as the message shows it.
pub fn short_git_head(head: &str) -> (r: String)
    ensures
        r@ == short_head_spec(head@),
{
    let v = chars_of(head);
    match chars_in_bytes(&v, 12) {
        Some(k) => {
            let p = slice_vec(&v, 0, k);
            assert(p@ =~= v@.take(k as int));
            string_of(p.as_slice())
        },
        None => String::from_str(head),
    }
}

/// A `git status --porcelain=v1` line's path: the line from byte 3 on (the
/// whole line when byte 3 is not a boundary), trimmed.
pub open spec fn porcelain_path(line: Seq<char>) -> Seq<char> {
    trim(
        match prefix_bytes(line, 3) {
            Some(k) => line.skip(k),
            None => line,
        },
    )
}

/// The non-empty paths among the first `k` status lines.
pub open spec fn porcelain_paths_spec(ls: Seq<Seq<char>>, k: int) -> Seq<Seq<char>>
    decreases k,
{
    if k <= 0 {
        Seq::empty()
    } else {
        let rest = porcelain_paths_spec(ls, k - 1);
        let p = porcelain_path(ls[k - 1]);
        if p.len() > 0 {
            rest.push(p)
        } else {
            rest
        }
    }
}

/// The paths `git status --porcelain=v1` reports as changed.
pub fn porcelain_paths(stdout: &str) -> (r: Vec<String>)
    ensures
        Seq::new(r@.len(), |i: int| r@[i]@) == porcelain_paths_spec(lines(stdout@), lines(stdout@).len() as int),
{
    let ls = str_lines(stdout);
    let ghost lv = lines(stdout@);
    let mut out: Vec<String> = Vec::new();
    let mut i: usize = 0;
    assert(Seq::new(out@.len(), |q: int| out@[q]@) =~= Seq::<Seq<char>>::empty());
    while i < ls.len()
        invariant
            ls@.len() == lv.len(),
            lv == lines(stdout@),
            forall|q: int| 0 <= q < ls@.len() ==> (#[trigger] ls@[q])@ == lv[q],
            i <= ls@.len(),
            Seq::new(out@.len(), |q: int| out@[q]@) == porcelain_paths_spec(lv, i as int),
        decreases ls@.len() - i,
    {
        let line = &ls[i];
        let rest = match chars_in_bytes(line, 3) {
            Some(k) => {
                let r = slice_vec(line, k, line.len());
                assert(r@ =~= line@.skip(k as int));
                r
            },
            None => {
                let r = slice_vec(line, 0, line.len());
                assert(r@ =~= line@);
                r
            },
        };
        let t = trimmed(&rest);
        if t.len() > 0 {
            let ghost before = Seq::new(out@.len(), |q: int| out@[q]@);
            let s = string_of(t.as_slice());
            out.push(s);
            assert(Seq::new(out@.len(), |q: int| out@[q]@) =~= before.push(t@));
        }
        i += 1;
    }
    out
}

/// The report of a stale `HEAD`: it moved during the run and run-owned
/// tracked paths are still uncommitted. `None` when it did not move or
/// nothing is dirty.
pub open spec fn stale_head_spec(before: Seq<char>, after: Seq<char>, dirty: Seq<Seq<char>>) -> Option<Seq<char>> {
    if after == before || dirty.len() == 0 {
        None
    } else {
        Some(
            "rhei run observed HEAD move from "@ + short_head_spec(before) + " to "@ + short_head_spec(after)
                + ", but tracked Rhei-owned plan/result paths remain uncommitted:\n  "@
                + crate::text::join(dirty, "\n  "@)
                + "\n\nThe worktree reflects the latest orchestrator transitions, but HEAD does not. Commit or revert these paths before treating HEAD as durable plan state."@,
        )
    }
}

/// What a successful run says when `HEAD` moved under its uncommitted
/// writes. `dirty` is only consulted when `HEAD` moved.
pub fn stale_head_error(head_before: &str, head_after: &str, dirty: &Vec<String>) -> (r: Option<String>)
    ensures
        match r {
            Some(m) => stale_head_spec(head_before@, head_after@, Seq::new(dirty@.len(), |i: int| dirty@[i]@))
                == Some(m@),
            None => stale_head_spec(head_before@, head_after@, Seq::new(dirty@.len(), |i: int| dirty@[i]@))
                is None,
        },
{
    if str_eq(head_after, head_before) || dirty.len() == 0 {
        return None;
    }
    let mut m = String::from_str("rhei run observed HEAD move from ");
    let b = short_git_head(head_before);
    push_str(&mut m, b.as_str());
    push_str(&mut m, " to ");
    let a = short_git_head(head_after);
    push_str(&mut m, a.as_str());
    push_str(&mut m, ", but tracked Rhei-owned plan/result paths remain uncommitted:\n  ");
    let joined = join_strings(dirty, "\n  ");
    proof {
        assert(dirty@.map_values(|p: String| p@) =~= Seq::new(dirty@.len(), |i: int| dirty@[i]@));
    }
    push_str(&mut m, joined.as_str());
    push_str(
        &mut m,
        "\n\nThe worktree reflects the latest orchestrator transitions, but HEAD does not. Commit or revert these paths before treating HEAD as durable plan state.",
    );
    Some(m)
}


/// What a run notes before it starts: `HEAD` as it was, when the check is
/// enabled and the workspace is in a repository whose `HEAD` reads (`head`).
pub fn capture_head(enabled: bool, head: Option<String>) -> (r: Option<String>)
    ensures
        !enabled ==> r is None,
        enabled ==> r == head,
{
    if enabled {
        head
    } else {
        None
    }
}

/// Whether, after a successful run, the worktree must be asked which
/// run-owned paths are dirty: only when a `HEAD` was noted before, one reads
/// now, and it moved.
pub fn needs_status(head_before: &Option<String>, head_after: &Option<String>) -> (r: bool)
    ensures
        r == (head_before matches Some(b) && head_after matches Some(a) && a@ != b@),
{
    match (head_before, head_after) {
        (Some(b), Some(a)) => !str_eq(a.as_str(), b.as_str()),
        _ => false,
    }
}

/// The verdict on the worktree after a successful run: fine unless `HEAD`
/// moved; then a failure to ask git is the run's failure, and otherwise
/// `stale_head_error` decides.
pub open spec fn after_success_spec(
    head_before: Option<Seq<char>>,
    head_after: Option<Seq<char>>,
    dirty: Result<Seq<Seq<char>>, Seq<char>>,
) -> Result<(), Seq<char>> {
    match (head_before, head_after) {
        (Some(b), Some(a)) => if a == b {
            Ok(())
        } else {
            match dirty {
                Err(e) => Err(e),
                Ok(d) => match stale_head_spec(b, a, d) {
                    Some(m) => Err(m),
                    None => Ok(()),
                },
            }
        },
        _ => Ok(()),
    }
}

/// Decide the worktree check after a successful run. `dirty` (the dirty
/// run-owned paths, or why git could not say) is read only when `HEAD`
/// moved.
pub fn verify_after_success(
    head_before: &Option<String>,
    head_after: &Option<String>,
    dirty: &Result<Vec<String>, String>,
) -> (r: Result<(), String>)
    ensures
        match r {
            Ok(()) => after_success_spec(
                match head_before {
                    Some(b) => Some(b@),
                    None => None,
                },
                match head_after {
                    Some(a) => Some(a@),
                    None => None,
                },
                match dirty {
                    Ok(d) => Ok(Seq::new(d@.len(), |i: int| d@[i]@)),
                    Err(e) => Err(e@),
                },
            ) == Ok::<(), Seq<char>>(()),
            Err(m) => after_success_spec(
                match head_before {
                    Some(b) => Some(b@),
                    None => None,
                },
                match head_after {
                    Some(a) => Some(a@),
                    None => None,
                },
                match dirty {
                    Ok(d) => Ok(Seq::new(d@.len(), |i: int| d@[i]@)),
                    Err(e) => Err(e@),
                },
            ) == Err::<(), Seq<char>>(m@),
        },
{
    if !needs_status(head_before, head_after) {
        return Ok(());
    }
    let before = match head_before {
        Some(b) => b,
        None => return Ok(()),
    };
    let after = match head_after {
        Some(a) => a,
        None => return Ok(()),
    };
    match dirty {
        Err(e) => Err(String::from_str(e.as_str())),
        Ok(d) => match stale_head_error(before.as_str(), after.as_str(), d) {
            Some(m) => Err(m),
            None => Ok(()),
        },
    }
}

/// A run whose check was not enabled never fails it.
pub proof fn lemma_disabled_check_never_fails(
    head_after: Option<Seq<char>>,
    dirty: Result<Seq<Seq<char>>, Seq<char>>,
)
    ensures
        after_success_spec(None, head_after, dirty) == Ok::<(), Seq<char>>(()),
{
}

/// The check fails only when `HEAD` was noted, reads now, and moved.
pub proof fn lemma_check_fails_only_on_moved_head(
    head_before: Option<Seq<char>>,
    head_after: Option<Seq<char>>,
    dirty: Result<Seq<Seq<char>>, Seq<char>>,
)
    ensures
        after_success_spec(head_before, head_after, dirty) is Err ==> (head_before matches Some(b) && head_after matches Some(a) && a != b),
{
}

} // verus!
