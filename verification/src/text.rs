//! Character-level scanning primitives shared by the manifest parser and the
//! event extractor: first occurrence of a character or of a substring, with
//! the lemmas that characterize them.

use vstd::prelude::*;
use vstd::string::StrSliceExecFns;

verus! {

/// The characters of `s`, one per element, in order.
pub fn chars_of(s: &str) -> (v: Vec<char>)
    ensures
        v@ == s@,
{
    let n = s.unicode_len();
    let mut v: Vec<char> = Vec::new();
    let mut i: usize = 0;
    while i < n
        invariant
            n == s@.len(),
            i <= n,
            v@ == s@.subrange(0, i as int),
        decreases n - i,
    {
        let c = s.get_char(i);
        v.push(c);
        proof {
            assert(v@ =~= s@.subrange(0, i + 1 as int));
        }
        i = i + 1;
    }
    proof {
        assert(v@ =~= s@);
    }
    v
}

/// The index of the first occurrence of `c` in `s` at or after `from`,
/// or `s.len()` if there is none.
pub open spec fn find_from(s: Seq<char>, from: int, c: char) -> int
    decreases s.len() - from,
{
    if from < 0 || from >= s.len() {
        s.len() as int
    } else if s[from] == c {
        from
    } else {
        find_from(s, from + 1, c)
    }
}

/// `find_from` stays within bounds, lands on `c` when it lands short of the
/// end, and skips nothing: no earlier position at or after `from` holds `c`.
pub proof fn lemma_find_from(s: Seq<char>, from: int, c: char)
    requires
        0 <= from <= s.len(),
    ensures
        from <= find_from(s, from, c) <= s.len(),
        find_from(s, from, c) < s.len() ==> s[find_from(s, from, c)] == c,
        forall|m: int| from <= m < find_from(s, from, c) ==> s[m] != c,
    decreases s.len() - from,
{
    if from < s.len() && s[from] != c {
        lemma_find_from(s, from + 1, c);
    }
}

/// Finds the first occurrence of `c` in `v` at or after `from`.
pub fn find_char(v: &Vec<char>, from: usize, c: char) -> (r: usize)
    requires
        from <= v@.len(),
    ensures
        r == find_from(v@, from as int, c),
{
    let n = v.len();
    let mut j = from;
    while j < n
        invariant
            from <= j <= n,
            n == v@.len(),
            find_from(v@, from as int, c) == find_from(v@, j as int, c),
        decreases n - j,
    {
        if v[j] == c {
            return j;
        }
        j = j + 1;
    }
    assert(find_from(v@, j as int, c) == n as int);
    n
}

/// `pat` occurs in `s` starting exactly at position `i`.
pub open spec fn sub_at(s: Seq<char>, i: int, pat: Seq<char>) -> bool {
    0 <= i && i + pat.len() <= s.len() && s.subrange(i, i + pat.len() as int) == pat
}

/// `pat` occurs somewhere in `s`.
pub open spec fn seq_contains(s: Seq<char>, pat: Seq<char>) -> bool {
    exists|i: int| sub_at(s, i, pat)
}

/// The least position at or after `from` where `pat` occurs in `s`,
/// or `s.len()` if it occurs nowhere at or after `from`.
pub open spec fn find_sub(s: Seq<char>, from: int, pat: Seq<char>) -> int
    decreases s.len() - from,
{
    if from < 0 || from > s.len() {
        s.len() as int
    } else if sub_at(s, from, pat) {
        from
    } else if from >= s.len() {
        s.len() as int
    } else {
        find_sub(s, from + 1, pat)
    }
}

/// `find_sub` stays within bounds, lands on an occurrence when it lands short
/// of the end, and no occurrence starts before the position it returns.
pub proof fn lemma_find_sub(s: Seq<char>, from: int, pat: Seq<char>)
    requires
        0 <= from <= s.len(),
    ensures
        from <= find_sub(s, from, pat) <= s.len(),
        find_sub(s, from, pat) < s.len() ==> sub_at(s, find_sub(s, from, pat), pat),
        forall|m: int| from <= m < find_sub(s, from, pat) ==> !sub_at(s, m, pat),
    decreases s.len() - from,
{
    if !sub_at(s, from, pat) && from < s.len() {
        lemma_find_sub(s, from + 1, pat);
    }
}

/// If `pat` occurs nowhere in `s`, `find_sub` reports only the end position.
pub proof fn lemma_find_sub_absent(s: Seq<char>, from: int, pat: Seq<char>)
    requires
        0 <= from <= s.len(),
        !seq_contains(s, pat),
    ensures
        find_sub(s, from, pat) == s.len(),
{
    lemma_find_sub(s, from, pat);
    if find_sub(s, from, pat) < s.len() {
        assert(sub_at(s, find_sub(s, from, pat), pat));
    }
}

/// Decides whether `pat` occurs in `v` starting exactly at `i`.
pub fn sub_at_exec(v: &Vec<char>, i: usize, pat: &Vec<char>) -> (b: bool)
    requires
        i <= v@.len(),
    ensures
        b == sub_at(v@, i as int, pat@),
{
    let n = v.len();
    let m = pat.len();
    if m > n - i {
        return false;
    }
    let mut k: usize = 0;
    while k < m
        invariant
            k <= m,
            i + m <= n,
            n == v@.len(),
            m == pat@.len(),
            forall|t: int| 0 <= t < k ==> v@[i + t] == pat@[t],
        decreases m - k,
    {
        if v[i + k] != pat[k] {
            proof {
                if sub_at(v@, i as int, pat@) {
                    assert(v@.subrange(i as int, i + m as int)[k as int] == pat@[k as int]);
                }
            }
            return false;
        }
        k = k + 1;
    }
    proof {
        assert(v@.subrange(i as int, i + m as int) =~= pat@);
    }
    true
}

/// Finds the first occurrence of `pat` in `v` at or after `from`.
pub fn find_sub_exec(v: &Vec<char>, from: usize, pat: &Vec<char>) -> (r: usize)
    requires
        from <= v@.len(),
    ensures
        r == find_sub(v@, from as int, pat@),
{
    let n = v.len();
    let mut j = from;
    while j < n
        invariant
            from <= j <= n,
            n == v@.len(),
            find_sub(v@, from as int, pat@) == find_sub(v@, j as int, pat@),
        decreases n - j,
    {
        if sub_at_exec(v, j, pat) {
            return j;
        }
        j = j + 1;
    }
    assert(find_sub(v@, j as int, pat@) == n as int);
    n
}

/// Decides whether `pat` occurs anywhere in `s`.
pub fn contains_sub(s: &str, pat: &str) -> (b: bool)
    ensures
        b == seq_contains(s@, pat@),
{
    let sv = chars_of(s);
    let pv = chars_of(pat);
    let n = sv.len();
    let k = find_sub_exec(&sv, 0, &pv);
    proof {
        lemma_find_sub(sv@, 0, pv@);
    }
    if k < n {
        return true;
    }
    let at_end = sub_at_exec(&sv, n, &pv);
    proof {
        if !at_end && seq_contains(sv@, pv@) {
            let i = choose|i: int| sub_at(sv@, i, pv@);
            assert(i <= n);
            assert(false);
        }
    }
    at_end
}

} // verus!
