//! Base names of POSIX-style directory paths, used to root a directory
//! snapshot inside the archive under the directory's own name.

use vstd::prelude::*;
use vstd::string::StrSliceExecFns;
use crate::text::chars_of;

verus! {

/// The end of the path once trailing slashes are dropped: the position just
/// past the last non-slash at or before position `j - 1`.
pub open spec fn rskip_slashes(s: Seq<char>, j: int) -> int
    decreases j,
{
    if !(0 < j && j <= s.len()) {
        0
    } else if s[j - 1] == '/' {
        rskip_slashes(s, j - 1)
    } else {
        j
    }
}

/// The start of the path component ending at position `j`: the greatest
/// position at or before `j` that sits at the start or just after a slash.
pub open spec fn start_of_name(s: Seq<char>, j: int) -> int
    decreases j,
{
    if j <= 0 {
        0
    } else if s[j - 1] == '/' {
        j
    } else {
        start_of_name(s, j - 1)
    }
}

/// The base name of a POSIX-style path: its last component once trailing
/// slashes are dropped. An empty path, a bare root, and a last component of
/// `.` or `..` have none.
pub open spec fn spec_base_name(s: Seq<char>) -> Option<Seq<char>> {
    let e = rskip_slashes(s, s.len() as int);
    if e <= 0 {
        None
    } else {
        let a = start_of_name(s, e);
        let name = s.subrange(a, e);
        if name == seq!['.'] || name == seq!['.', '.'] {
            None
        } else {
            Some(name)
        }
    }
}

/// The base name of `path`, if it has one: the archive-internal name a
/// directory snapshot is rooted under.
pub fn base_name(path: &str) -> (r: Option<String>)
    ensures
        r is Some <==> spec_base_name(path@) is Some,
        r is Some ==> r->0@ == spec_base_name(path@)->0,
{
    let v = chars_of(path);
    let n = v.len();
    let mut e: usize = n;
    while e > 0 && v[e - 1] == '/'
        invariant
            e <= n,
            n == v@.len(),
            v@ == path@,
            rskip_slashes(path@, n as int) == rskip_slashes(path@, e as int),
        decreases e,
    {
        e = e - 1;
    }
    assert(rskip_slashes(path@, n as int) == e as int);
    if e == 0 {
        return None;
    }
    let mut a: usize = e;
    while a > 0 && v[a - 1] != '/'
        invariant
            a <= e <= n,
            n == v@.len(),
            v@ == path@,
            start_of_name(path@, e as int) == start_of_name(path@, a as int),
        decreases a,
    {
        a = a - 1;
    }
    assert(start_of_name(path@, e as int) == a as int);
    let ghost name = path@.subrange(a as int, e as int);
    if e - a == 1 && v[a] == '.' {
        proof {
            assert(name =~= seq!['.']);
        }
        return None;
    }
    if e - a == 2 && v[a] == '.' && v[a + 1] == '.' {
        proof {
            assert(name =~= seq!['.', '.']);
        }
        return None;
    }
    proof {
        if name == seq!['.'] {
            assert(name.len() == 1 && name[0] == '.');
            assert(false);
        }
        if name == seq!['.', '.'] {
            assert(name.len() == 2 && name[0] == '.' && name[1] == '.');
            assert(false);
        }
    }
    Some(path.substring_char(a, e).to_owned())
}

} // verus!
