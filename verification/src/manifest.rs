//! The save-manifest parser: out of a drained log fragment it extracts the
//! `path:size` pairs of the manifest line that follows the completion-marker
//! line, dropping every entry whose size is zero or unreadable.
//!
//! The manifest line is the line immediately after the first line in which
//! the marker occurs. It is split on `", "`; each piece is split once on
//! `':'`; the text after the colon, with surrounding spaces ignored, must be
//! a plain run of decimal digits to count as a size, and anything else (no
//! colon, an empty or non-numeric size, a value past `u64::MAX`) counts as
//! size zero, which drops the entry.

use vstd::prelude::*;
use vstd::string::StrSliceExecFns;
use crate::text::chars_of;
use crate::text::find_char;
use crate::text::find_from;
use crate::text::find_sub;
use crate::text::find_sub_exec;
use crate::text::lemma_find_from;
use crate::text::lemma_find_sub;
use crate::text::lemma_find_sub_absent;
use crate::text::seq_contains;

verus! {

/// One entry of the save manifest: a server-relative path and a byte count.
pub struct SaveManifestEntry {
    pub path: String,
    pub size: u64,
}

/// The mathematical shape of one manifest entry.
#[verifier::ext_equal]
pub struct EntryV {
    pub path: Seq<char>,
    pub size: u64,
}

impl View for SaveManifestEntry {
    type V = EntryV;

    open spec fn view(&self) -> EntryV {
        EntryV { path: self.path@, size: self.size }
    }
}

/// The entry views of a sequence of entries, in order.
pub open spec fn view_entries(v: Seq<SaveManifestEntry>) -> Seq<EntryV> {
    v.map_values(|e: SaveManifestEntry| e@)
}

/// The delimiter between manifest entries.
pub open spec fn comma_space() -> Seq<char> {
    seq![',', ' ']
}

/// A decimal digit.
pub open spec fn is_digit(c: char) -> bool {
    '0' <= c && c <= '9'
}

/// The numeric value of a digit.
pub open spec fn digit_val(c: char) -> int {
    c as int - '0' as int
}

/// Every character of `t` is a decimal digit.
pub open spec fn all_digits(t: Seq<char>) -> bool {
    forall|i: int| 0 <= i < t.len() ==> is_digit(t[i])
}

/// The number denoted by a digit string, most significant digit first.
pub open spec fn num_val(t: Seq<char>) -> int
    decreases t.len(),
{
    if t.len() == 0 {
        0
    } else {
        num_val(t.drop_last()) * 10 + digit_val(t.last())
    }
}

/// The first position at or after `j` holding something other than a space.
pub open spec fn skip_spaces(s: Seq<char>, j: int) -> int
    decreases s.len() - j,
{
    if !(0 <= j < s.len()) {
        s.len() as int
    } else if s[j] == ' ' {
        skip_spaces(s, j + 1)
    } else {
        j
    }
}

/// The position just past the last non-space at or before position `j - 1`.
pub open spec fn rskip_spaces(s: Seq<char>, j: int) -> int
    decreases j,
{
    if !(0 < j && j <= s.len()) {
        0
    } else if s[j - 1] == ' ' {
        rskip_spaces(s, j - 1)
    } else {
        j
    }
}

/// `s` with leading and trailing spaces removed.
pub open spec fn trimmed(s: Seq<char>) -> Seq<char> {
    let a = skip_spaces(s, 0);
    let b = rskip_spaces(s, s.len() as int);
    if a >= b {
        Seq::<char>::empty()
    } else {
        s.subrange(a, b)
    }
}

/// The size a piece of manifest text denotes: a run of digits once spaces
/// are trimmed, provided its value fits in a `u64`; `None` otherwise.
pub open spec fn parse_u64(s: Seq<char>) -> Option<u64> {
    let t = trimmed(s);
    if t.len() == 0 || !all_digits(t) {
        None
    } else if num_val(t) > u64::MAX as int {
        None
    } else {
        Some(num_val(t) as u64)
    }
}

/// The size of a manifest entry, with every unreadable size counting as zero.
pub open spec fn parsed_size(s: Seq<char>) -> u64 {
    match parse_u64(s) {
        Some(v) => v,
        None => 0,
    }
}

/// The entry one comma-separated piece denotes: the text before the first
/// colon is the path, the text after it the size; a piece without a colon
/// has size zero.
pub open spec fn entry_of(c: Seq<char>) -> EntryV {
    let k = find_from(c, 0, ':');
    if k == c.len() {
        EntryV { path: c, size: 0 }
    } else {
        EntryV { path: c.subrange(0, k), size: parsed_size(c.subrange(k + 1, c.len() as int)) }
    }
}

/// An entry as it survives filtering: kept only when its size is not zero.
pub open spec fn entry_list(e: EntryV) -> Seq<EntryV> {
    if e.size != 0 {
        seq![e]
    } else {
        seq![]
    }
}

/// The surviving entries of the manifest line `l` from position `from` on,
/// splitting on `", "` and dropping zero-size entries, in order.
pub open spec fn entries_from(l: Seq<char>, from: int) -> Seq<EntryV>
    decreases l.len() - from,
        via entries_from_decreases
{
    if !(0 <= from <= l.len()) {
        seq![]
    } else {
        let k = find_sub(l, from, comma_space());
        if k == l.len() {
            entry_list(entry_of(l.subrange(from, l.len() as int)))
        } else {
            entry_list(entry_of(l.subrange(from, k))) + entries_from(l, k + 2)
        }
    }
}

#[via_fn]
proof fn entries_from_decreases(l: Seq<char>, from: int) {
    if 0 <= from <= l.len() {
        lemma_find_sub(l, from, comma_space());
    }
}

/// The manifest a drained fragment denotes: the surviving entries of the
/// line after the first line in which `marker` occurs, or nothing when the
/// marker is absent or no line follows it.
pub open spec fn manifest_of(s: Seq<char>, marker: Seq<char>) -> Seq<EntryV> {
    let p = find_sub(s, 0, marker);
    if p == s.len() {
        seq![]
    } else {
        let e1 = find_from(s, p, '\n');
        if e1 == s.len() {
            seq![]
        } else {
            let e2 = find_from(s, e1 + 1, '\n');
            entries_from(s.subrange(e1 + 1, e2), 0)
        }
    }
}

/// Reads the digits of `t`, spaces around them ignored, as a `u64`;
/// anything unreadable counts as zero.
fn parse_size(t: &str) -> (r: u64)
    ensures
        r == parsed_size(t@),
{
    let v = chars_of(t);
    let n = v.len();
    let mut a: usize = 0;
    while a < n && v[a as usize] == ' '
        invariant
            a <= n,
            n == v@.len(),
            v@ == t@,
            skip_spaces(t@, 0) == skip_spaces(t@, a as int),
        decreases n - a,
    {
        a = a + 1;
    }
    assert(skip_spaces(t@, 0) == a as int);
    if a == n {
        assert(trimmed(t@).len() == 0) by {
            assert(rskip_spaces(t@, n as int) <= n as int) by {
                lemma_rskip_spaces_le(t@, n as int);
            }
        }
        return 0;
    }
    let mut b: usize = n;
    while b > a && v[b - 1] == ' '
        invariant
            a < b <= n,
            n == v@.len(),
            v@ == t@,
            t@[a as int] != ' ',
            rskip_spaces(t@, n as int) == rskip_spaces(t@, b as int),
        decreases b,
    {
        b = b - 1;
    }
    assert(rskip_spaces(t@, n as int) == b as int);
    let ghost c = trimmed(t@);
    proof {
        assert(c =~= t@.subrange(a as int, b as int));
    }
    let mut acc: u128 = 0;
    let mut j: usize = a;
    while j < b
        invariant
            a <= j <= b <= n,
            n == v@.len(),
            v@ == t@,
            c == t@.subrange(a as int, b as int),
            c == trimmed(t@),
            a < b,
            forall|m: int| a <= m < j ==> is_digit(t@[m]),
            acc == num_val(c.subrange(0, j - a)),
            acc <= u64::MAX as u128,
        decreases b - j,
    {
        let ch = v[j];
        if !(ch >= '0' && ch <= '9') {
            assert(!all_digits(c)) by {
                assert(c[j - a] == t@[j as int]);
            }
            return 0;
        }
        let d: u128 = (ch as u8 - 48) as u128;
        assert(d == digit_val(t@[j as int])) by {
            assert(is_digit(t@[j as int]));
        }
        let wide: u128 = acc * 10 + d;
        proof {
            assert(c.subrange(0, j - a + 1).drop_last() =~= c.subrange(0, j - a));
            assert(c.subrange(0, j - a + 1).last() == t@[j as int]);
            assert(wide == num_val(c.subrange(0, j - a + 1)));
        }
        if wide > u64::MAX as u128 {
            proof {
                if all_digits(c) {
                    lemma_num_val_prefix(c, j - a + 1);
                    assert(num_val(c) >= num_val(c.subrange(0, j - a + 1)));
                }
            }
            return 0;
        }
        acc = wide;
        j = j + 1;
    }
    proof {
        assert(c.subrange(0, b - a) =~= c);
        assert(all_digits(c));
        assert(c.len() > 0);
        assert(parse_u64(t@) == Some(acc as u64));
    }
    acc as u64
}

/// `rskip_spaces` never reports a position past `j`.
proof fn lemma_rskip_spaces_le(s: Seq<char>, j: int)
    ensures
        0 <= rskip_spaces(s, j) <= s.len(),
        j >= 0 ==> rskip_spaces(s, j) <= j,
    decreases j,
{
    if 0 < j && j <= s.len() && s[j - 1] == ' ' {
        lemma_rskip_spaces_le(s, j - 1);
    }
}

/// A digit string is worth no less than any of its prefixes.
proof fn lemma_num_val_prefix(t: Seq<char>, i: int)
    requires
        0 <= i <= t.len(),
        all_digits(t),
    ensures
        num_val(t) >= num_val(t.subrange(0, i)) >= 0,
    decreases t.len() - i,
{
    lemma_num_val_nonneg(t.subrange(0, i));
    if i < t.len() {
        lemma_num_val_prefix(t, i + 1);
        assert(t.subrange(0, i + 1).drop_last() =~= t.subrange(0, i));
        assert(t.subrange(0, i + 1).last() == t[i]);
        assert(is_digit(t[i]));
        assert(num_val(t.subrange(0, i + 1)) >= num_val(t.subrange(0, i)));
    } else {
        assert(t.subrange(0, i) =~= t);
    }
}

/// A digit string denotes a non-negative number.
proof fn lemma_num_val_nonneg(t: Seq<char>)
    requires
        all_digits(t),
    ensures
        num_val(t) >= 0,
    decreases t.len(),
{
    if t.len() > 0 {
        assert(all_digits(t.drop_last())) by {
            assert(forall|i: int| 0 <= i < t.len() - 1 ==> t.drop_last()[i] == t[i]);
        }
        lemma_num_val_nonneg(t.drop_last());
        assert(is_digit(t.last()));
    }
}

/// Reads one comma-separated piece as a manifest entry.
fn parse_entry(piece: &str) -> (e: SaveManifestEntry)
    ensures
        e@ == entry_of(piece@),
{
    let pv = chars_of(piece);
    let n = pv.len();
    let k = find_char(&pv, 0, ':');
    proof {
        lemma_find_from(pv@, 0, ':');
    }
    if k == n {
        SaveManifestEntry { path: piece.to_owned(), size: 0 }
    } else {
        let path = piece.substring_char(0, k).to_owned();
        let size = parse_size(piece.substring_char(k + 1, n));
        SaveManifestEntry { path, size }
    }
}

/// Splits one manifest line on `", "` and keeps the entries whose size is
/// not zero, in order.
fn parse_manifest_line(line: &str) -> (r: Vec<SaveManifestEntry>)
    ensures
        view_entries(r@) == entries_from(line@, 0),
{
    let lv = chars_of(line);
    let n = lv.len();
    let mut delim: Vec<char> = Vec::new();
    delim.push(',');
    delim.push(' ');
    proof {
        assert(delim@ =~= comma_space());
    }
    let mut out: Vec<SaveManifestEntry> = Vec::new();
    let mut from: usize = 0;
    loop
        invariant_except_break
            from <= n,
            n == lv@.len(),
            lv@ == line@,
            delim@ == comma_space(),
            entries_from(line@, 0) == view_entries(out@) + entries_from(line@, from as int),
        ensures
            view_entries(out@) == entries_from(line@, 0),
        decreases n - from,
    {
        let k = find_sub_exec(&lv, from, &delim);
        proof {
            lemma_find_sub(lv@, from as int, delim@);
        }
        let piece_end = k;
        let e = parse_entry(line.substring_char(from, piece_end));
        let ghost step = entry_list(entry_of(line@.subrange(from as int, piece_end as int)));
        if e.size != 0 {
            proof {
                assert(view_entries(out@.push(e)) =~= view_entries(out@) + step);
            }
            out.push(e);
        } else {
            proof {
                assert(view_entries(out@) + step =~= view_entries(out@));
            }
        }
        if k == n {
            proof {
                assert(entries_from(line@, from as int) == step);
                assert(view_entries(out@) =~= entries_from(line@, 0));
            }
            break;
        }
        proof {
            assert(entries_from(line@, from as int) == step + entries_from(line@, k + 2));
            assert(view_entries(out@) + entries_from(line@, k + 2)
                =~= entries_from(line@, 0));
        }
        from = k + 2;
    }
    out
}

/// Extracts the save manifest from a drained log fragment: the entries of
/// the line immediately after the first line in which `marker` occurs, in
/// order, keeping exactly those whose size is not zero. A fragment without
/// the marker, or without a line after it, yields no entries.
pub fn parse_manifest(text: &str, marker: &str) -> (r: Vec<SaveManifestEntry>)
    ensures
        view_entries(r@) == manifest_of(text@, marker@),
{
    let tv = chars_of(text);
    let mv = chars_of(marker);
    let n = tv.len();
    let p = find_sub_exec(&tv, 0, &mv);
    if p == n {
        let r: Vec<SaveManifestEntry> = Vec::new();
        proof {
            assert(view_entries(r@) =~= manifest_of(text@, marker@));
        }
        return r;
    }
    proof {
        lemma_find_sub(tv@, 0, mv@);
    }
    let e1 = find_char(&tv, p, '\n');
    proof {
        lemma_find_from(tv@, p as int, '\n');
    }
    if e1 == n {
        let r: Vec<SaveManifestEntry> = Vec::new();
        proof {
            assert(view_entries(r@) =~= manifest_of(text@, marker@));
        }
        return r;
    }
    let e2 = find_char(&tv, e1 + 1, '\n');
    proof {
        lemma_find_from(tv@, e1 + 1, '\n');
    }
    let line = text.substring_char(e1 + 1, e2);
    parse_manifest_line(line)
}

/// Every entry the parse keeps has a positive size: zero-size and
/// unreadable entries never survive.
pub proof fn lemma_manifest_entries_positive(s: Seq<char>, marker: Seq<char>)
    ensures
        forall|i: int|
            0 <= i < manifest_of(s, marker).len() ==> manifest_of(s, marker)[i].size > 0,
{
    let p = find_sub(s, 0, marker);
    if p != s.len() {
        let e1 = find_from(s, p, '\n');
        if e1 != s.len() {
            let e2 = find_from(s, e1 + 1, '\n');
            lemma_entries_from_positive(s.subrange(e1 + 1, e2), 0);
        }
    }
}

/// Every surviving entry of a manifest line has a positive size.
proof fn lemma_entries_from_positive(l: Seq<char>, from: int)
    ensures
        forall|i: int|
            0 <= i < entries_from(l, from).len() ==> entries_from(l, from)[i].size > 0,
    decreases l.len() - from,
{
    if 0 <= from <= l.len() {
        let k = find_sub(l, from, comma_space());
        lemma_find_sub(l, from, comma_space());
        if k == l.len() {
            let e = entry_of(l.subrange(from, l.len() as int));
            assert(entries_from(l, from) == entry_list(e));
        } else {
            let e = entry_of(l.subrange(from, k));
            lemma_entries_from_positive(l, k + 2);
            assert(entries_from(l, from) == entry_list(e) + entries_from(l, k + 2));
            assert forall|i: int|
                0 <= i < entries_from(l, from).len() implies entries_from(l, from)[i].size
                > 0 by {
                if i < entry_list(e).len() {
                    assert(entries_from(l, from)[i] == entry_list(e)[i]);
                } else {
                    assert(entries_from(l, from)[i] == entries_from(l, k + 2)[i - entry_list(
                        e,
                    ).len()]);
                }
            }
        }
    } else {
        assert(entries_from(l, from) =~= Seq::<EntryV>::empty());
    }
}

/// The raw comma-separated pieces of the manifest line from `from` on, in
/// order, before any entry is read or dropped.
pub open spec fn pieces_from(l: Seq<char>, from: int) -> Seq<Seq<char>>
    decreases l.len() - from,
        via pieces_from_decreases
{
    if !(0 <= from <= l.len()) {
        seq![]
    } else {
        let k = find_sub(l, from, comma_space());
        if k == l.len() {
            seq![l.subrange(from, l.len() as int)]
        } else {
            seq![l.subrange(from, k)] + pieces_from(l, k + 2)
        }
    }
}

#[via_fn]
proof fn pieces_from_decreases(l: Seq<char>, from: int) {
    if 0 <= from <= l.len() {
        lemma_find_sub(l, from, comma_space());
    }
}

/// What a manifest line parses to is exactly the entries of its pieces with
/// precisely the zero-size ones dropped, in the pieces' original order.
pub proof fn lemma_entries_are_filtered_pieces(l: Seq<char>, from: int)
    ensures
        entries_from(l, from) == pieces_from(l, from).map_values(
            |c: Seq<char>| entry_of(c),
        ).filter(|e: EntryV| e.size != 0),
    decreases l.len() - from,
{
    let f = |c: Seq<char>| entry_of(c);
    let pred = |e: EntryV| e.size != 0;
    reveal_with_fuel(Seq::filter, 2);
    if !(0 <= from <= l.len()) {
        assert(pieces_from(l, from).map_values(f) =~= Seq::<EntryV>::empty());
        assert(entries_from(l, from) =~= Seq::<EntryV>::empty().filter(pred));
    } else {
        let k = find_sub(l, from, comma_space());
        lemma_find_sub(l, from, comma_space());
        if k == l.len() {
            let e = f(l.subrange(from, l.len() as int));
            lemma_filter_singleton(e, pred);
            assert(pieces_from(l, from).map_values(f) =~= seq![e]);
        } else {
            let e = f(l.subrange(from, k));
            lemma_entries_are_filtered_pieces(l, k + 2);
            lemma_filter_singleton(e, pred);
            let head = seq![e];
            let rest = pieces_from(l, k + 2).map_values(f);
            assert(pieces_from(l, from).map_values(f) =~= head + rest);
            Seq::<EntryV>::filter_distributes_over_add(head, rest, pred);
            assert(entries_from(l, from) == entry_list(e) + entries_from(l, k + 2));
        }
    }
}

/// Filtering a one-entry sequence keeps or drops that one entry.
proof fn lemma_filter_singleton(e: EntryV, pred: spec_fn(EntryV) -> bool)
    ensures
        seq![e].filter(pred) == if pred(e) {
            seq![e]
        } else {
            Seq::<EntryV>::empty()
        },
{
    reveal_with_fuel(Seq::filter, 2);
    assert(seq![e].drop_last() =~= Seq::<EntryV>::empty());
    if pred(e) {
        assert(seq![e].filter(pred) =~= seq![e]);
    } else {
        assert(seq![e].filter(pred) =~= Seq::<EntryV>::empty());
    }
}

/// A fragment in which the marker never occurs parses to no entries at all.
pub proof fn lemma_manifest_no_marker_empty(s: Seq<char>, marker: Seq<char>)
    requires
        !seq_contains(s, marker),
    ensures
        manifest_of(s, marker) == Seq::<EntryV>::empty(),
{
    lemma_find_sub_absent(s, 0, marker);
    assert(manifest_of(s, marker) =~= Seq::<EntryV>::empty());
}

} // verus!
