//! The player-event extractor: finds, in a drained log fragment, every line
//! of the form
//!
//! `[2023-10-16 21:23:07:321 INFO] Player connected: NAME,`
//!
//! (or `disconnected`), and yields one event per such line, in line order.
//! The name runs from after the tag up to the next comma, must not be empty,
//! and keeps multi-byte characters intact. Lines of any other shape are
//! ignored. The extractor is a pure function of the fragment: nothing is
//! remembered across calls.

use vstd::prelude::*;
use vstd::string::StrSliceExecFns;
use crate::manifest::is_digit;
use crate::text::chars_of;
use crate::text::find_char;
use crate::text::find_from;
use crate::text::lemma_find_from;

verus! {

/// Whether a player appeared or left.
#[derive(Clone, Copy, PartialEq, Eq, Structural, Debug)]
pub enum StateChange {
    Connected,
    Disconnected,
}

/// One detected player event: who, and which way.
#[derive(PartialEq, Debug)]
pub struct UserStateChange {
    pub username: String,
    pub state: StateChange,
}

/// The mathematical shape of one player event.
#[verifier::ext_equal]
pub struct EventV {
    pub username: Seq<char>,
    pub state: StateChange,
}

impl View for UserStateChange {
    type V = EventV;

    open spec fn view(&self) -> EventV {
        EventV { username: self.username@, state: self.state }
    }
}

/// The event views of a sequence of events, in order.
pub open spec fn view_events(v: Seq<UserStateChange>) -> Seq<EventV> {
    v.map_values(|e: UserStateChange| e@)
}

/// Position `i` begins a line: the fragment's start, or just after a newline.
pub open spec fn line_start(s: Seq<char>, i: int) -> bool {
    i == 0 || (0 < i && s[i - 1] == '\n')
}

/// The fixed-width timestamp-and-level header ends with `Player ` and spans
/// 38 characters from position `i` on.
pub open spec fn header_at(s: Seq<char>, i: int) -> bool {
    &&& 0 <= i
    &&& i + 38 <= s.len()
    &&& s[i] == '['
    &&& is_digit(s[i + 1])
    &&& is_digit(s[i + 2])
    &&& is_digit(s[i + 3])
    &&& is_digit(s[i + 4])
    &&& s[i + 5] == '-'
    &&& is_digit(s[i + 6])
    &&& is_digit(s[i + 7])
    &&& s[i + 8] == '-'
    &&& is_digit(s[i + 9])
    &&& is_digit(s[i + 10])
    &&& s[i + 11] == ' '
    &&& is_digit(s[i + 12])
    &&& is_digit(s[i + 13])
    &&& s[i + 14] == ':'
    &&& is_digit(s[i + 15])
    &&& is_digit(s[i + 16])
    &&& s[i + 17] == ':'
    &&& is_digit(s[i + 18])
    &&& is_digit(s[i + 19])
    &&& s[i + 20] == ':'
    &&& is_digit(s[i + 21])
    &&& is_digit(s[i + 22])
    &&& is_digit(s[i + 23])
    &&& s[i + 24] == ' '
    &&& s[i + 25] == 'I'
    &&& s[i + 26] == 'N'
    &&& s[i + 27] == 'F'
    &&& s[i + 28] == 'O'
    &&& s[i + 29] == ']'
    &&& s[i + 30] == ' '
    &&& s[i + 31] == 'P'
    &&& s[i + 32] == 'l'
    &&& s[i + 33] == 'a'
    &&& s[i + 34] == 'y'
    &&& s[i + 35] == 'e'
    &&& s[i + 36] == 'r'
    &&& s[i + 37] == ' '
}

/// The tag `connected: ` spans 11 characters from position `i` on.
pub open spec fn connected_tag_at(s: Seq<char>, i: int) -> bool {
    &&& 0 <= i
    &&& i + 11 <= s.len()
    &&& s[i] == 'c'
    &&& s[i + 1] == 'o'
    &&& s[i + 2] == 'n'
    &&& s[i + 3] == 'n'
    &&& s[i + 4] == 'e'
    &&& s[i + 5] == 'c'
    &&& s[i + 6] == 't'
    &&& s[i + 7] == 'e'
    &&& s[i + 8] == 'd'
    &&& s[i + 9] == ':'
    &&& s[i + 10] == ' '
}

/// The tag `disconnected: ` spans 14 characters from position `i` on.
pub open spec fn disconnected_tag_at(s: Seq<char>, i: int) -> bool {
    &&& 0 <= i
    &&& i + 3 <= s.len()
    &&& s[i] == 'd'
    &&& s[i + 1] == 'i'
    &&& s[i + 2] == 's'
    &&& connected_tag_at(s, i + 3)
}

/// Which event tag, if either, follows a header starting at position `i`.
pub open spec fn match_state_at(s: Seq<char>, i: int) -> Option<StateChange> {
    if header_at(s, i) {
        if disconnected_tag_at(s, i + 38) {
            Some(StateChange::Disconnected)
        } else if connected_tag_at(s, i + 38) {
            Some(StateChange::Connected)
        } else {
            None
        }
    } else {
        None
    }
}

/// Where the username begins for a match starting at position `i`.
pub open spec fn name_start(s: Seq<char>, i: int) -> int {
    i + 38 + match match_state_at(s, i) {
        Some(StateChange::Connected) => 11int,
        Some(StateChange::Disconnected) => 14int,
        None => 0int,
    }
}

/// The first comma at or after the username's start, or the end of `s`.
pub open spec fn comma_at(s: Seq<char>, i: int) -> int {
    find_from(s, name_start(s, i), ',')
}

/// A full event line begins at position `i`: header, tag, and a non-empty
/// comma-terminated username.
pub open spec fn pattern_at(s: Seq<char>, i: int) -> bool {
    &&& match_state_at(s, i) is Some
    &&& comma_at(s, i) < s.len()
    &&& comma_at(s, i) > name_start(s, i)
}

/// The event a match starting at position `i` denotes.
pub open spec fn event_at(s: Seq<char>, i: int) -> EventV {
    EventV {
        username: s.subrange(name_start(s, i), comma_at(s, i)),
        state: match_state_at(s, i).unwrap(),
    }
}

/// Position `i` begins a line and that line is a full event line.
pub open spec fn matched_line_start(s: Seq<char>, i: int) -> bool {
    line_start(s, i) && pattern_at(s, i)
}

/// The events of `s` whose lines begin at or after position `i`, in
/// position order.
pub open spec fn events_from(s: Seq<char>, i: int) -> Seq<EventV>
    decreases s.len() - i,
{
    if !(0 <= i < s.len()) {
        seq![]
    } else if matched_line_start(s, i) {
        seq![event_at(s, i)] + events_from(s, i + 1)
    } else {
        events_from(s, i + 1)
    }
}

/// All the events of `s`, in line order.
pub open spec fn events_of(s: Seq<char>) -> Seq<EventV> {
    events_from(s, 0)
}

/// Decides whether a full event line begins at position `i`, and if so at
/// which positions its username begins and its comma stands.
fn try_pattern(v: &Vec<char>, i: usize) -> (r: Option<(StateChange, usize, usize)>)
    requires
        i < v@.len(),
    ensures
        match r {
            Some(t) => pattern_at(v@, i as int) && match_state_at(v@, i as int) == Some(t.0)
                && t.1 == name_start(v@, i as int) && t.2 == comma_at(v@, i as int),
            None => !pattern_at(v@, i as int),
        },
{
    let n = v.len();
    if n - i < 38 {
        return None;
    }
    let header_ok = v[i] == '[' && digit(v[i + 1]) && digit(v[i + 2]) && digit(v[i + 3])
        && digit(v[i + 4]) && v[i + 5] == '-' && digit(v[i + 6]) && digit(v[i + 7])
        && v[i + 8] == '-' && digit(v[i + 9]) && digit(v[i + 10]) && v[i + 11] == ' '
        && digit(v[i + 12]) && digit(v[i + 13]) && v[i + 14] == ':' && digit(v[i + 15])
        && digit(v[i + 16]) && v[i + 17] == ':' && digit(v[i + 18]) && digit(v[i + 19])
        && v[i + 20] == ':' && digit(v[i + 21]) && digit(v[i + 22]) && digit(v[i + 23])
        && v[i + 24] == ' ' && v[i + 25] == 'I' && v[i + 26] == 'N' && v[i + 27] == 'F'
        && v[i + 28] == 'O' && v[i + 29] == ']' && v[i + 30] == ' ' && v[i + 31] == 'P'
        && v[i + 32] == 'l' && v[i + 33] == 'a' && v[i + 34] == 'y' && v[i + 35] == 'e'
        && v[i + 36] == 'r' && v[i + 37] == ' ';
    if !header_ok {
        return None;
    }
    let p = i + 38;
    let dis_ok = n - p >= 14 && v[p] == 'd' && v[p + 1] == 'i' && v[p + 2] == 's'
        && connected_tag(v, p + 3);
    let state: StateChange;
    let ns: usize;
    if dis_ok {
        state = StateChange::Disconnected;
        ns = p + 14;
    } else if connected_tag(v, p) {
        state = StateChange::Connected;
        ns = p + 11;
    } else {
        return None;
    }
    let c = find_char(v, ns, ',');
    proof {
        lemma_find_from(v@, ns as int, ',');
    }
    if c == n || c == ns {
        return None;
    }
    Some((state, ns, c))
}

/// Decides whether the tag `connected: ` stands at position `p`.
fn connected_tag(v: &Vec<char>, p: usize) -> (b: bool)
    requires
        p <= v@.len(),
    ensures
        b == connected_tag_at(v@, p as int),
{
    let n = v.len();
    n - p >= 11 && v[p] == 'c' && v[p + 1] == 'o' && v[p + 2] == 'n' && v[p + 3] == 'n'
        && v[p + 4] == 'e' && v[p + 5] == 'c' && v[p + 6] == 't' && v[p + 7] == 'e'
        && v[p + 8] == 'd' && v[p + 9] == ':' && v[p + 10] == ' '
}

/// Decides whether `c` is a decimal digit.
fn digit(c: char) -> (b: bool)
    ensures
        b == is_digit(c),
{
    c >= '0' && c <= '9'
}

/// Extracts every player connect/disconnect event of the fragment, one per
/// matching line, in line order, with the username taken verbatim (multi-
/// byte characters included) up to the comma after the tag.
pub fn find_user_state_change(lines: &str) -> (r: Vec<UserStateChange>)
    ensures
        view_events(r@) == events_of(lines@),
{
    let v = chars_of(lines);
    let n = v.len();
    let mut out: Vec<UserStateChange> = Vec::new();
    let mut i: usize = 0;
    while i < n
        invariant
            n == v@.len(),
            v@ == lines@,
            i <= n,
            events_of(lines@) == view_events(out@) + events_from(lines@, i as int),
        decreases n - i,
    {
        let is_ls = i == 0 || v[i - 1] == '\n';
        if is_ls {
            match try_pattern(&v, i) {
                Some((state, ns, c)) => {
                    let username = lines.substring_char(ns, c).to_owned();
                    let e = UserStateChange { username, state };
                    proof {
                        assert(e@ == event_at(lines@, i as int));
                        assert(view_events(out@.push(e)) =~= view_events(out@) + seq![e@]);
                        assert(view_events(out@) + seq![e@] + events_from(lines@, i + 1)
                            =~= view_events(out@) + events_from(lines@, i as int));
                    }
                    out.push(e);
                },
                None => {
                    assert(events_from(lines@, i as int) == events_from(lines@, i + 1));
                },
            }
        } else {
            assert(!line_start(lines@, i as int));
            assert(events_from(lines@, i as int) == events_from(lines@, i + 1));
        }
        i = i + 1;
    }
    proof {
        assert(view_events(out@) + events_from(lines@, n as int) =~= view_events(out@));
    }
    out
}

/// The positions, in increasing order, of the matching line starts of `s`
/// at or after position `i`.
pub open spec fn match_positions_from(s: Seq<char>, i: int) -> Seq<int>
    decreases s.len() - i,
{
    if !(0 <= i < s.len()) {
        seq![]
    } else if matched_line_start(s, i) {
        seq![i] + match_positions_from(s, i + 1)
    } else {
        match_positions_from(s, i + 1)
    }
}

/// The events of a fragment are exactly its matching line starts, one event
/// each, in strictly increasing position order — so lines earlier in the
/// fragment yield earlier events, and no matching line is passed over.
pub proof fn lemma_events_in_line_order(s: Seq<char>)
    ensures
        events_of(s).len() == match_positions_from(s, 0).len(),
        forall|j: int|
            0 <= j < match_positions_from(s, 0).len() ==> matched_line_start(
                s,
                #[trigger] match_positions_from(s, 0)[j],
            ) && events_of(s)[j] == event_at(s, match_positions_from(s, 0)[j]),
        forall|j1: int, j2: int|
            0 <= j1 < j2 < match_positions_from(s, 0).len() ==> #[trigger] match_positions_from(
                s,
                0,
            )[j1] < #[trigger] match_positions_from(s, 0)[j2],
        forall|p: int|
            0 <= p && matched_line_start(s, p) ==> match_positions_from(s, 0).contains(p),
{
    lemma_events_positions(s, 0);
}

/// The inductive heart of `lemma_events_in_line_order`, for any suffix.
proof fn lemma_events_positions(s: Seq<char>, i: int)
    requires
        0 <= i,
    ensures
        events_from(s, i).len() == match_positions_from(s, i).len(),
        forall|j: int|
            0 <= j < match_positions_from(s, i).len() ==> i <= #[trigger] match_positions_from(
                s,
                i,
            )[j] && matched_line_start(s, match_positions_from(s, i)[j]) && events_from(s, i)[j]
                == event_at(s, match_positions_from(s, i)[j]),
        forall|j1: int, j2: int|
            0 <= j1 < j2 < match_positions_from(s, i).len() ==> #[trigger] match_positions_from(
                s,
                i,
            )[j1] < #[trigger] match_positions_from(s, i)[j2],
        forall|p: int|
            i <= p && matched_line_start(s, p) ==> match_positions_from(s, i).contains(p),
    decreases s.len() - i,
{
    if !(0 <= i < s.len()) {
        assert forall|p: int| i <= p && matched_line_start(s, p) implies match_positions_from(
            s,
            i,
        ).contains(p) by {
            assert(header_at(s, p));
            assert(p + 38 <= s.len());
            assert(false);
        }
    } else {
        lemma_events_positions(s, i + 1);
        let mp = match_positions_from(s, i);
        let mprest = match_positions_from(s, i + 1);
        if matched_line_start(s, i) {
            assert(mp == seq![i] + mprest);
            assert(events_from(s, i) == seq![event_at(s, i)] + events_from(s, i + 1));
            assert forall|j: int|
                0 <= j < mp.len() implies i <= mp[j] && matched_line_start(s, mp[j])
                && events_from(s, i)[j] == event_at(s, mp[j]) by {
                if j > 0 {
                    assert(mp[j] == mprest[j - 1]);
                    assert(events_from(s, i)[j] == events_from(s, i + 1)[j - 1]);
                }
            }
            assert forall|j1: int, j2: int| 0 <= j1 < j2 < mp.len() implies mp[j1] < mp[j2] by {
                assert(mp[j2] == mprest[j2 - 1]);
                if j1 == 0 {
                    assert(mp[j1] == i);
                    assert(i + 1 <= mprest[j2 - 1]);
                } else {
                    assert(mp[j1] == mprest[j1 - 1]);
                }
            }
            assert forall|p: int| i <= p && matched_line_start(s, p) implies mp.contains(p) by {
                if p == i {
                    assert(mp[0] == p);
                } else {
                    assert(mprest.contains(p));
                    let j = choose|j: int| 0 <= j < mprest.len() && mprest[j] == p;
                    assert(mp[j + 1] == p);
                }
            }
        } else {
            assert(mp == mprest);
            assert(events_from(s, i) == events_from(s, i + 1));
            assert forall|p: int| i <= p && matched_line_start(s, p) implies mp.contains(p) by {
                if p == i {
                    assert(false);
                } else {
                    assert(mprest.contains(p));
                }
            }
        }
    }
}

} // verus!
