//! Codex sessions: session ids in file names, titles, and matching request
//! times to the time ranges of Codex session logs.
use crate::dedup::{ins_desc, sort_desc};
use crate::models::RawRecord;
use crate::text::{self, starts_with, trim};
use vstd::prelude::*;

verus! {

/// Titles longer than this many characters are cut.
pub const TITLE_MAX_CHARS: usize = 80;

/// A request may come this many seconds before a session's first event.
pub const TS_MATCH_PAD_BEFORE: i64 = 10;

/// A request may come this many seconds after a session's last event.
pub const TS_MATCH_PAD_AFTER: i64 = 60;

/// A request this many seconds before the earliest session still belongs
/// to it.
pub const TS_MATCH_LEAD_MAX: i64 = 120;

/// An ASCII hexadecimal digit.
pub open spec fn is_hex_char(c: char) -> bool {
    let u = c as u32;
    (48 <= u && u <= 57) || (97 <= u && u <= 102) || (65 <= u && u <= 70)
}

fn is_hex_exec(c: char) -> (b: bool)
    ensures
        b == is_hex_char(c),
{
    let u = c as u32;
    (48 <= u && u <= 57) || (97 <= u && u <= 102) || (65 <= u && u <= 70)
}

/// Every character is a hexadecimal digit.
pub open spec fn all_hex(s: Seq<char>) -> bool {
    forall|i: int| 0 <= i < s.len() ==> is_hex_char(#[trigger] s[i])
}

/// Whether every character of `s` is a hexadecimal digit.
pub fn is_hex(s: &str) -> (b: bool)
    ensures
        b == all_hex(s@),
{
    let v = text::chars_of(s);
    let mut i: usize = 0;
    while i < v.len()
        invariant
            v@ == s@,
            i <= v.len(),
            forall|k: int| 0 <= k < i ==> is_hex_char(#[trigger] v@[k]),
        decreases v.len() - i,
    {
        let c = v[i];
        if !is_hex_exec(c) {
            assert(v@[i as int] == c);
            assert(!is_hex_char(v@[i as int]));
            assert(!all_hex(s@));
            return false;
        }
        i = i + 1;
    }
    true
}

/// The 36 characters at `start` have the shape of a UUID: hex groups of
/// 8-4-4-4-12 joined by dashes.
pub open spec fn uuid_at(s: Seq<char>, start: int) -> bool {
    &&& 0 <= start && start + 36 <= s.len()
    &&& forall|k: int| 0 <= k < 36 ==> (if k == 8 || k == 13 || k == 18 || k == 23 {
        #[trigger] s[start + k] == '-'
    } else {
        is_hex_char(s[start + k])
    })
}

/// The first UUID in a file name, lower-cased.
pub open spec fn uuid_in(name: Seq<char>) -> Option<Seq<char>> {
    if exists|i: int| uuid_at(name, i) {
        let i = choose|i: int| uuid_at(name, i) && forall|j: int| 0 <= j < i ==> !uuid_at(name, j);
        Some(text::ascii_lower(name.subrange(i, i + 36)))
    } else {
        None
    }
}

fn uuid_at_exec(v: &Vec<char>, start: usize) -> (b: bool)
    requires
        start + 36 <= v.len(),
    ensures
        b == uuid_at(v@, start as int),
{
    let mut k: usize = 0;
    while k < 36
        invariant
            start + 36 <= v.len(),
            k <= 36,
            forall|m: int| 0 <= m < k ==> (if m == 8 || m == 13 || m == 18 || m == 23 {
                #[trigger] v@[start + m] == '-'
            } else {
                is_hex_char(v@[start + m])
            }),
        decreases 36 - k,
    {
        let c = v[start + k];
        let ok = if k == 8 || k == 13 || k == 18 || k == 23 {
            c == '-'
        } else {
            is_hex_exec(c)
        };
        if !ok {
            assert(!uuid_at(v@, start as int)) by {
                let m = k as int;
                assert(v@[start + m] == c);
            }
            return false;
        }
        k = k + 1;
    }
    true
}

fn ascii_lower_chars(v: &Vec<char>, a: usize, b: usize) -> (r: Vec<char>)
    requires
        a <= b <= v.len(),
    ensures
        r@ == text::ascii_lower(v@.subrange(a as int, b as int)),
{
    let mut r: Vec<char> = Vec::new();
    let mut i = a;
    while i < b
        invariant
            a <= i <= b <= v.len(),
            r@ == text::ascii_lower(v@.subrange(a as int, i as int)),
        decreases b - i,
    {
        let c = v[i];
        let cu = c as u32;
        let lc = if 65 <= cu && cu <= 90 {
            let u: u8 = ((c as u32) + 32) as u8;
            let l = u as char;
            assert(l == text::ascii_lower_char(c)) by {
                assert(u as u32 == (c as u32) + 32);
            }
            l
        } else {
            c
        };
        assert(lc == text::ascii_lower_char(c));
        r.push(lc);
        assert(v@.subrange(a as int, i + 1) =~= v@.subrange(a as int, i as int).push(c));
        assert(text::ascii_lower(v@.subrange(a as int, i + 1)) =~= text::ascii_lower(v@.subrange(a as int, i as int)).push(lc));
        i = i + 1;
    }
    r
}

/// The session id in a Codex log file name: the first UUID in it,
/// lower-cased.
pub fn extract_uuid_from_filename(file_name: &str) -> (r: Option<String>)
    ensures
        match uuid_in(file_name@) {
            Some(u) => r matches Some(s) && s@ == u,
            None => r is None,
        },
{
    let v = text::chars_of(file_name);
    if v.len() < 36 {
        assert(!exists|i: int| uuid_at(v@, i));
        return None;
    }
    let last = v.len() - 36;
    let mut start: usize = 0;
    while start <= last
        invariant
            v@ == file_name@,
            last == v.len() - 36,
            forall|j: int| 0 <= j < start ==> !uuid_at(v@, j),
        decreases last + 1 - start,
    {
        if uuid_at_exec(&v, start) {
            let r = ascii_lower_chars(&v, start, start + 36);
            proof {
                assert(uuid_at(v@, start as int));
                assert(exists|i: int| uuid_at(v@, i));
                assert(uuid_at(v@, start as int) && forall|j: int| 0 <= j < start ==> !uuid_at(v@, j));
                let w = choose|i: int| uuid_at(v@, i) && forall|j: int| 0 <= j < i ==> !uuid_at(v@, j);
                assert(uuid_at(v@, w) && forall|j: int| 0 <= j < w ==> !uuid_at(v@, j));
                if w < start {
                    assert(!uuid_at(v@, w));
                } else if w > start {
                    assert(!uuid_at(v@, start as int));
                }
                assert(w == start);
            }
            return Some(text::string_from_chars(&r));
        }
        if start == last {
            proof {
                assert forall|i: int| !uuid_at(v@, i) by {
                    if 0 <= i <= last {
                        assert(i < start || i == start);
                    }
                }
                assert(!exists|i: int| uuid_at(v@, i));
            }
            return None;
        }
        start = start + 1;
    }
    None
}

/// A title: the trimmed text, cut to 80 characters with `...` added when
/// longer; empty for blank text.
pub open spec fn title_of(s: Seq<char>) -> Seq<char> {
    let t = trim(s);
    if t.len() <= 80 {
        t
    } else {
        t.take(80) + "..."@
    }
}

/// A session title from a message.
pub fn truncate_title(text_in: &str) -> (r: String)
    ensures
        r@ == title_of(text_in@),
{
    let t = text::trim_vec(&text::chars_of(text_in));
    if t.len() <= TITLE_MAX_CHARS {
        return text::string_from_chars(&t);
    }
    let mut short: Vec<char> = Vec::new();
    let mut i: usize = 0;
    while i < 80
        invariant
            i <= 80 < t.len(),
            short@ == t@.take(i as int),
        decreases 80 - i,
    {
        short.push(t[i]);
        assert(t@.take(i + 1) =~= t@.take(i as int).push(t@[i as int]));
        i = i + 1;
    }
    let mut r = text::string_from_chars(&short);
    text::push_str(&mut r, "...");
    r
}

/// A path separator.
pub open spec fn is_sep(c: char) -> bool {
    c == '/' || c == '\\'
}

/// `s` without trailing separators.
pub open spec fn strip_seps(s: Seq<char>) -> Seq<char>
    decreases s.len(),
{
    if s.len() > 0 && is_sep(s.last()) {
        strip_seps(s.drop_last())
    } else {
        s
    }
}

/// The text after the last separator of `s`.
pub open spec fn after_last_sep(s: Seq<char>) -> Seq<char>
    decreases s.len(),
{
    if s.len() == 0 {
        s
    } else if is_sep(s.last()) {
        Seq::empty()
    } else {
        after_last_sep(s.drop_last()).push(s.last())
    }
}

/// The last component of a path (either separator), trimmed, without
/// trailing separators; `None` when empty.
pub open spec fn basename_of(s: Seq<char>) -> Option<Seq<char>> {
    let b = after_last_sep(strip_seps(trim(s)));
    if b.len() == 0 {
        None
    } else {
        Some(b)
    }
}

/// The last component of a path.
pub fn path_basename(value: &str) -> (r: Option<String>)
    ensures
        match basename_of(value@) {
            Some(b) => r matches Some(s) && s@ == b,
            None => r is None,
        },
{
    let t = text::trim_vec(&text::chars_of(value));
    let mut end = t.len();
    assert(t@.take(t.len() as int) =~= t@);
    while end > 0 && (t[end - 1] == '/' || t[end - 1] == '\\')
        invariant
            end <= t.len(),
            strip_seps(t@) == strip_seps(t@.take(end as int)),
        decreases end,
    {
        assert(t@.take(end as int).drop_last() =~= t@.take(end - 1));
        end = end - 1;
    }
    let ghost s = t@.take(end as int);
    assert(t@.take(t.len() as int) =~= t@);
    assert(strip_seps(s) == s);
    let mut start = end;
    while start > 0 && !(t[start - 1] == '/' || t[start - 1] == '\\')
        invariant
            start <= end <= t.len(),
            s == t@.take(end as int),
            after_last_sep(s) == after_last_sep(t@.take(start as int)) + t@.subrange(start as int, end as int),
        decreases start,
    {
        proof {
            let u = t@.take(start as int);
            assert(u.drop_last() =~= t@.take(start - 1));
            assert(u.last() == t@[start - 1]);
            assert(after_last_sep(t@.take(start - 1)).push(t@[start - 1]) + t@.subrange(start as int, end as int) =~= after_last_sep(t@.take(start - 1)) + t@.subrange(start - 1, end as int));
        }
        start = start - 1;
    }
    proof {
        let u = t@.take(start as int);
        if start > 0 {
            assert(u.last() == t@[start - 1]);
            assert(after_last_sep(u) == Seq::<char>::empty());
        } else {
            assert(u.len() == 0);
        }
        assert(Seq::<char>::empty() + t@.subrange(start as int, end as int) =~= t@.subrange(start as int, end as int));
    }
    if start == end {
        return None;
    }
    Some(text::string_from_range(&t, start, end))
}

/// A user message can serve as a title unless it is blank or is injected
/// context (`# AGENTS.md`, `<environment_context>`).
pub open spec fn is_title_message(s: Seq<char>) -> bool {
    let t = trim(s);
    t.len() > 0 && !starts_with(t, "# AGENTS.md"@) && !starts_with(t, "<environment_context>"@)
}

/// Whether a user message can serve as a session title.
pub fn is_title_candidate(message: &str) -> (b: bool)
    ensures
        b == is_title_message(message@),
{
    let t = text::trim_str(message);
    text::chars_of(t.as_str()).len() > 0 && !text::str_starts_with(t.as_str(), "# AGENTS.md") && !text::str_starts_with(t.as_str(), "<environment_context>")
}

/// The title of a session: its first user message as a title, else the
/// last component of its project directory, else empty.
pub open spec fn session_title_of(first_message: Option<Seq<char>>, project_dir: Option<Seq<char>>) -> Seq<char> {
    match first_message {
        Some(m) => title_of(m),
        None => match project_dir {
            Some(p) => match basename_of(p) {
                Some(b) => b,
                None => Seq::empty(),
            },
            None => Seq::empty(),
        },
    }
}

/// The title of a session from its first user message and its directory.
pub fn session_title(first_message: Option<&str>, project_dir: Option<&str>) -> (t: String)
    ensures
        t@ == session_title_of(
            match first_message {
                Some(m) => Some(m@),
                None => None,
            },
            match project_dir {
                Some(p) => Some(p@),
                None => None,
            },
        ),
{
    match first_message {
        Some(m) => truncate_title(m),
        None => match project_dir {
            Some(p) => match path_basename(p) {
                Some(b) => b,
                None => String::new(),
            },
            None => String::new(),
        },
    }
}

// ---------------------------------------------------------------------------
// Matching request times to session ranges
// ---------------------------------------------------------------------------

/// A Codex session: its id and the times of its first and last events.
pub type CodexRange = (String, i64, i64);

/// Sessions ordered by start time (stable: `sort_desc` on the negated start).
pub open spec fn start_key() -> spec_fn(CodexRange) -> int {
    |r: CodexRange| -(r.1 as int)
}

/// Starts do not decrease along `s`.
pub open spec fn starts_sorted(s: Seq<CodexRange>) -> bool {
    forall|i: int, j: int| 0 <= i <= j < s.len() ==> (#[trigger] s[i]).1 <= (#[trigger] s[j]).1
}

/// The sessions in order of start time, ties in their given order.
pub fn sort_sessions_by_start(v: &Vec<CodexRange>) -> (out: Vec<CodexRange>)
    ensures
        out@ == sort_desc(v@, start_key()),
{
    let mut out: Vec<CodexRange> = Vec::new();
    let mut i: usize = 0;
    while i < v.len()
        invariant
            i <= v.len(),
            out@ == sort_desc(v@.take(i as int), start_key()),
        decreases v.len() - i,
    {
        let x = (v[i].0.clone(), v[i].1, v[i].2);
        assert(x == v@[i as int]);
        let mut pos: usize = 0;
        while pos < out.len() && !(out[pos].1 > x.1)
            invariant
                pos <= out.len(),
                forall|k: int| 0 <= k < pos ==> !(start_key()(#[trigger] out@[k]) < start_key()(x)),
            decreases out.len() - pos,
        {
            pos = pos + 1;
        }
        proof {
            crate::dedup::lemma_ins_desc_at(out@, x, start_key(), pos as int);
            let u = v@.take(i + 1);
            assert(u.drop_last() =~= v@.take(i as int));
            assert(u.last() == x);
        }
        out.insert(pos, x);
        i = i + 1;
    }
    assert(v@.take(v.len() as int) =~= v@);
    out
}

/// Law: sorting sessions orders them by start.
pub proof fn lemma_sorted_sessions(v: Seq<CodexRange>)
    ensures
        starts_sorted(sort_desc(v, start_key())),
        sort_desc(v, start_key()).to_multiset() == v.to_multiset(),
{
    crate::dedup::lemma_sort_desc(v, start_key());
    let s = sort_desc(v, start_key());
    assert forall|i: int, j: int| 0 <= i <= j < s.len() implies (#[trigger] s[i]).1 <= (#[trigger] s[j]).1 by {
        if i < j {
            assert(start_key()(s[i]) >= start_key()(s[j]));
        }
    }
}

/// How many leading sessions start at or before `ts` (the partition point
/// of a start-ordered list).
pub open spec fn leading_started(s: Seq<CodexRange>, ts: i64) -> nat
    decreases s.len(),
{
    if s.len() > 0 && s[0].1 <= ts {
        1 + leading_started(s.drop_first(), ts)
    } else {
        0
    }
}

/// Request time `ts` falls in session `r`'s padded range.
pub open spec fn in_padded_range(r: CodexRange, ts: i64) -> bool {
    r.1 - TS_MATCH_PAD_BEFORE <= ts && ts <= r.2 + TS_MATCH_PAD_AFTER
}

/// How far `ts` lies outside session `r`'s range (0 inside it).
pub open spec fn range_distance(r: CodexRange, ts: i64) -> int {
    if ts < r.1 {
        r.1 - ts
    } else if ts > r.2 {
        ts - r.2
    } else {
        0
    }
}

/// The session a request at `ts` belongs to, among start-ordered sessions:
/// of the last session started by `ts` and the next one, the one whose
/// padded range holds `ts` and is nearest (the earlier on a tie); failing
/// that, the earliest session when `ts` comes at most 120 seconds before it.
pub open spec fn matched_session(s: Seq<CodexRange>, ts: i64) -> Option<int> {
    let idx = leading_started(s, ts) as int;
    let lo = if idx >= 1 { idx - 1 } else { 0 };
    let hi = if idx + 1 < s.len() { idx + 1 } else { s.len() as int };
    let first = if lo < hi && in_padded_range(s[lo], ts) { Some(lo) } else { None };
    let best = if lo + 1 < hi && in_padded_range(s[lo + 1], ts) && (first is None || range_distance(s[lo + 1], ts) < range_distance(s[lo], ts)) {
        Some(lo + 1)
    } else {
        first
    };
    if best is Some {
        best
    } else if s.len() > 0 && ts < s[0].1 && ts >= s[0].1 - TS_MATCH_LEAD_MAX {
        Some(0)
    } else {
        None
    }
}

/// Session times stay far enough from the ends of `i64` for the padding.
pub open spec fn ranges_padded_fit(s: Seq<CodexRange>) -> bool {
    forall|i: int| 0 <= i < s.len() ==> i64::MIN + TS_MATCH_LEAD_MAX <= (#[trigger] s[i]).1 && s[i].2 <= i64::MAX - TS_MATCH_PAD_AFTER
}

fn leading_started_exec(s: &Vec<CodexRange>, ts: i64) -> (n: usize)
    ensures
        n == leading_started(s@, ts),
{
    let mut n: usize = 0;
    assert(s@.skip(0) =~= s@);
    while n < s.len() && s[n].1 <= ts
        invariant
            n <= s.len(),
            leading_started(s@, ts) == n + leading_started(s@.skip(n as int), ts),
        decreases s.len() - n,
    {
        proof {
            let t = s@.skip(n as int);
            assert(t.drop_first() =~= s@.skip(n + 1));
            assert(t[0] == s@[n as int]);
        }
        n = n + 1;
    }
    proof {
        let t = s@.skip(n as int);
        if n < s.len() {
            assert(t[0] == s@[n as int]);
        }
    }
    n
}

fn padded_distance(r: &CodexRange, ts: i64) -> (d: Option<i64>)
    requires
        i64::MIN + TS_MATCH_LEAD_MAX <= r.1,
        r.2 <= i64::MAX - TS_MATCH_PAD_AFTER,
    ensures
        in_padded_range(*r, ts) <==> d is Some,
        d matches Some(x) ==> x == range_distance(*r, ts),
{
    let start = r.1;
    let end = r.2;
    if ts >= start - TS_MATCH_PAD_BEFORE && ts <= end + TS_MATCH_PAD_AFTER {
        Some(if ts < start { start - ts } else if ts > end { ts - end } else { 0 })
    } else {
        None
    }
}

/// The session (by index) that a request at `ts` belongs to.
pub fn match_codex_ts(s: &Vec<CodexRange>, ts: i64) -> (r: Option<usize>)
    requires
        ranges_padded_fit(s@),
    ensures
        match matched_session(s@, ts) {
            Some(i) => r == Some(i as usize),
            None => r is None,
        },
        r matches Some(k) ==> k < s.len() && matched_session(s@, ts) == Some(k as int),
{
    let idx = leading_started_exec(s, ts);
    let lo: usize = if idx >= 1 { idx - 1 } else { 0 };
    let hi: usize = if idx < s.len() { idx + 1 } else { s.len() };
    let mut best: Option<(usize, i64)> = None;
    if lo < hi {
        if let Some(d) = padded_distance(&s[lo], ts) {
            best = Some((lo, d));
        }
    }
    if lo + 1 < hi {
        if let Some(d) = padded_distance(&s[lo + 1], ts) {
            let better = match best {
                Some((_, bd)) => d < bd,
                None => true,
            };
            if better {
                best = Some((lo + 1, d));
            }
        }
    }
    assert(match matched_best(s@, ts, lo as int, hi as int) {
        Some(k) => best matches Some(b) && b.0 == k,
        None => best is None,
    });
    match best {
        Some((k, _)) => Some(k),
        None => {
            if s.len() > 0 {
                let start = s[0].1;
                if ts < start && ts >= start - TS_MATCH_LEAD_MAX {
                    return Some(0);
                }
            }
            None
        },
    }
}

/// The nearest padded range among sessions `lo..hi` (at most two).
pub open spec fn matched_best(s: Seq<CodexRange>, ts: i64, lo: int, hi: int) -> Option<int> {
    let first = if lo < hi && in_padded_range(s[lo], ts) { Some(lo) } else { None };
    if lo + 1 < hi && in_padded_range(s[lo + 1], ts) && (first is None || range_distance(s[lo + 1], ts) < range_distance(s[lo], ts)) {
        Some(lo + 1)
    } else {
        first
    }
}

/// The Codex session ids of CC-Switch sessions, by request time: each Codex
/// request maps its session id to the session its time matches (a later
/// request of the same session id overrides an earlier one).
pub open spec fn session_mapping(records: Seq<RawRecord>, sessions: Seq<CodexRange>) -> Map<Seq<char>, Seq<char>>
    decreases records.len(),
{
    if records.len() == 0 {
        Map::empty()
    } else {
        let m = session_mapping(records.drop_last(), sessions);
        let r = records.last();
        if r.is_codex && matched_session(sessions, r.created_at) is Some {
            m.insert(r.session_id@, sessions[matched_session(sessions, r.created_at)->Some_0].0@)
        } else {
            m
        }
    }
}

/// The map view of an association list.
pub open spec fn pairs_map(v: Seq<(String, String)>) -> Map<Seq<char>, Seq<char>> {
    Map::new(
        |k: Seq<char>| exists|i: int| 0 <= i < v.len() && (#[trigger] v[i]).0@ == k,
        |k: Seq<char>| v[choose|i: int| 0 <= i < v.len() && (#[trigger] v[i]).0@ == k].1@,
    )
}

/// No key occurs twice.
pub open spec fn pairs_distinct(v: Seq<(String, String)>) -> bool {
    forall|i: int, j: int| 0 <= i < j < v.len() ==> (#[trigger] v[i]).0@ != (#[trigger] v[j]).0@
}

/// Sorting keeps the sessions' times, so it keeps their fit.
proof fn lemma_sorted_fit(v: Seq<CodexRange>)
    requires
        ranges_padded_fit(v),
    ensures
        ranges_padded_fit(sort_desc(v, start_key())),
{
    crate::dedup::lemma_sort_desc(v, start_key());
    let s = sort_desc(v, start_key());
    assert forall|i: int| 0 <= i < s.len() implies i64::MIN + TS_MATCH_LEAD_MAX <= (#[trigger] s[i]).1 && s[i].2 <= i64::MAX - TS_MATCH_PAD_AFTER by {
        vstd::seq_lib::to_multiset_contains(s, s[i]);
        vstd::seq_lib::to_multiset_contains(v, s[i]);
        assert(s.contains(s[i]));
        let j = choose|j: int| 0 <= j < v.len() && v[j] == s[i];
        assert(v[j] == s[i]);
    }
}

/// Maps each Codex request's session id to the Codex session that its time
/// matches, the sessions taken in order of start time.
pub fn build_codex_session_mapping(records: &Vec<RawRecord>, sessions: &Vec<CodexRange>) -> (out: Vec<(String, String)>)
    requires
        ranges_padded_fit(sessions@),
    ensures
        pairs_distinct(out@),
        pairs_map(out@) == session_mapping(records@, sort_desc(sessions@, start_key())),
{
    proof {
        lemma_sorted_fit(sessions@);
    }
    let sorted = sort_sessions_by_start(sessions);
    let ghost ss = sorted@;
    let mut out: Vec<(String, String)> = Vec::new();
    let mut i: usize = 0;
    proof {
        assert(pairs_map(out@) =~= Map::<Seq<char>, Seq<char>>::empty());
    }
    while i < records.len()
        invariant
            i <= records.len(),
            ss == sorted@,
            ss == sort_desc(sessions@, start_key()),
            ranges_padded_fit(ss),
            pairs_distinct(out@),
            pairs_map(out@) == session_mapping(records@.take(i as int), ss),
        decreases records.len() - i,
    {
        proof {
            let t = records@.take(i + 1);
            assert(t.drop_last() =~= records@.take(i as int));
            assert(t.last() == records@[i as int]);
        }
        let r = &records[i];
        if r.is_codex {
            match match_codex_ts(&sorted, r.created_at) {
                Some(k) => {
                    let sid = sorted[k].0.clone();
                    upsert_pair(&mut out, r.session_id.clone(), sid);
                },
                None => {},
            }
        }
        i = i + 1;
    }
    assert(records@.take(records.len() as int) =~= records@);
    out
}

/// The request times of `ts` that fall in (or just before) a session of
/// `sessions`, each with that session's id, in the order of `ts`.
pub open spec fn ts_matches(ts: Seq<i64>, sessions: Seq<CodexRange>) -> Seq<(i64, Seq<char>)>
    decreases ts.len(),
{
    if ts.len() == 0 {
        Seq::empty()
    } else {
        let m = ts_matches(ts.drop_last(), sessions);
        match matched_session(sessions, ts.last()) {
            Some(k) => m.push((ts.last(), sessions[k].0@)),
            None => m,
        }
    }
}

/// `out` holds the pairs of `m`, ids by their views.
pub open spec fn ts_pairs_are(out: Seq<(i64, String)>, m: Seq<(i64, Seq<char>)>) -> bool {
    &&& out.len() == m.len()
    &&& forall|i: int| 0 <= i < m.len() ==> (#[trigger] out[i]).0 == m[i].0 && out[i].1@ == m[i].1
}

/// The Codex session each request time falls in (or just before), the
/// sessions taken in order of start time.
pub fn map_codex_timestamps(timestamps: &Vec<i64>, sessions: &Vec<CodexRange>) -> (out: Vec<(i64, String)>)
    requires
        ranges_padded_fit(sessions@),
    ensures
        ts_pairs_are(out@, ts_matches(timestamps@, sort_desc(sessions@, start_key()))),
{
    proof {
        lemma_sorted_fit(sessions@);
    }
    let sorted = sort_sessions_by_start(sessions);
    let ghost ss = sorted@;
    let mut out: Vec<(i64, String)> = Vec::new();
    let mut i: usize = 0;
    while i < timestamps.len()
        invariant
            i <= timestamps.len(),
            ss == sorted@,
            ranges_padded_fit(ss),
            ts_pairs_are(out@, ts_matches(timestamps@.take(i as int), ss)),
        decreases timestamps.len() - i,
    {
        proof {
            let t = timestamps@.take(i + 1);
            assert(t.drop_last() =~= timestamps@.take(i as int));
            assert(t.last() == timestamps@[i as int]);
        }
        let ts = timestamps[i];
        match match_codex_ts(&sorted, ts) {
            Some(k) => {
                let sid = sorted[k].0.clone();
                out.push((ts, sid));
            },
            None => {},
        }
        i = i + 1;
    }
    assert(timestamps@.take(timestamps.len() as int) =~= timestamps@);
    out
}

fn upsert_pair(v: &mut Vec<(String, String)>, k: String, x: String)
    requires
        pairs_distinct(old(v)@),
    ensures
        pairs_distinct(final(v)@),
        pairs_map(final(v)@) == pairs_map(old(v)@).insert(k@, x@),
{
    let ghost before = v@;
    let mut i: usize = 0;
    let mut found: Option<usize> = None;
    while i < v.len()
        invariant_except_break
            found is None,
        invariant
            v@ == before,
            i <= v.len(),
            forall|j: int| 0 <= j < i ==> (#[trigger] v@[j]).0@ != k@,
        ensures
            found matches Some(f) ==> f < v.len() && v@[f as int].0@ == k@,
            found is None ==> i == v.len(),
        decreases v.len() - i,
    {
        if text::str_eq(v[i].0.as_str(), k.as_str()) {
            found = Some(i);
            break;
        }
        i = i + 1;
    }
    if let Some(i) = found {
        let ghost kv = k@;
        let ghost xv = x@;
        assert(before[i as int].0@ == kv);
        v.set(i, (k, x));
        proof {
            let s = v@;
            assert(s[i as int].0@ == kv && s[i as int].1@ == xv);
            assert forall|a: int, b: int| 0 <= a < b < s.len() implies (#[trigger] s[a]).0@ != (#[trigger] s[b]).0@ by {
                if a != i && b != i {
                    assert(s[a] == before[a] && s[b] == before[b]);
                } else if a == i {
                    assert(s[b] == before[b]);
                    assert(before[i as int].0@ != before[b].0@);
                } else {
                    assert(s[a] == before[a]);
                    assert(before[a].0@ != before[i as int].0@);
                }
            }
            assert forall|key: Seq<char>| #[trigger] pairs_map(s).dom().contains(key) <==> pairs_map(before).insert(kv, xv).dom().contains(key) by {
                if pairs_map(before).dom().contains(key) {
                    let a = choose|a: int| 0 <= a < before.len() && (#[trigger] before[a]).0@ == key;
                    if a != i {
                        assert(s[a] == before[a]);
                    }
                }
                if pairs_map(s).dom().contains(key) {
                    let a = choose|a: int| 0 <= a < s.len() && (#[trigger] s[a]).0@ == key;
                    if a != i {
                        assert(s[a] == before[a]);
                    }
                }
                if key == kv {
                    assert(s[i as int].0@ == kv);
                }
            }
            assert forall|key: Seq<char>| #[trigger] pairs_map(s).dom().contains(key) implies pairs_map(s)[key] == pairs_map(before).insert(kv, xv)[key] by {
                let a = choose|a: int| 0 <= a < s.len() && (#[trigger] s[a]).0@ == key;
                if key == kv {
                    assert(a == i) by {
                        if a != i {
                            assert(s[a] == before[a]);
                            if a < i {
                                assert(before[a].0@ != before[i as int].0@);
                            } else {
                                assert(before[i as int].0@ != before[a].0@);
                            }
                        }
                    }
                } else {
                    assert(a != i);
                    assert(s[a] == before[a]);
                    let b = choose|b: int| 0 <= b < before.len() && (#[trigger] before[b]).0@ == key;
                    assert(b == a) by {
                        if b != a {
                            if b < a {
                                assert(before[b].0@ != before[a].0@);
                            } else {
                                assert(before[a].0@ != before[b].0@);
                            }
                        }
                    }
                }
            }
            assert(pairs_map(s) =~= pairs_map(before).insert(kv, xv));
        }
    } else {
        let ghost kv = k@;
        let ghost xv = x@;
        v.push((k, x));
        proof {
            let s = v@;
            assert forall|a: int, b: int| 0 <= a < b < s.len() implies (#[trigger] s[a]).0@ != (#[trigger] s[b]).0@ by {
                if b < before.len() {
                    assert(s[a] == before[a] && s[b] == before[b]);
                } else {
                    assert(s[a] == before[a]);
                }
            }
            assert forall|key: Seq<char>| #[trigger] pairs_map(s).dom().contains(key) <==> pairs_map(before).insert(kv, xv).dom().contains(key) by {
                if pairs_map(before).dom().contains(key) {
                    let a = choose|a: int| 0 <= a < before.len() && (#[trigger] before[a]).0@ == key;
                    assert(s[a] == before[a]);
                }
                if pairs_map(s).dom().contains(key) {
                    let a = choose|a: int| 0 <= a < s.len() && (#[trigger] s[a]).0@ == key;
                    if a < before.len() {
                        assert(s[a] == before[a]);
                    }
                }
                if key == kv {
                    assert(s[before.len() as int].0@ == kv);
                }
            }
            assert forall|key: Seq<char>| #[trigger] pairs_map(s).dom().contains(key) implies pairs_map(s)[key] == pairs_map(before).insert(kv, xv)[key] by {
                let a = choose|a: int| 0 <= a < s.len() && (#[trigger] s[a]).0@ == key;
                if key == kv {
                    assert(a == before.len()) by {
                        if a < before.len() {
                            assert(s[a] == before[a]);
                        }
                    }
                } else {
                    assert(a < before.len());
                    assert(s[a] == before[a]);
                    let b = choose|b: int| 0 <= b < before.len() && (#[trigger] before[b]).0@ == key;
                    assert(b == a) by {
                        if b != a {
                            if b < a {
                                assert(before[b].0@ != before[a].0@);
                            } else {
                                assert(before[a].0@ != before[b].0@);
                            }
                        }
                    }
                }
            }
            assert(pairs_map(s) =~= pairs_map(before).insert(kv, xv));
        }
    }
}

// ---------------------------------------------------------------------------
// Matching whole sessions by votes
// ---------------------------------------------------------------------------

/// The time range of a Codex log: its first and last event times (0 to 0
/// without events).
pub open spec fn log_range(ts: Seq<i64>) -> (i64, i64) {
    if ts.len() == 0 {
        (0, 0)
    } else {
        (ts[0], ts.last())
    }
}

/// The time range of a Codex log from its event times.
pub fn session_range(timestamps: &Vec<i64>) -> (r: (i64, i64))
    ensures
        r == log_range(timestamps@),
{
    if timestamps.len() == 0 {
        (0, 0)
    } else {
        (timestamps[0], timestamps[timestamps.len() - 1])
    }
}

/// A request time counts for a range when it lies no more than 10 seconds
/// before its start and 60 seconds after its end.
pub open spec fn votes_for(range: (i64, i64), ts: i64) -> bool {
    range.0 - 10 <= ts && ts <= range.1 + 60
}

/// How many request times count for a range.
pub open spec fn vote_count(range: (i64, i64), reqs: Seq<i64>) -> nat
    decreases reqs.len(),
{
    if reqs.len() == 0 {
        0
    } else {
        vote_count(range, reqs.drop_last()) + if votes_for(range, reqs.last()) { 1nat } else { 0nat }
    }
}

fn vote_count_exec(range: (i64, i64), reqs: &Vec<i64>) -> (n: usize)
    requires
        i64::MIN + 10 <= range.0,
        range.1 <= i64::MAX - 60,
    ensures
        n == vote_count(range, reqs@),
{
    let mut n: usize = 0;
    let mut i: usize = 0;
    while i < reqs.len()
        invariant
            i <= reqs.len(),
            i64::MIN + 10 <= range.0,
            range.1 <= i64::MAX - 60,
            n == vote_count(range, reqs@.take(i as int)),
            n <= i,
        decreases reqs.len() - i,
    {
        proof {
            let t = reqs@.take(i + 1);
            assert(t.drop_last() =~= reqs@.take(i as int));
            assert(t.last() == reqs@[i as int]);
        }
        let ts = reqs[i];
        if range.0 - 10 <= ts && ts <= range.1 + 60 {
            n = n + 1;
        }
        i = i + 1;
    }
    assert(reqs@.take(reqs.len() as int) =~= reqs@);
    n
}

/// The Codex log (by index into `ranges`) that most request times of a
/// session count for: the first with the greatest count; `None` when no
/// time counts for any. (Among logs with equal counts, any may be picked.)
pub fn best_session_by_votes(ranges: &Vec<(i64, i64)>, reqs: &Vec<i64>) -> (r: Option<usize>)
    requires
        forall|i: int| 0 <= i < ranges.len() ==> i64::MIN + 10 <= (#[trigger] ranges@[i]).0 && ranges@[i].1 <= i64::MAX - 60,
    ensures
        r is None <==> forall|i: int| 0 <= i < ranges.len() ==> vote_count(#[trigger] ranges@[i], reqs@) == 0,
        r matches Some(k) ==> k < ranges.len() && vote_count(ranges@[k as int], reqs@) > 0 && forall|i: int| 0 <= i < ranges.len() ==> vote_count(#[trigger] ranges@[i], reqs@) <= vote_count(ranges@[k as int], reqs@),
{
    let mut best: Option<(usize, usize)> = None;
    let mut i: usize = 0;
    while i < ranges.len()
        invariant
            i <= ranges.len(),
            forall|k: int| 0 <= k < ranges.len() ==> i64::MIN + 10 <= (#[trigger] ranges@[k]).0 && ranges@[k].1 <= i64::MAX - 60,
            best is None <==> forall|k: int| 0 <= k < i ==> vote_count(#[trigger] ranges@[k], reqs@) == 0,
            best matches Some(b) ==> b.0 < i && b.1 == vote_count(ranges@[b.0 as int], reqs@) && b.1 > 0 && forall|k: int| 0 <= k < i ==> vote_count(#[trigger] ranges@[k], reqs@) <= b.1,
        decreases ranges.len() - i,
    {
        let c = vote_count_exec(ranges[i], reqs);
        if c > 0 {
            let better = match best {
                Some((_, bc)) => c > bc,
                None => true,
            };
            if better {
                best = Some((i, c));
            }
        }
        i = i + 1;
    }
    match best {
        Some((k, _)) => Some(k),
        None => None,
    }
}

/// A Codex log as scanned: its title, its project directory and its event
/// times.
pub type CodexLog = (String, String, Vec<i64>);

/// The time ranges of the logs.
pub open spec fn log_ranges(logs: Seq<CodexLog>) -> Seq<(i64, i64)> {
    logs.map_values(|l: CodexLog| log_range(l.2@))
}

/// The log times stay far enough from the ends of `i64` for the vote
/// padding.
pub open spec fn logs_fit(logs: Seq<CodexLog>) -> bool {
    forall|i: int| 0 <= i < logs.len() ==> i64::MIN + 10 <= (#[trigger] log_ranges(logs)[i]).0 && log_ranges(logs)[i].1 <= i64::MAX - 60
}

/// Some request time counts for some log.
pub open spec fn has_votes(reqs: Seq<i64>, logs: Seq<CodexLog>) -> bool {
    exists|j: int| 0 <= j < logs.len() && vote_count(#[trigger] log_ranges(logs)[j], reqs) > 0
}

/// `m` names the title and project of a log that most of `reqs` count for.
pub open spec fn voted_log(m: (String, String, String), id: Seq<char>, reqs: Seq<i64>, logs: Seq<CodexLog>) -> bool {
    &&& m.0@ == id
    &&& exists|j: int| #![trigger logs[j]] 0 <= j < logs.len() && m.1@ == logs[j].0@ && m.2@ == logs[j].1@
        && vote_count(log_ranges(logs)[j], reqs) > 0
        && forall|i: int| 0 <= i < logs.len() ==> vote_count(#[trigger] log_ranges(logs)[i], reqs) <= vote_count(log_ranges(logs)[j], reqs)
}

/// Title and project of sessions known only by their request times: for
/// each session (in order) that some of its times count for, the log that
/// most of them count for. Sessions no time counts for are left out.
pub fn match_codex_sessions_by_time(requests: &Vec<(String, Vec<i64>)>, logs: &Vec<CodexLog>) -> (out: Vec<(String, String, String)>)
    requires
        logs_fit(logs@),
    ensures
        ({
            let hit = requests@.filter(|r: (String, Vec<i64>)| has_votes(r.1@, logs@));
            &&& out@.len() == hit.len()
            &&& forall|k: int| 0 <= k < hit.len() ==> voted_log(#[trigger] out@[k], hit[k].0@, hit[k].1@, logs@)
        }),
{
    let mut ranges: Vec<(i64, i64)> = Vec::new();
    let mut j: usize = 0;
    while j < logs.len()
        invariant
            j <= logs.len(),
            ranges@ == log_ranges(logs@).take(j as int),
        decreases logs.len() - j,
    {
        let r = session_range(&logs[j].2);
        ranges.push(r);
        assert(log_ranges(logs@).take(j + 1) =~= log_ranges(logs@).take(j as int).push(log_ranges(logs@)[j as int]));
        j = j + 1;
    }
    assert(log_ranges(logs@).take(logs.len() as int) =~= log_ranges(logs@));
    let ghost f = |r: (String, Vec<i64>)| has_votes(r.1@, logs@);
    let mut out: Vec<(String, String, String)> = Vec::new();
    let mut i: usize = 0;
    while i < requests.len()
        invariant
            i <= requests.len(),
            ranges@ == log_ranges(logs@),
            ranges@.len() == logs@.len(),
            logs_fit(logs@),
            f == (|r: (String, Vec<i64>)| has_votes(r.1@, logs@)),
            ({
                let hit = requests@.take(i as int).filter(f);
                &&& out@.len() == hit.len()
                &&& forall|k: int| 0 <= k < hit.len() ==> voted_log(#[trigger] out@[k], hit[k].0@, hit[k].1@, logs@)
            }),
        decreases requests.len() - i,
    {
        let ghost before = out@;
        let ghost g = requests@.take(i as int).filter(f);
        proof {
            let t = requests@.take(i + 1);
            assert(t.drop_last() =~= requests@.take(i as int));
            assert(t.last() == requests@[i as int]);
            reveal_with_fuel(Seq::<_>::filter, 1);
        }
        let best = best_session_by_votes(&ranges, &requests[i].1);
        match best {
            Some(k) => {
                let m = (requests[i].0.clone(), logs[k].0.clone(), logs[k].1.clone());
                out.push(m);
                proof {
                    assert(vote_count(log_ranges(logs@)[k as int], requests@[i as int].1@) > 0);
                    assert(f(requests@[i as int]));
                    let h = requests@.take(i + 1).filter(f);
                    assert(h == g.push(requests@[i as int]));
                    assert(logs@[k as int] == logs@[k as int]);
                    assert(voted_log(m, requests@[i as int].0@, requests@[i as int].1@, logs@));
                    assert forall|q: int| 0 <= q < h.len() implies voted_log(#[trigger] out@[q], h[q].0@, h[q].1@, logs@) by {
                        if q < g.len() {
                            assert(out@[q] == before[q]);
                        }
                    }
                }
            },
            None => {
                proof {
                    assert(!f(requests@[i as int]));
                }
            },
        }
        i = i + 1;
    }
    assert(requests@.take(requests.len() as int) =~= requests@);
    out
}

} // verus!
