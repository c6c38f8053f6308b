//! Session lists: picking the sessions a page shows, reading the cached
//! "title|project" text, and totalling a session over the request logs it
//! was merged from.
use crate::dedup::{lemma_ins_desc_at, sort_desc};
use crate::hooks::opt_view;
use crate::models::SessionBreakdown;
use crate::text::{self, strictly_sorted, views};
use vstd::prelude::*;

verus! {

/// The most sessions a page lists.
pub const SESSION_PAGE_MAX: usize = 20;

// ---------------------------------------------------------------------------
// The cached "title|project" text
// ---------------------------------------------------------------------------

/// `i` is the first `|` of `s`.
pub open spec fn first_bar_at(s: Seq<char>, i: int) -> bool {
    &&& 0 <= i < s.len()
    &&& s[i] == '|'
    &&& forall|k: int| 0 <= k < i ==> s[k] != '|'
}

/// A cached title text split at its first `|` into title and project (the
/// project is empty when there is no `|`).
pub open spec fn split_bar(s: Seq<char>) -> (Seq<char>, Seq<char>) {
    if exists|i: int| first_bar_at(s, i) {
        let i = choose|i: int| first_bar_at(s, i);
        (s.take(i), s.skip(i + 1))
    } else {
        (s, Seq::empty())
    }
}

proof fn lemma_first_bar_unique(s: Seq<char>, i: int)
    requires
        first_bar_at(s, i),
    ensures
        split_bar(s) == (s.take(i), s.skip(i + 1)),
{
    let j = choose|j: int| first_bar_at(s, j);
    assert(first_bar_at(s, j));
    if j < i {
        assert(s[j] != '|');
    } else if i < j {
        assert(s[i] != '|');
    }
}

/// Splits a cached title text at its first `|` (what `splitn(2, '|')`
/// gives, with an empty project when there is no `|`).
pub fn split_title_text(raw: &str) -> (r: (String, String))
    ensures
        r.0@ == split_bar(raw@).0,
        r.1@ == split_bar(raw@).1,
{
    let v = text::chars_of(raw);
    let mut i: usize = 0;
    while i < v.len()
        invariant
            i <= v.len(),
            v@ == raw@,
            forall|k: int| 0 <= k < i ==> v@[k] != '|',
        decreases v.len() - i,
    {
        if v[i] == '|' {
            proof {
                lemma_first_bar_unique(raw@, i as int);
            }
            let title = text::string_from_range(&v, 0, i);
            let project = text::string_from_range(&v, i + 1, v.len());
            assert(raw@.subrange(0, i as int) =~= raw@.take(i as int));
            assert(raw@.subrange(i + 1, v.len() as int) =~= raw@.skip(i + 1));
            return (title, project);
        }
        i = i + 1;
    }
    (text::string_from_range(&v, 0, v.len()), String::new())
}

/// A project is a real directory when it holds a `/` or a `\`.
pub open spec fn project_is_path(p: Seq<char>) -> bool {
    p.len() > 0 && (p.contains('/') || p.contains('\\'))
}

/// The title sources whose cached answers are final.
pub open spec fn known_title_source(s: Seq<char>) -> bool {
    s == "claudecode"@ || s == "opencode"@ || s == "codex"@ || s == "grokbuild"@
}

/// A cached title counts when its project is a real directory, or when its
/// source is known and its title is not empty.
pub open spec fn cache_hit(raw: Seq<char>, source: Seq<char>) -> bool {
    project_is_path(split_bar(raw).1) || (known_title_source(source) && split_bar(raw).0.len() > 0)
}

fn has_char(v: &Vec<char>, c: char) -> (b: bool)
    ensures
        b == v@.contains(c),
{
    let mut i: usize = 0;
    while i < v.len()
        invariant
            i <= v.len(),
            forall|k: int| 0 <= k < i ==> v@[k] != c,
        decreases v.len() - i,
    {
        if v[i] == c {
            assert(v@[i as int] == c);
            return true;
        }
        i = i + 1;
    }
    false
}

/// The title and project of a cached entry when it counts as a hit (see
/// `cache_hit`); `None` sends the session to the title providers again.
pub fn cached_title_hit(raw: &str, source: &str) -> (r: Option<(String, String)>)
    ensures
        cache_hit(raw@, source@) ==> (r matches Some(p) && p.0@ == split_bar(raw@).0 && p.1@ == split_bar(raw@).1),
        !cache_hit(raw@, source@) ==> r is None,
{
    let (title, project) = split_title_text(raw);
    let pv = text::chars_of(project.as_str());
    let project_valid = pv.len() > 0 && (has_char(&pv, '/') || has_char(&pv, '\\'));
    let known = text::str_eq(source, "claudecode") || text::str_eq(source, "opencode") || text::str_eq(source, "codex")
        || text::str_eq(source, "grokbuild");
    let title_len = text::chars_of(title.as_str()).len();
    if project_valid || (known && title_len > 0) {
        Some((title, project))
    } else {
        None
    }
}

/// The text cached for a resolved title: `title|project`.
pub fn title_text(title: &str, project: &str) -> (r: String)
    ensures
        r@ == title@ + seq!['|'] + project@,
{
    let mut r = text::owned(title);
    text::push_str(&mut r, "|");
    proof {
        reveal_strlit("|");
    }
    text::push_str(&mut r, project);
    r
}

// ---------------------------------------------------------------------------
// The sessions a page lists
// ---------------------------------------------------------------------------

/// A cached title entry: session id, "title|project" text, source tag.
pub type CachedTitle = (String, String, String);

/// The cached text and source of a session id (the first entry for it).
pub open spec fn cached_of(cached: Seq<CachedTitle>, id: Seq<char>) -> Option<(Seq<char>, Seq<char>)>
    decreases cached.len(),
{
    if cached.len() == 0 {
        None
    } else if cached[0].0@ == id {
        Some((cached[0].1@, cached[0].2@))
    } else {
        cached_of(cached.drop_first(), id)
    }
}

/// Whether a session is listed: one whose cache entry has no source is
/// dropped when it made at most one request; with a project chosen, only the
/// sessions cached with that project stay.
pub open spec fn session_listed(s: SessionBreakdown, c: Option<(Seq<char>, Seq<char>)>, project: Option<Seq<char>>) -> bool {
    match c {
        Some(e) => !(s.requests <= 1 && e.1.len() == 0) && (project matches Some(p) ==> split_bar(e.0).1 == p),
        None => project is None,
    }
}

/// The positions of `n` sessions.
pub open spec fn positions(n: nat) -> Seq<usize> {
    Seq::new(n, |i: int| i as usize)
}

/// Sessions by position, most requests first (ties keep their order).
pub open spec fn by_requests(all: Seq<SessionBreakdown>) -> spec_fn(usize) -> int {
    |i: usize| all[i as int].requests as int
}

/// The positions of the listed sessions, most requests first.
pub open spec fn listed_order(all: Seq<SessionBreakdown>, cached: Seq<CachedTitle>, project: Option<Seq<char>>) -> Seq<usize> {
    sort_desc(positions(all.len()), by_requests(all)).filter(
        |i: usize| session_listed(all[i as int], cached_of(cached, all[i as int].session_id@), project),
    )
}

/// The projects named by the cache, non-empty, as a set.
pub open spec fn cached_project(cached: Seq<CachedTitle>, x: Seq<char>) -> bool {
    x.len() > 0 && exists|k: int| 0 <= k < cached.len() && split_bar((#[trigger] cached[k]).1@).1 == x
}

fn cached_lookup(cached: &Vec<CachedTitle>, id: &str) -> (r: Option<(String, String)>)
    ensures
        match cached_of(cached@, id@) {
            Some(e) => r matches Some(p) && p.0@ == e.0 && p.1@ == e.1,
            None => r is None,
        },
{
    let mut i: usize = 0;
    assert(cached@.skip(0) =~= cached@);
    while i < cached.len()
        invariant
            i <= cached.len(),
            cached_of(cached@, id@) == cached_of(cached@.skip(i as int), id@),
        decreases cached.len() - i,
    {
        let ghost rest = cached@.skip(i as int);
        assert(rest[0] == cached@[i as int]);
        assert(rest.drop_first() =~= cached@.skip(i + 1));
        if text::str_eq(cached[i].0.as_str(), id) {
            return Some((cached[i].1.clone(), cached[i].2.clone()));
        }
        i = i + 1;
    }
    assert(cached@.skip(i as int).len() == 0);
    None
}

fn listed_exec(s: &SessionBreakdown, cached: &Vec<CachedTitle>, project: Option<&str>) -> (b: bool)
    ensures
        b == session_listed(*s, cached_of(cached@, s.session_id@), match project { Some(p) => Some(p@), None => None }),
{
    match cached_lookup(cached, s.session_id.as_str()) {
        Some((raw, source)) => {
            if s.requests <= 1 && text::chars_of(source.as_str()).len() == 0 {
                return false;
            }
            match project {
                Some(p) => {
                    let (_, proj) = split_title_text(raw.as_str());
                    text::str_eq(proj.as_str(), p)
                },
                None => true,
            }
        },
        None => project.is_none(),
    }
}

/// Positions of `all`, most requests first, ties in their order.
fn order_by_requests(all: &Vec<SessionBreakdown>) -> (out: Vec<usize>)
    ensures
        out@ == sort_desc(positions(all.len() as nat), by_requests(all@)),
        forall|k: int| 0 <= k < out@.len() ==> out@[k] < all.len(),
{
    let ghost key = by_requests(all@);
    let mut out: Vec<usize> = Vec::new();
    let mut i: usize = 0;
    while i < all.len()
        invariant
            i <= all.len(),
            key == by_requests(all@),
            out@ == sort_desc(positions(all.len() as nat).take(i as int), key),
            forall|k: int| 0 <= k < out@.len() ==> out@[k] < i,
        decreases all.len() - i,
    {
        let mut pos: usize = 0;
        while pos < out.len() && !(all[out[pos]].requests < all[i].requests)
            invariant
                i < all.len(),
                key == by_requests(all@),
                pos <= out.len(),
                forall|k: int| 0 <= k < out@.len() ==> out@[k] < i,
                forall|k: int| 0 <= k < pos ==> !(key(#[trigger] out@[k]) < key(i)),
            decreases out.len() - pos,
        {
            pos = pos + 1;
        }
        proof {
            lemma_ins_desc_at(out@, i, key, pos as int);
            let u = positions(all.len() as nat).take(i + 1);
            assert(u.drop_last() =~= positions(all.len() as nat).take(i as int));
            assert(u.last() == i);
        }
        out.insert(pos, i);
        i = i + 1;
    }
    assert(positions(all.len() as nat).take(all.len() as int) =~= positions(all.len() as nat));
    out
}

/// The sessions a page lists and the projects it offers. The sessions are
/// the first 20 (by position in `all`) of those listed (see
/// `session_listed`), most requests first; the projects are the distinct
/// non-empty projects of the cache, in increasing order.
pub fn select_sessions(all: &Vec<SessionBreakdown>, cached: &Vec<CachedTitle>, project: Option<&str>) -> (r: (Vec<String>, Vec<usize>))
    ensures
        strictly_sorted(views(r.0@)),
        forall|x: Seq<char>| views(r.0@).contains(x) <==> cached_project(cached@, x),
        ({
            let order = listed_order(all@, cached@, match project { Some(p) => Some(p@), None => None });
            r.1@ == order.take(if order.len() < 20 { order.len() as int } else { 20 })
        }),
{
    let ghost pr = match project { Some(p) => Some(p@), None => None };
    let ghost f = |i: usize| session_listed(all@[i as int], cached_of(cached@, all@[i as int].session_id@), pr);
    let order = order_by_requests(all);
    let mut listed: Vec<usize> = Vec::new();
    let mut i: usize = 0;
    while i < order.len()
        invariant
            i <= order.len(),
            forall|k: int| 0 <= k < order@.len() ==> order@[k] < all.len(),
            f == (|i: usize| session_listed(all@[i as int], cached_of(cached@, all@[i as int].session_id@), pr)),
            pr == match project { Some(p) => Some(p@), None => None },
            listed@ == order@.take(i as int).filter(f),
        decreases order.len() - i,
    {
        proof {
            let t = order@.take(i + 1);
            assert(t.drop_last() =~= order@.take(i as int));
            assert(t.last() == order@[i as int]);
            reveal_with_fuel(Seq::<_>::filter, 1);
        }
        if listed_exec(&all[order[i]], cached, project) {
            listed.push(order[i]);
        }
        i = i + 1;
    }
    assert(order@.take(order.len() as int) =~= order@);
    let n: usize = if listed.len() < SESSION_PAGE_MAX { listed.len() } else { SESSION_PAGE_MAX };
    let mut top: Vec<usize> = Vec::new();
    let mut k: usize = 0;
    while k < n
        invariant
            n <= listed.len(),
            k <= n,
            top@ == listed@.take(k as int),
        decreases n - k,
    {
        top.push(listed[k]);
        assert(listed@.take(k + 1) =~= listed@.take(k as int).push(listed@[k as int]));
        k = k + 1;
    }
    let mut projects: Vec<String> = Vec::new();
    let mut j: usize = 0;
    while j < cached.len()
        invariant
            j <= cached.len(),
            forall|x: Seq<char>| views(projects@).contains(x) <==> (x.len() > 0 && exists|m: int| 0 <= m < j && split_bar((#[trigger] cached@[m]).1@).1 == x),
        decreases cached.len() - j,
    {
        let (_, proj) = split_title_text(cached[j].1.as_str());
        let ghost before = views(projects@);
        if text::chars_of(proj.as_str()).len() > 0 {
            projects.push(proj);
            proof {
                assert(views(projects@) =~= before.push(split_bar(cached@[j as int].1@).1));
            }
        }
        proof {
            assert forall|x: Seq<char>| views(projects@).contains(x) <==> (x.len() > 0 && exists|m: int| 0 <= m < j + 1 && split_bar((#[trigger] cached@[m]).1@).1 == x) by {
                if views(projects@).contains(x) && !before.contains(x) {
                    assert(split_bar(cached@[j as int].1@).1 == x);
                }
                if x.len() > 0 && exists|m: int| 0 <= m < j + 1 && split_bar((#[trigger] cached@[m]).1@).1 == x {
                    let m = choose|m: int| 0 <= m < j + 1 && split_bar((#[trigger] cached@[m]).1@).1 == x;
                    if m < j {
                        assert(before.contains(x));
                        let q = choose|q: int| 0 <= q < before.len() && before[q] == x;
                        assert(views(projects@)[q] == x);
                    } else {
                        assert(views(projects@)[views(projects@).len() - 1] == x);
                    }
                }
            }
        }
        j = j + 1;
    }
    let sorted = text::sorted_unique(&projects);
    (sorted, top)
}

// ---------------------------------------------------------------------------
// A session totalled over the request logs merged into it
// ---------------------------------------------------------------------------

/// The value kept for `id` in an association list (its first entry).
pub open spec fn lookup<T>(m: Seq<(String, T)>, id: Seq<char>) -> Option<T>
    decreases m.len(),
{
    if m.len() == 0 {
        None
    } else if m[0].0@ == id {
        Some(m[0].1)
    } else {
        lookup(m.drop_first(), id)
    }
}

/// The position of `id`'s first entry in an association list.
pub fn find_key<T>(m: &Vec<(String, T)>, id: &str) -> (r: Option<usize>)
    ensures
        r matches Some(k) ==> k < m.len() && lookup(m@, id@) == Some(m@[k as int].1),
        r is None ==> lookup(m@, id@) is None,
{
    let mut i: usize = 0;
    assert(m@.skip(0) =~= m@);
    while i < m.len()
        invariant
            i <= m.len(),
            lookup(m@, id@) == lookup(m@.skip(i as int), id@),
        decreases m.len() - i,
    {
        let ghost rest = m@.skip(i as int);
        assert(rest[0] == m@[i as int]);
        assert(rest.drop_first() =~= m@.skip(i + 1));
        if text::str_eq(m[i].0.as_str(), id) {
            return Some(i);
        }
        i = i + 1;
    }
    None
}

/// The session row of `id` (its last row, as a map built from the list
/// keeps it).
pub open spec fn found(all: Seq<SessionBreakdown>, id: Seq<char>) -> Option<SessionBreakdown>
    decreases all.len(),
{
    if all.len() == 0 {
        None
    } else if all.last().session_id@ == id {
        Some(all.last())
    } else {
        found(all.drop_last(), id)
    }
}

fn found_exec(all: &Vec<SessionBreakdown>, id: &str) -> (r: Option<usize>)
    ensures
        r matches Some(k) ==> k < all.len() && found(all@, id@) == Some(all@[k as int]),
        r is None ==> found(all@, id@) is None,
{
    let mut i: usize = all.len();
    assert(all@.take(all.len() as int) =~= all@);
    while i > 0
        invariant
            i <= all.len(),
            found(all@, id@) == found(all@.take(i as int), id@),
        decreases i,
    {
        let ghost t = all@.take(i as int);
        assert(t.last() == all@[i - 1]);
        assert(t.drop_last() =~= all@.take(i - 1));
        if text::str_eq(all[i - 1].session_id.as_str(), id) {
            return Some(i - 1);
        }
        i = i - 1;
    }
    None
}

/// The sum of a field over the rows of `ids` (a missing row adds 0).
pub open spec fn sum_field(all: Seq<SessionBreakdown>, ids: Seq<String>, f: spec_fn(SessionBreakdown) -> int) -> int
    decreases ids.len(),
{
    if ids.len() == 0 {
        0
    } else {
        sum_field(all, ids.drop_last(), f) + match found(all, ids.last()@) {
            Some(s) => f(s),
            None => 0,
        }
    }
}

pub open spec fn f_requests() -> spec_fn(SessionBreakdown) -> int { |s: SessionBreakdown| s.requests as int }
pub open spec fn f_input() -> spec_fn(SessionBreakdown) -> int { |s: SessionBreakdown| s.input_tokens as int }
pub open spec fn f_output() -> spec_fn(SessionBreakdown) -> int { |s: SessionBreakdown| s.output_tokens as int }
pub open spec fn f_cache_read() -> spec_fn(SessionBreakdown) -> int { |s: SessionBreakdown| s.cache_read as int }
pub open spec fn f_cache_creation() -> spec_fn(SessionBreakdown) -> int { |s: SessionBreakdown| s.cache_creation as int }

/// The earliest first time of the rows of `ids`; `i64::MAX` when none has a
/// row.
pub open spec fn first_time(all: Seq<SessionBreakdown>, ids: Seq<String>) -> i64
    decreases ids.len(),
{
    if ids.len() == 0 {
        i64::MAX
    } else {
        let m = first_time(all, ids.drop_last());
        match found(all, ids.last()@) {
            Some(s) => if s.first_at < m { s.first_at } else { m },
            None => m,
        }
    }
}

/// The latest last time of the rows of `ids`, at least 0.
pub open spec fn last_time(all: Seq<SessionBreakdown>, ids: Seq<String>) -> i64
    decreases ids.len(),
{
    if ids.len() == 0 {
        0
    } else {
        let m = last_time(all, ids.drop_last());
        match found(all, ids.last()@) {
            Some(s) => if s.last_at > m { s.last_at } else { m },
            None => m,
        }
    }
}

/// The widest context of `ids` (a missing one counts 0), at least 0.
pub open spec fn widest(ctx: Seq<(String, i64)>, ids: Seq<String>) -> i64
    decreases ids.len(),
{
    if ids.len() == 0 {
        0
    } else {
        let m = widest(ctx, ids.drop_last());
        let c = match lookup(ctx, ids.last()@) {
            Some(c) => c,
            None => 0,
        };
        if c > m { c } else { m }
    }
}

/// The request times of `ids`, one id after another.
pub open spec fn all_times(ts: Seq<(String, Vec<i64>)>, ids: Seq<String>) -> Seq<i64>
    decreases ids.len(),
{
    if ids.len() == 0 {
        Seq::empty()
    } else {
        all_times(ts, ids.drop_last()) + match lookup(ts, ids.last()@) {
            Some(v) => v@,
            None => Seq::empty(),
        }
    }
}

/// The first value that `ids` (in order) find in a string map.
pub open spec fn first_found(m: Seq<(String, String)>, ids: Seq<String>) -> Option<Seq<char>>
    decreases ids.len(),
{
    if ids.len() == 0 {
        None
    } else {
        match first_found(m, ids.drop_last()) {
            Some(x) => Some(x),
            None => match lookup(m, ids.last()@) {
                Some(v) => Some(v@),
                None => None,
            },
        }
    }
}

/// The five sums stay within `i64` at every step over `ids`.
pub open spec fn sums_fit(all: Seq<SessionBreakdown>, ids: Seq<String>) -> bool {
    forall|k: int| #![trigger ids.take(k)] 0 <= k <= ids.len() ==> {
        let t = ids.take(k);
        &&& i64::MIN <= sum_field(all, t, f_requests()) <= i64::MAX
        &&& i64::MIN <= sum_field(all, t, f_input()) <= i64::MAX
        &&& i64::MIN <= sum_field(all, t, f_output()) <= i64::MAX
        &&& i64::MIN <= sum_field(all, t, f_cache_read()) <= i64::MAX
        &&& i64::MIN <= sum_field(all, t, f_cache_creation()) <= i64::MAX
    }
}

/// A session's totals over the ids merged into it.
#[derive(Debug)]
pub struct SessionTotals {
    pub requests: i64,
    pub input_tokens: i64,
    pub output_tokens: i64,
    pub cache_read: i64,
    pub cache_creation: i64,
    pub first_at: i64,
    pub last_at: i64,
    pub max_context: i64,
    pub timestamps: Vec<i64>,
    pub title: Option<String>,
    pub project: Option<String>,
    pub source_type: Option<String>,
    pub source_path: Option<String>,
}

/// The ids whose rows make up session `req_id`: the request-log ids that
/// the Codex mapping `fwd` sends to it, in the mapping's order, or `req_id`
/// itself when none is. The flag says whether the session is a merged Codex
/// session (some id maps to it).
pub open spec fn merged_ids(req_id: Seq<char>, fwd: Seq<(String, String)>) -> Seq<String> {
    fwd.filter(|p: (String, String)| p.1@ == req_id).map_values(|p: (String, String)| p.0)
}

/// The ids merged into `req_id` and whether it is a merged Codex session.
pub fn codex_original_ids(req_id: &String, fwd: &Vec<(String, String)>) -> (r: (Vec<String>, bool))
    ensures
        merged_ids(req_id@, fwd@).len() > 0 ==> (r.1 && text::views(r.0@) == text::views(merged_ids(req_id@, fwd@))),
        merged_ids(req_id@, fwd@).len() == 0 ==> (!r.1 && text::views(r.0@) == seq![req_id@]),
{
    let ghost f = |p: (String, String)| p.1@ == req_id@;
    let mut ids: Vec<String> = Vec::new();
    let mut i: usize = 0;
    while i < fwd.len()
        invariant
            i <= fwd.len(),
            f == (|p: (String, String)| p.1@ == req_id@),
            text::views(ids@) == text::views(fwd@.take(i as int).filter(f).map_values(|p: (String, String)| p.0)),
        decreases fwd.len() - i,
    {
        let ghost before = ids@;
        proof {
            let t = fwd@.take(i + 1);
            assert(t.drop_last() =~= fwd@.take(i as int));
            assert(t.last() == fwd@[i as int]);
            reveal_with_fuel(Seq::<_>::filter, 1);
        }
        if text::str_eq(fwd[i].1.as_str(), req_id.as_str()) {
            let k = fwd[i].0.clone();
            ids.push(k);
            proof {
                let h = |p: (String, String)| p.0;
                let g = fwd@.take(i as int).filter(f);
                assert(fwd@.take(i + 1).filter(f) == g.push(fwd@[i as int]));
                assert(g.push(fwd@[i as int]).map_values(h) =~= g.map_values(h).push(fwd@[i as int].0));
                assert(text::views(ids@) =~= text::views(before).push(k@));
                assert(text::views(g.map_values(h).push(fwd@[i as int].0)) =~= text::views(g.map_values(h)).push(k@));
            }
            assert(text::views(ids@) =~= text::views(fwd@.take(i + 1).filter(f).map_values(|p: (String, String)| p.0)));
        } else {
            assert(text::views(ids@) =~= text::views(fwd@.take(i + 1).filter(f).map_values(|p: (String, String)| p.0)));
        }
        i = i + 1;
    }
    assert(fwd@.take(fwd.len() as int) =~= fwd@);
    if ids.len() == 0 {
        let mut one: Vec<String> = Vec::new();
        one.push(req_id.clone());
        assert(text::views(one@) =~= seq![req_id@]);
        (one, false)
    } else {
        (ids, true)
    }
}

/// `t` is the total of session `ids` with the given maps, or `None` when
/// those rows made no request.
pub open spec fn totals_are(
    t: Option<SessionTotals>,
    all: Seq<SessionBreakdown>,
    ids: Seq<String>,
    codex_merged: bool,
    ctx: Seq<(String, i64)>,
    ts: Seq<(String, Vec<i64>)>,
    titles: Seq<(String, String)>,
    projects: Seq<(String, String)>,
    sources: Seq<(String, String)>,
    paths: Seq<(String, String)>,
    req_id: Seq<char>,
) -> bool {
    if sum_field(all, ids, f_requests()) == 0 {
        t is None
    } else {
        t matches Some(x) && {
            &&& x.requests == sum_field(all, ids, f_requests())
            &&& x.input_tokens == sum_field(all, ids, f_input())
            &&& x.output_tokens == sum_field(all, ids, f_output())
            &&& x.cache_read == sum_field(all, ids, f_cache_read())
            &&& x.cache_creation == sum_field(all, ids, f_cache_creation())
            &&& x.first_at == (if first_time(all, ids) == i64::MAX { 0 } else { first_time(all, ids) })
            &&& x.last_at == last_time(all, ids)
            &&& x.max_context == widest(ctx, ids)
            &&& x.timestamps@ == all_times(ts, ids)
            &&& opt_view(x.title) == first_found(titles, ids)
            &&& opt_view(x.project) == first_found(projects, ids)
            &&& opt_view(x.source_type) == (if codex_merged { Some("codex"@) } else { first_found(sources, ids) })
            &&& opt_view(x.source_path) == match first_found(paths, ids) {
                Some(p) => Some(p),
                None => match lookup(paths, req_id) {
                    Some(p) => Some(p@),
                    None => None,
                },
            }
        }
    }
}

/// A session's totals over the ids merged into it: summed requests and
/// tokens, the earliest first and latest last time, the widest context, all
/// request times, and the first title, project and source any id has
/// (`codex` for a merged Codex session); the source path is the first any
/// id has, else that of `req_id`. `None` when the rows made no request.
pub fn session_totals(
    all: &Vec<SessionBreakdown>,
    ids: &Vec<String>,
    codex_merged: bool,
    ctx: &Vec<(String, i64)>,
    ts: &Vec<(String, Vec<i64>)>,
    titles: &Vec<(String, String)>,
    projects: &Vec<(String, String)>,
    sources: &Vec<(String, String)>,
    paths: &Vec<(String, String)>,
    req_id: &str,
) -> (r: Option<SessionTotals>)
    requires
        sums_fit(all@, ids@),
    ensures
        totals_are(r, all@, ids@, codex_merged, ctx@, ts@, titles@, projects@, sources@, paths@, req_id@),
{
    let mut requests: i64 = 0;
    let mut input: i64 = 0;
    let mut output: i64 = 0;
    let mut cache_read: i64 = 0;
    let mut cache_creation: i64 = 0;
    let mut first_at: i64 = i64::MAX;
    let mut last_at: i64 = 0;
    let mut max_ctx: i64 = 0;
    let mut times: Vec<i64> = Vec::new();
    let mut title: Option<String> = None;
    let mut project: Option<String> = None;
    let mut source: Option<String> = None;
    let mut path: Option<String> = None;
    let mut i: usize = 0;
    while i < ids.len()
        invariant
            i <= ids.len(),
            sums_fit(all@, ids@),
            ({
                let t = ids@.take(i as int);
                &&& requests == sum_field(all@, t, f_requests())
                &&& input == sum_field(all@, t, f_input())
                &&& output == sum_field(all@, t, f_output())
                &&& cache_read == sum_field(all@, t, f_cache_read())
                &&& cache_creation == sum_field(all@, t, f_cache_creation())
                &&& first_at == first_time(all@, t)
                &&& last_at == last_time(all@, t)
                &&& max_ctx == widest(ctx@, t)
                &&& times@ == all_times(ts@, t)
                &&& opt_view(title) == first_found(titles@, t)
                &&& opt_view(project) == first_found(projects@, t)
                &&& opt_view(source) == first_found(sources@, t)
                &&& opt_view(path) == first_found(paths@, t)
            }),
        decreases ids.len() - i,
    {
        let ghost t = ids@.take(i + 1);
        proof {
            assert(t.drop_last() =~= ids@.take(i as int));
            assert(t.last() == ids@[i as int]);
            let k = i + 1;
            assert(ids@.take(k) == t);
        }
        let id = ids[i].as_str();
        match found_exec(all, id) {
            Some(k) => {
                let s = &all[k];
                requests = requests + s.requests;
                input = input + s.input_tokens;
                output = output + s.output_tokens;
                cache_read = cache_read + s.cache_read;
                cache_creation = cache_creation + s.cache_creation;
                if s.first_at < first_at {
                    first_at = s.first_at;
                }
                if s.last_at > last_at {
                    last_at = s.last_at;
                }
            },
            None => {},
        }
        let c: i64 = match find_key(ctx, id) {
            Some(k) => ctx[k].1,
            None => 0,
        };
        if c > max_ctx {
            max_ctx = c;
        }
        match find_key(ts, id) {
            Some(k) => {
                let ghost before = times@;
                let mut j: usize = 0;
                while j < ts[k].1.len()
                    invariant
                        k < ts.len(),
                        j <= ts@[k as int].1.len(),
                        times@ == before + ts@[k as int].1@.take(j as int),
                    decreases ts@[k as int].1.len() - j,
                {
                    times.push(ts[k].1[j]);
                    assert(ts@[k as int].1@.take(j + 1) =~= ts@[k as int].1@.take(j as int).push(ts@[k as int].1@[j as int]));
                    assert(times@ =~= before + ts@[k as int].1@.take(j + 1));
                    j = j + 1;
                }
                assert(ts@[k as int].1@.take(j as int) =~= ts@[k as int].1@);
            },
            None => {
                assert(times@ =~= times@ + Seq::<i64>::empty());
            },
        }
        if title.is_none() {
            match find_key(titles, id) {
                Some(k) => {
                    title = Some(titles[k].1.clone());
                },
                None => {},
            }
        }
        if project.is_none() {
            match find_key(projects, id) {
                Some(k) => {
                    project = Some(projects[k].1.clone());
                },
                None => {},
            }
        }
        if source.is_none() {
            match find_key(sources, id) {
                Some(k) => {
                    source = Some(sources[k].1.clone());
                },
                None => {},
            }
        }
        if path.is_none() {
            match find_key(paths, id) {
                Some(k) => {
                    path = Some(paths[k].1.clone());
                },
                None => {},
            }
        }
        i = i + 1;
    }
    assert(ids@.take(ids.len() as int) =~= ids@);
    if requests == 0 {
        return None;
    }
    if first_at == i64::MAX {
        first_at = 0;
    }
    let source_type = if codex_merged { Some(text::owned("codex")) } else { source };
    let source_path = match path {
        Some(p) => Some(p),
        None => match find_key(paths, req_id) {
            Some(k) => Some(paths[k].1.clone()),
            None => None,
        },
    };
    Some(SessionTotals {
        requests,
        input_tokens: input,
        output_tokens: output,
        cache_read,
        cache_creation,
        first_at,
        last_at,
        max_context: max_ctx,
        timestamps: times,
        title,
        project,
        source_type,
        source_path,
    })
}

// ---------------------------------------------------------------------------
// The order in which titles are looked for
// ---------------------------------------------------------------------------

/// A step of the title lookup for sessions not found in the cache.
#[derive(Debug, Clone, Copy, PartialEq, Eq, Structural)]
pub enum TitleStep {
    /// The title cache has been read.
    Cache,
    /// Ask the data source at this position for its titles.
    Source(usize),
    /// Read the Grok Build session summaries.
    Grok,
    /// Read the Codex logs (by session id, then by request time).
    Codex,
    /// Read the JSONL conversation logs of the coding agent.
    AgentLogs,
    /// Cache every looked-up session, with a fallback title where none was
    /// found.
    Save,
    /// Nothing is left to do.
    Done,
}

/// The step after `step`, with `n_sources` data sources and `remaining`
/// sessions still without a title. Nothing is looked up once no session is
/// left; the data sources come first, in order, then Grok Build, Codex and the
/// agent conversation logs; the results are saved last.
pub open spec fn next_title_step_spec(step: TitleStep, n_sources: nat, remaining: nat) -> TitleStep {
    match step {
        TitleStep::Cache => if remaining == 0 {
            TitleStep::Done
        } else if n_sources > 0 {
            TitleStep::Source(0)
        } else {
            TitleStep::Grok
        },
        TitleStep::Source(i) => if remaining == 0 {
            TitleStep::Save
        } else if i + 1 < n_sources {
            TitleStep::Source((i + 1) as usize)
        } else {
            TitleStep::Grok
        },
        TitleStep::Grok => if remaining == 0 { TitleStep::Save } else { TitleStep::Codex },
        TitleStep::Codex => if remaining == 0 { TitleStep::Save } else { TitleStep::AgentLogs },
        TitleStep::AgentLogs => TitleStep::Save,
        TitleStep::Save => TitleStep::Done,
        TitleStep::Done => TitleStep::Done,
    }
}

/// The next step of the title lookup (see `next_title_step_spec`).
pub fn next_title_step(step: TitleStep, n_sources: usize, remaining: usize) -> (r: TitleStep)
    ensures
        r == next_title_step_spec(step, n_sources as nat, remaining as nat),
{
    match step {
        TitleStep::Cache => if remaining == 0 {
            TitleStep::Done
        } else if n_sources > 0 {
            TitleStep::Source(0)
        } else {
            TitleStep::Grok
        },
        TitleStep::Source(i) => if remaining == 0 {
            TitleStep::Save
        } else if i < n_sources && i + 1 < n_sources {
            TitleStep::Source(i + 1)
        } else {
            TitleStep::Grok
        },
        TitleStep::Grok => if remaining == 0 { TitleStep::Save } else { TitleStep::Codex },
        TitleStep::Codex => if remaining == 0 { TitleStep::Save } else { TitleStep::AgentLogs },
        TitleStep::AgentLogs => TitleStep::Save,
        TitleStep::Save => TitleStep::Done,
        TitleStep::Done => TitleStep::Done,
    }
}

/// The ids of `ids` that `found` has no entry for, in order.
pub open spec fn unresolved_spec<T>(ids: Seq<String>, found: Seq<(String, T)>) -> Seq<String> {
    ids.filter(|id: String| lookup(found, id@) is None)
}

/// The sessions still without a title: those of `ids` that `found` has no
/// entry for, in order.
pub fn unresolved<T>(ids: &Vec<String>, found: &Vec<(String, T)>) -> (out: Vec<String>)
    ensures
        views(out@) == views(unresolved_spec(ids@, found@)),
{
    let ghost f = |id: String| lookup(found@, id@) is None;
    let mut out: Vec<String> = Vec::new();
    let mut i: usize = 0;
    while i < ids.len()
        invariant
            i <= ids.len(),
            f == (|id: String| lookup(found@, id@) is None),
            views(out@) == views(ids@.take(i as int).filter(f)),
        decreases ids.len() - i,
    {
        let ghost before = out@;
        proof {
            let t = ids@.take(i + 1);
            assert(t.drop_last() =~= ids@.take(i as int));
            assert(t.last() == ids@[i as int]);
            reveal_with_fuel(Seq::<_>::filter, 1);
        }
        if find_key(found, ids[i].as_str()).is_none() {
            let x = ids[i].clone();
            out.push(x);
            proof {
                let g = ids@.take(i as int).filter(f);
                assert(views(out@) =~= views(before).push(x@));
                assert(views(g.push(ids@[i as int])) =~= views(g).push(x@));
            }
        }
        i = i + 1;
    }
    assert(ids@.take(ids.len() as int) =~= ids@);
    out
}

/// Filtering keeps a descending order, and keeps only elements of `s`.
proof fn lemma_filter_keeps_order<T>(s: Seq<T>, key: spec_fn(T) -> int, p: spec_fn(T) -> bool)
    requires
        crate::dedup::sorted_desc(s, key),
    ensures
        crate::dedup::sorted_desc(s.filter(p), key),
        forall|i: int| 0 <= i < s.filter(p).len() ==> exists|m: int| 0 <= m < s.len() && s[m] == #[trigger] s.filter(p)[i],
    decreases s.len(),
{
    reveal_with_fuel(Seq::<_>::filter, 1);
    if s.len() > 0 {
        let d = s.drop_last();
        assert forall|i: int, j: int| 0 <= i < j < d.len() implies key(#[trigger] d[i]) >= key(#[trigger] d[j]) by {
            assert(d[i] == s[i] && d[j] == s[j]);
        }
        lemma_filter_keeps_order(d, key, p);
        let f = d.filter(p);
        let out = s.filter(p);
        if p(s.last()) {
            assert(out == f.push(s.last()));
            assert forall|i: int| 0 <= i < out.len() implies exists|m: int| 0 <= m < s.len() && s[m] == #[trigger] out[i] by {
                if i < f.len() {
                    assert(out[i] == f[i]);
                    let m = choose|m: int| 0 <= m < d.len() && d[m] == #[trigger] f[i];
                    assert(s[m] == d[m]);
                } else {
                    assert(s[s.len() - 1] == out[i]);
                }
            }
            assert forall|i: int, j: int| 0 <= i < j < out.len() implies key(#[trigger] out[i]) >= key(#[trigger] out[j]) by {
                assert(out[i] == f[i]);
                let m = choose|m: int| 0 <= m < d.len() && d[m] == #[trigger] f[i];
                assert(s[m] == d[m]);
                if j < f.len() {
                    assert(out[j] == f[j]);
                } else {
                    assert(out[j] == s[s.len() - 1]);
                    assert(key(s[m]) >= key(s[s.len() - 1]));
                }
            }
        } else {
            assert(out == f);
            assert forall|i: int| 0 <= i < out.len() implies exists|m: int| 0 <= m < s.len() && s[m] == #[trigger] out[i] by {
                let m = choose|m: int| 0 <= m < d.len() && d[m] == #[trigger] f[i];
                assert(s[m] == d[m]);
            }
        }
    }
}

/// Law: the listed sessions come most requests first, each is a position of
/// `all`, and each passes the listing rule.
pub proof fn lemma_listed_by_requests(all: Seq<SessionBreakdown>, cached: Seq<CachedTitle>, project: Option<Seq<char>>)
    ensures
        ({
            let order = listed_order(all, cached, project);
            &&& forall|i: int| 0 <= i < order.len() ==> (#[trigger] order[i]) < all.len()
            &&& forall|i: int| 0 <= i < order.len() ==> session_listed(all[order[i] as int], cached_of(cached, all[order[i] as int].session_id@), project)
            &&& forall|i: int, j: int| 0 <= i < j < order.len() ==> all[(#[trigger] order[i]) as int].requests >= all[(#[trigger] order[j]) as int].requests
        }),
{
    let pos = positions(all.len());
    let key = by_requests(all);
    let p = |i: usize| session_listed(all[i as int], cached_of(cached, all[i as int].session_id@), project);
    crate::dedup::lemma_sort_desc(pos, key);
    let sorted = sort_desc(pos, key);
    lemma_filter_keeps_order(sorted, key, p);
    let order = sorted.filter(p);
    assert(order == listed_order(all, cached, project));
    assert forall|i: int| 0 <= i < order.len() implies (#[trigger] order[i]) < all.len() by {
        let m = choose|m: int| 0 <= m < sorted.len() && sorted[m] == #[trigger] order[i];
        vstd::seq_lib::to_multiset_contains(sorted, sorted[m]);
        assert(sorted.contains(sorted[m]));
        vstd::seq_lib::to_multiset_contains(pos, sorted[m]);
        let q = choose|q: int| 0 <= q < pos.len() && pos[q] == sorted[m];
        assert(pos[q] == q as usize);
    }
    assert forall|i: int| 0 <= i < order.len() implies session_listed(all[order[i] as int], cached_of(cached, all[order[i] as int].session_id@), project) by {
        sorted.lemma_filter_pred(p, i);
    }
    assert forall|i: int, j: int| 0 <= i < j < order.len() implies all[(#[trigger] order[i]) as int].requests >= all[(#[trigger] order[j]) as int].requests by {
        assert(key(order[i]) >= key(order[j]));
    }
}

} // verus!
