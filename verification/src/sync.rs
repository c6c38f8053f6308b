//! Syncing the Cursor usage CSV: the look-back setting, the Beijing calendar
//! window of a fetch, merging a fetch into the cached CSV, and the decisions
//! around credentials and automatic syncs.
use crate::cursor_csv::{clean_field, csv_date_secs, parse_date_to_epoch_secs};
use crate::hooks::opt_view;
use crate::json_field::{doc_str, json_error_text, json_parses, parse_json, str_at};
use crate::text::{self, contains, find, is_ws, lines, lines_acc, lowercase, no_newline, strip, strip_cr, strip_start, trim, trim_end, trim_start};
use vstd::prelude::*;

verus! {

pub const SYNC_LOOKBACK_SETTING_KEY: &'static str = "cursor_sync_lookback";

/// An automatic sync is skipped while the cached CSV is younger than this
/// many seconds (24 hours).
pub const CURSOR_AUTO_SYNC_FRESHNESS_SECS: u64 = 86400;

/// The range of a Cursor CSV fetch.
#[derive(Debug, Clone, Copy, PartialEq, Eq, Structural)]
pub enum SyncLookback {
    Days(u32),
    All,
}

/// The stored name of a look-back; unknown day counts are written as `7d`.
pub open spec fn lookback_name(l: SyncLookback) -> Seq<char> {
    match l {
        SyncLookback::Days(1) => "1d"@,
        SyncLookback::Days(7) => "7d"@,
        SyncLookback::Days(30) => "30d"@,
        SyncLookback::All => "all"@,
        SyncLookback::Days(_) => "7d"@,
    }
}

/// The look-back a setting names, after trimming and lower-casing; 7 days
/// when it names none.
pub open spec fn lookback_of(raw: Seq<char>) -> SyncLookback {
    let t = lowercase(trim(raw));
    if t == "1d"@ || t == "1"@ {
        SyncLookback::Days(1)
    } else if t == "30d"@ || t == "30"@ {
        SyncLookback::Days(30)
    } else if t == "all"@ {
        SyncLookback::All
    } else {
        SyncLookback::Days(7)
    }
}

impl SyncLookback {
    pub fn as_str(self) -> (s: &'static str)
        ensures
            s@ == lookback_name(self),
    {
        match self {
            SyncLookback::Days(1) => "1d",
            SyncLookback::Days(7) => "7d",
            SyncLookback::Days(30) => "30d",
            SyncLookback::All => "all",
            SyncLookback::Days(_) => "7d",
        }
    }

    pub fn parse(raw: &str) -> (l: Self)
        ensures
            l == lookback_of(raw@),
    {
        let t = text::trim_str(raw);
        let low = text::to_lowercase(t.as_str());
        let s = low.as_str();
        if text::str_eq(s, "1d") || text::str_eq(s, "1") {
            SyncLookback::Days(1)
        } else if text::str_eq(s, "30d") || text::str_eq(s, "30") {
            SyncLookback::Days(30)
        } else if text::str_eq(s, "all") {
            SyncLookback::All
        } else {
            SyncLookback::Days(7)
        }
    }
}

/// The look-back in the settings: the stored value parsed, 7 days when none
/// is stored.
pub fn get_sync_lookback(stored: Option<&str>) -> (l: SyncLookback)
    ensures
        l == match stored {
            Some(v) => lookback_of(v@),
            None => SyncLookback::Days(7),
        },
{
    match stored {
        Some(v) => SyncLookback::parse(v),
        None => SyncLookback::Days(7),
    }
}

/// The look-back that a stored value reads back as: day counts other than
/// 1, 7 and 30 read back as 7 days.
pub open spec fn canonical_lookback(l: SyncLookback) -> SyncLookback {
    match l {
        SyncLookback::Days(n) => if n == 1 || n == 30 {
            l
        } else {
            SyncLookback::Days(7)
        },
        SyncLookback::All => l,
    }
}

/// Law: what the settings store for a look-back reads back as that
/// look-back (as its canonical form).
pub proof fn lemma_lookback_round_trip(l: SyncLookback)
    ensures
        lookback_of(lookback_name(l)) == canonical_lookback(l),
{
    reveal_strlit("1d");
    reveal_strlit("7d");
    reveal_strlit("30d");
    reveal_strlit("all");
    reveal_strlit("1");
    reveal_strlit("30");
    let n = lookback_name(l);
    text::lemma_trim_plain(n);
    assert(text::ascii_lower(n) =~= n);
    assert(lowercase(trim(n)) == n);
    assert("7d"@[0] != "1d"@[0]);
    assert("7d"@ != "1d"@ && "7d"@ != "30d"@);
    assert("7d"@[0] != "1"@[0]);
    assert("1d"@[0] != "30"@[0]);
    assert("all"@[0] != "30"@[0]);
}

// ---------------------------------------------------------------------------
// The Beijing calendar window of a fetch
// ---------------------------------------------------------------------------

/// Seconds from UTC to Beijing time.
pub open spec fn beijing_offset() -> int {
    28800
}

/// The Beijing calendar day (days since 1970-01-01) of Unix second `now`.
pub open spec fn beijing_day(now: int) -> int {
    (now + beijing_offset()) / 86400
}

/// The first Beijing day of a window of `n` days (at least one) ending today.
pub open spec fn window_first_day(n: u32, now: int) -> int {
    beijing_day(now) - (if n < 1 { 0 } else { n - 1 })
}

/// The earliest and latest calendar days that chrono represents.
pub open spec fn min_day() -> int {
    -96465659
}

pub open spec fn max_day() -> int {
    95026601
}

/// The window's days, and the instants at their edges, are representable.
pub open spec fn window_in_range(l: SyncLookback, now: i64) -> bool {
    match l {
        SyncLookback::All => true,
        SyncLookback::Days(n) => window_first_day(n, now as int) - 1 >= min_day() && beijing_day(now as int) <= max_day(),
    }
}

/// The fetch window of a look-back at Unix second `now`, by Beijing calendar
/// days: the first millisecond of the first day, the last millisecond of
/// today, and the first second of the window. `All` has none.
pub open spec fn lookback_window(l: SyncLookback, now: i64) -> Option<(int, int, int)> {
    match l {
        SyncLookback::All => None,
        SyncLookback::Days(n) => {
            let start = window_first_day(n, now as int) * 86400 - beijing_offset();
            let end_ms = (beijing_day(now as int) + 1) * 86_400_000 - beijing_offset() * 1000 - 1;
            Some((start * 1000, end_ms, start))
        },
    }
}

/// The fetch window of `lookback` at Unix second `now_utc`: `(start_ms,
/// end_ms, start_secs)` over whole Beijing (UTC+8) calendar days, today
/// included; `None` for `All`.
pub fn lookback_window_ms(lookback: SyncLookback, now_utc: i64) -> (r: Option<(i64, i64, i64)>)
    requires
        window_in_range(lookback, now_utc),
    ensures
        match lookback_window(lookback, now_utc) {
            None => r is None,
            Some(w) => r matches Some(t) && t.0 == w.0 && t.1 == w.1 && t.2 == w.2,
        },
{
    let n = match lookback {
        SyncLookback::All => {
            return None;
        },
        SyncLookback::Days(n) => n,
    };
    let shift: i64 = 100_000_000;
    let a: i64 = now_utc + 28800;
    assert(a + shift * 86400 >= 0);
    let shifted: i64 = a + shift * 86400;
    let day_shifted: i64 = shifted / 86400;
    proof {
        lemma_div_shift(a as int, shift as int);
    }
    let day: i64 = day_shifted - shift;
    assert(day == beijing_day(now_utc as int));
    let back: i64 = if n < 1 { 0 } else { (n - 1) as i64 };
    let first: i64 = day - back;
    let start: i64 = first * 86400 - 28800;
    let end_ms: i64 = (day + 1) * 86_400_000 - 28_800_000 - 1;
    Some((start * 1000, end_ms, start))
}

proof fn lemma_div_shift(a: int, k: int)
    requires
        k >= 0,
        a + k * 86400 >= 0,
    ensures
        (a + k * 86400) / 86400 == a / 86400 + k,
{
    let q = a / 86400;
    let r = a % 86400;
    vstd::arithmetic::div_mod::lemma_fundamental_div_mod(a, 86400);
    vstd::arithmetic::div_mod::lemma_mod_bound(a, 86400);
    vstd::arithmetic::div_mod::lemma_div_multiples_vanish_fancy(q + k, r, 86400);
    assert(86400 * (q + k) + r == a + k * 86400);
}

/// The export endpoint of the usage CSV.
pub const USAGE_CSV_BASE: &'static str = "https://cursor.com/api/dashboard/export-usage-events-csv";

/// The address to fetch for `lookback` at Unix second `now_utc`, and the
/// first second of its window (`None` for `All`).
pub fn build_usage_csv_url(lookback: SyncLookback, now_utc: i64) -> (r: (String, Option<i64>))
    requires
        window_in_range(lookback, now_utc),
    ensures
        match lookback_window(lookback, now_utc) {
            None => r.0@ == USAGE_CSV_BASE@ + "?strategy=tokens"@ && r.1 is None,
            Some(w) => r.0@ == USAGE_CSV_BASE@ + "?startDate="@ + text::dec_i64(w.0 as i64) + "&endDate="@ + text::dec_i64(w.1 as i64) + "&strategy=tokens"@ && r.1 == Some(w.2 as i64),
        },
{
    let mut url = String::new();
    text::push_str(&mut url, USAGE_CSV_BASE);
    match lookback_window_ms(lookback, now_utc) {
        None => {
            text::push_str(&mut url, "?strategy=tokens");
            (url, None)
        },
        Some((start_ms, end_ms, start_epoch)) => {
            text::push_str(&mut url, "?startDate=");
            text::push_dec_i64(&mut url, start_ms);
            text::push_str(&mut url, "&endDate=");
            text::push_dec_i64(&mut url, end_ms);
            text::push_str(&mut url, "&strategy=tokens");
            (url, Some(start_epoch))
        },
    }
}

// ---------------------------------------------------------------------------
// Merging a fetch into the cache
// ---------------------------------------------------------------------------

/// The byte order mark that some CSV texts start with.
pub open spec fn bom() -> char {
    '\u{feff}'
}

/// A line with something besides whitespace.
pub open spec fn nonblank(l: Seq<char>) -> bool {
    trim(l).len() > 0
}

/// The text of a line before its first comma.
pub open spec fn first_field(l: Seq<char>) -> Seq<char> {
    match find(l, ","@) {
        Some(i) => l.take(i),
        None => l,
    }
}

/// The date (Unix seconds, 0 when unreadable) of a CSV data line.
pub open spec fn line_date(l: Seq<char>) -> i64 {
    csv_date_secs(clean_field(first_field(l)))
}

/// A cached line kept by a merge: it is dated before the fetch window.
pub open spec fn kept_before(l: Seq<char>, start_epoch: i64) -> bool {
    nonblank(l) && line_date(l) > 0 && line_date(l) < start_epoch
}

/// The lines joined with `\n` between them.
pub open spec fn join_lines(ls: Seq<Seq<char>>) -> Seq<char>
    decreases ls.len(),
{
    if ls.len() == 0 {
        Seq::empty()
    } else if ls.len() == 1 {
        ls[0]
    } else {
        join_lines(ls.drop_last()) + "\n"@ + ls.last()
    }
}

/// The lines, each followed by `\n`.
pub open spec fn terminated_lines(ls: Seq<Seq<char>>) -> Seq<char>
    decreases ls.len(),
{
    if ls.len() == 0 {
        Seq::empty()
    } else {
        terminated_lines(ls.drop_last()) + ls.last() + "\n"@
    }
}

/// The text a merge gives: the fetched header, the cached lines dated before
/// the window, then the fetched rows. Without a usable cache (empty, or its
/// header has no `Date`), the fetched header and rows joined by `\n`.
pub open spec fn merged_csv(existing: Option<Seq<char>>, fetched: Seq<char>, start_epoch: i64) -> Seq<char> {
    let f = strip_start(fetched, bom());
    let fl = lines(f);
    if fl.len() == 0 {
        f
    } else {
        let header = fl[0];
        let rows = fl.drop_first().filter(|l: Seq<char>| nonblank(l));
        match existing {
            None => header + "\n"@ + terminated_lines(rows),
            Some(old) => {
                let ol = lines(strip_start(old, bom()));
                if ol.len() == 0 || !contains(ol[0], "Date"@) {
                    header + "\n"@ + join_lines(rows)
                } else {
                    let kept = ol.drop_first().filter(|l: Seq<char>| kept_before(l, start_epoch));
                    header + "\n"@ + terminated_lines(kept) + terminated_lines(rows)
                }
            },
        }
    }
}

// ---------------------------------------------------------------------------
// Reading a merged cache back
// ---------------------------------------------------------------------------

/// `s` has a character that is not whitespace.
pub open spec fn has_text(s: Seq<char>) -> bool {
    exists|i: int| 0 <= i < s.len() && !is_ws(#[trigger] s[i])
}

proof fn lemma_trim_start_text(s: Seq<char>)
    ensures
        trim_start(s).len() > 0 <==> has_text(s),
        has_text(trim_start(s)) <==> has_text(s),
    decreases s.len(),
{
    if s.len() > 0 && is_ws(s[0]) {
        lemma_trim_start_text(s.drop_first());
        let t = s.drop_first();
        if has_text(s) {
            let i = choose|i: int| 0 <= i < s.len() && !is_ws(#[trigger] s[i]);
            assert(t[i - 1] == s[i]);
        }
        if has_text(t) {
            let i = choose|i: int| 0 <= i < t.len() && !is_ws(#[trigger] t[i]);
            assert(s[i + 1] == t[i]);
        }
    } else if s.len() > 0 {
        assert(!is_ws(s[0]));
    }
}

proof fn lemma_trim_end_text(s: Seq<char>)
    ensures
        trim_end(s).len() > 0 <==> has_text(s),
    decreases s.len(),
{
    if s.len() > 0 && is_ws(s.last()) {
        lemma_trim_end_text(s.drop_last());
        let t = s.drop_last();
        if has_text(s) {
            let i = choose|i: int| 0 <= i < s.len() && !is_ws(#[trigger] s[i]);
            assert(t[i] == s[i]);
        }
        if has_text(t) {
            let i = choose|i: int| 0 <= i < t.len() && !is_ws(#[trigger] t[i]);
            assert(s[i] == t[i]);
        }
    } else if s.len() > 0 {
        assert(!is_ws(s[s.len() - 1]));
    }
}

/// A line is non-blank exactly when it has a character besides whitespace.
proof fn lemma_nonblank_text(s: Seq<char>)
    ensures
        nonblank(s) <==> has_text(s),
{
    lemma_trim_start_text(s);
    lemma_trim_end_text(trim_start(s));
}

/// Dropping a final carriage return keeps a line non-blank.
proof fn lemma_strip_cr_nonblank(s: Seq<char>)
    requires
        nonblank(s),
    ensures
        nonblank(strip_cr(s)),
{
    lemma_nonblank_text(s);
    lemma_nonblank_text(strip_cr(s));
    if s.len() > 0 && s.last() == '\r' {
        let i = choose|i: int| 0 <= i < s.len() && !is_ws(#[trigger] s[i]);
        assert(is_ws('\r'));
        assert(i < s.len() - 1);
        assert(strip_cr(s)[i] == s[i]);
    }
}

proof fn lemma_terminated_concat(a: Seq<Seq<char>>, b: Seq<Seq<char>>)
    ensures
        terminated_lines(a + b) == terminated_lines(a) + terminated_lines(b),
    decreases b.len(),
{
    if b.len() == 0 {
        assert(a + b =~= a);
        assert(terminated_lines(a) + terminated_lines(b) =~= terminated_lines(a));
    } else {
        assert((a + b).drop_last() =~= a + b.drop_last());
        assert((a + b).last() == b.last());
        lemma_terminated_concat(a, b.drop_last());
        assert(terminated_lines(a + b) =~= terminated_lines(a) + terminated_lines(b));
    }
}

/// Lines written one per line read back as those lines (without a final
/// carriage return each).
proof fn lemma_lines_of_terminated(ls: Seq<Seq<char>>)
    requires
        forall|i: int| 0 <= i < ls.len() ==> no_newline(#[trigger] ls[i]),
    ensures
        lines(terminated_lines(ls)) == ls.map_values(|l: Seq<char>| strip_cr(l)),
    decreases ls.len(),
{
    reveal_strlit("\n");
    if ls.len() == 0 {
        assert(lines_acc(Seq::<char>::empty(), Seq::<char>::empty()) =~= Seq::<Seq<char>>::empty());
        assert(ls.map_values(|l: Seq<char>| strip_cr(l)) =~= Seq::<Seq<char>>::empty());
    } else {
        let d = ls.drop_last();
        let x = ls.last();
        assert(no_newline(ls[ls.len() - 1]));
        lemma_lines_of_terminated(d);
        let t = terminated_lines(d);
        assert("\n"@ =~= seq!['\n']);
        assert(terminated_lines(ls) == t + x + "\n"@);
        assert(t + x + "\n"@ =~= t + (x + seq!['\n']));
        text::lemma_lines_acc_line(x, Seq::empty());
        assert(Seq::<char>::empty() + x =~= x);
        if d.len() == 0 {
            assert(t =~= Seq::<char>::empty());
            assert(t + (x + seq!['\n']) =~= x + seq!['\n']);
        } else {
            assert(t.last() == '\n');
            text::lemma_lines_acc_concat(t, x + seq!['\n'], Seq::empty());
        }
        assert(ls.map_values(|l: Seq<char>| strip_cr(l)) =~= d.map_values(|l: Seq<char>| strip_cr(l)).push(strip_cr(x)));
    }
}

proof fn lemma_filter_keeps<A>(s: Seq<A>, f: spec_fn(A) -> bool, p: spec_fn(A) -> bool)
    requires
        forall|i: int| 0 <= i < s.len() ==> p(#[trigger] s[i]),
    ensures
        forall|i: int| 0 <= i < s.filter(f).len() ==> p(#[trigger] s.filter(f)[i]),
    decreases s.len(),
{
    reveal_with_fuel(Seq::<_>::filter, 1);
    if s.len() > 0 {
        lemma_filter_keeps(s.drop_last(), f, p);
        let r = s.drop_last().filter(f);
        assert forall|i: int| 0 <= i < s.filter(f).len() implies p(#[trigger] s.filter(f)[i]) by {
            if i < r.len() {
                if f(s.last()) {
                    assert(s.filter(f)[i] == r[i]);
                }
            } else {
                assert(s.filter(f)[i] == s.last());
            }
        }
    }
}

proof fn lemma_filter_all<A>(s: Seq<A>, f: spec_fn(A) -> bool)
    requires
        forall|i: int| 0 <= i < s.len() ==> f(#[trigger] s[i]),
    ensures
        s.filter(f) == s,
    decreases s.len(),
{
    reveal_with_fuel(Seq::<_>::filter, 1);
    if s.len() > 0 {
        lemma_filter_all(s.drop_last(), f);
        assert(s.drop_last().push(s.last()) =~= s);
    }
}

/// Law: merging a fetch into a usable cache (both with a header line, the
/// cache's naming `Date`) gives a text whose lines after the header are the
/// cached rows dated before the window, then the fetched rows (each without
/// a final carriage return), so it has exactly as many data rows as those
/// two together.
pub proof fn lemma_merge_reads_back(old: Seq<char>, fetched: Seq<char>, start_epoch: i64)
    requires
        lines(strip_start(fetched, bom())).len() > 0,
        lines(strip_start(old, bom())).len() > 0,
        contains(lines(strip_start(old, bom()))[0], "Date"@),
    ensures
        ({
            let fl = lines(strip_start(fetched, bom()));
            let ol = lines(strip_start(old, bom()));
            let kept = ol.drop_first().filter(|l: Seq<char>| kept_before(l, start_epoch));
            let rows = fl.drop_first().filter(|l: Seq<char>| nonblank(l));
            let merged = merged_csv(Some(old), fetched, start_epoch);
            &&& lines(merged).drop_first() == (kept + rows).map_values(|l: Seq<char>| strip_cr(l))
            &&& csv_row_count(merged) == kept.len() + rows.len()
        }),
{
    reveal_strlit("\n");
    let fl = lines(strip_start(fetched, bom()));
    let ol = lines(strip_start(old, bom()));
    let fk = |l: Seq<char>| kept_before(l, start_epoch);
    let fr = |l: Seq<char>| nonblank(l);
    let kept = ol.drop_first().filter(fk);
    let rows = fl.drop_first().filter(fr);
    let header = fl[0];
    let merged = merged_csv(Some(old), fetched, start_epoch);
    let nn = |l: Seq<char>| no_newline(l);
    assert(no_newline(Seq::<char>::empty()));
    text::lemma_lines_no_newline(strip_start(fetched, bom()), Seq::empty());
    text::lemma_lines_no_newline(strip_start(old, bom()), Seq::empty());
    assert forall|i: int| 0 <= i < ol.drop_first().len() implies nn(#[trigger] ol.drop_first()[i]) by {
        assert(ol.drop_first()[i] == ol[i + 1]);
    }
    assert forall|i: int| 0 <= i < fl.drop_first().len() implies nn(#[trigger] fl.drop_first()[i]) by {
        assert(fl.drop_first()[i] == fl[i + 1]);
    }
    lemma_filter_keeps(ol.drop_first(), fk, nn);
    lemma_filter_keeps(fl.drop_first(), fr, nn);
    let both = kept + rows;
    assert forall|i: int| 0 <= i < both.len() implies no_newline(#[trigger] both[i]) by {
        if i < kept.len() {
            assert(both[i] == kept[i]);
            assert(nn(kept[i]));
        } else {
            assert(both[i] == rows[i - kept.len()]);
            assert(nn(rows[i - kept.len()]));
        }
    }
    lemma_terminated_concat(kept, rows);
    lemma_lines_of_terminated(both);
    assert(merged == header + "\n"@ + terminated_lines(kept) + terminated_lines(rows));
    let p = header + seq!['\n'];
    assert("\n"@ =~= seq!['\n']);
    assert(merged =~= p + terminated_lines(both));
    assert(p.last() == '\n');
    text::lemma_lines_acc_concat(p, terminated_lines(both), Seq::empty());
    assert(no_newline(fl[0]));
    text::lemma_lines_acc_line(header, Seq::empty());
    assert(Seq::<char>::empty() + header =~= header);
    let mapped = both.map_values(|l: Seq<char>| strip_cr(l));
    assert(lines(merged) =~= seq![strip_cr(header)] + mapped);
    assert(lines(merged).drop_first() =~= mapped);
    assert forall|i: int| 0 <= i < mapped.len() implies fr(#[trigger] mapped[i]) by {
        if i < kept.len() {
            ol.drop_first().lemma_filter_pred(fk, i);
            assert(both[i] == kept[i]);
        } else {
            fl.drop_first().lemma_filter_pred(fr, i - kept.len());
            assert(both[i] == rows[i - kept.len()]);
        }
        lemma_strip_cr_nonblank(both[i]);
    }
    lemma_filter_all(mapped, fr);
}

/// The lines of `ls` that `keep` selects, in order.
fn nonblank_lines(ls: &Vec<Vec<char>>) -> (out: Vec<Vec<char>>)
    requires
        ls.len() >= 1,
    ensures
        text::vv_view(out@) == text::vv_view(ls@).drop_first().filter(|l: Seq<char>| nonblank(l)),
{
    let ghost all = text::vv_view(ls@).drop_first();
    let ghost f = |l: Seq<char>| nonblank(l);
    let mut out: Vec<Vec<char>> = Vec::new();
    let mut i: usize = 1;
    while i < ls.len()
        invariant
            1 <= i <= ls.len(),
            all == text::vv_view(ls@).drop_first(),
            f == (|l: Seq<char>| nonblank(l)),
            text::vv_view(out@) == all.take(i - 1).filter(f),
        decreases ls.len() - i,
    {
        proof {
            let t = all.take(i as int);
            assert(t.drop_last() =~= all.take(i - 1));
            assert(t.last() == ls@[i as int]@);
            reveal_with_fuel(Seq::<_>::filter, 1);
        }
        let t = text::trim_vec(&ls[i]);
        if t.len() > 0 {
            let ghost before = text::vv_view(out@);
            out.push(ls[i].clone());
            assert(text::vv_view(out@) =~= before.push(ls@[i as int]@));
        }
        i = i + 1;
    }
    assert(all.take(ls.len() - 1) =~= all);
    out
}

fn first_field_exec(l: &Vec<char>) -> (r: Vec<char>)
    ensures
        r@ == first_field(l@),
{
    let comma = text::chars_of(",");
    match text::find_exec(l, &comma) {
        Some(i) => {
            let mut r: Vec<char> = Vec::new();
            let mut k: usize = 0;
            while k < i
                invariant
                    k <= i <= l.len(),
                    r@ == l@.take(k as int),
                decreases i - k,
            {
                r.push(l[k]);
                assert(l@.take(k + 1) =~= l@.take(k as int).push(l@[k as int]));
                k = k + 1;
            }
            r
        },
        None => l.clone(),
    }
}

fn line_date_exec(l: &Vec<char>) -> (ts: i64)
    ensures
        ts == line_date(l@),
{
    let f = first_field_exec(l);
    let t = text::trim_vec(&f);
    let c = text::strip_vec(&t, '"');
    let s = text::string_from_chars(&c);
    parse_date_to_epoch_secs(s.as_str())
}

fn push_terminated(out: &mut String, ls: &Vec<Vec<char>>)
    ensures
        final(out)@ == old(out)@ + terminated_lines(text::vv_view(ls@)),
{
    let mut i: usize = 0;
    while i < ls.len()
        invariant
            i <= ls.len(),
            out@ == old(out)@ + terminated_lines(text::vv_view(ls@).take(i as int)),
        decreases ls.len() - i,
    {
        proof {
            let t = text::vv_view(ls@).take(i + 1);
            assert(t.drop_last() =~= text::vv_view(ls@).take(i as int));
            assert(t.last() == ls@[i as int]@);
        }
        text::push_seq(out, &ls[i]);
        text::push_str(out, "\n");
        i = i + 1;
    }
    assert(text::vv_view(ls@).take(ls.len() as int) =~= text::vv_view(ls@));
}

fn push_joined(out: &mut String, ls: &Vec<Vec<char>>)
    ensures
        final(out)@ == old(out)@ + join_lines(text::vv_view(ls@)),
{
    let mut i: usize = 0;
    while i < ls.len()
        invariant
            i <= ls.len(),
            out@ == old(out)@ + join_lines(text::vv_view(ls@).take(i as int)),
        decreases ls.len() - i,
    {
        proof {
            let t = text::vv_view(ls@).take(i + 1);
            assert(t.drop_last() =~= text::vv_view(ls@).take(i as int));
            assert(t.last() == ls@[i as int]@);
            if i == 0 {
                assert(t.len() == 1 && t[0] == ls@[0]@);
            }
        }
        if i > 0 {
            text::push_str(out, "\n");
        }
        text::push_seq(out, &ls[i]);
        i = i + 1;
    }
    assert(text::vv_view(ls@).take(ls.len() as int) =~= text::vv_view(ls@));
}

/// Merges a fetched CSV into the cached one: the fetched header, then the
/// cached rows dated before `start_epoch`, then the fetched rows; blank rows
/// dropped, a leading byte order mark ignored.
pub fn merge_usage_csv(existing: Option<&str>, fetched: &str, start_epoch: i64) -> (out: String)
    ensures
        out@ == merged_csv(
            match existing {
                Some(e) => Some(e@),
                None => None,
            },
            fetched@,
            start_epoch,
        ),
{
    let ghost ex = match existing {
        Some(e) => Some(e@),
        None => None,
    };
    let fv = text::chars_of(fetched);
    let f = text::strip_start_vec(&fv, '\u{feff}');
    let fl = text::split_lines(&f);
    if fl.len() == 0 {
        return text::string_from_chars(&f);
    }
    let rows = nonblank_lines(&fl);
    let mut out = String::new();
    text::push_seq(&mut out, &fl[0]);
    text::push_str(&mut out, "\n");
    match existing {
        None => {
            push_terminated(&mut out, &rows);
            out
        },
        Some(old) => {
            let ov = text::chars_of(old);
            let o = text::strip_start_vec(&ov, '\u{feff}');
            let ol = text::split_lines(&o);
            let date_w = text::chars_of("Date");
            if ol.len() == 0 || !text::contains_exec(&ol[0], &date_w) {
                push_joined(&mut out, &rows);
                return out;
            }
            let ghost all = text::vv_view(ol@).drop_first();
            let ghost g = |l: Seq<char>| kept_before(l, start_epoch);
            let mut kept: Vec<Vec<char>> = Vec::new();
            let mut i: usize = 1;
            while i < ol.len()
                invariant
                    1 <= i <= ol.len(),
                    all == text::vv_view(ol@).drop_first(),
                    g == (|l: Seq<char>| kept_before(l, start_epoch)),
                    text::vv_view(kept@) == all.take(i - 1).filter(g),
                decreases ol.len() - i,
            {
                proof {
                    let t = all.take(i as int);
                    assert(t.drop_last() =~= all.take(i - 1));
                    assert(t.last() == ol@[i as int]@);
                    reveal_with_fuel(Seq::<_>::filter, 1);
                }
                let t = text::trim_vec(&ol[i]);
                if t.len() > 0 {
                    let ts = line_date_exec(&ol[i]);
                    if ts > 0 && ts < start_epoch {
                        let ghost before = text::vv_view(kept@);
                        kept.push(ol[i].clone());
                        assert(text::vv_view(kept@) =~= before.push(ol@[i as int]@));
                    }
                }
                i = i + 1;
            }
            assert(all.take(ol.len() - 1) =~= all);
            push_terminated(&mut out, &kept);
            push_terminated(&mut out, &rows);
            out
        },
    }
}

/// The number of data rows of a CSV text: its non-blank lines after the
/// header.
pub open spec fn csv_row_count(t: Seq<char>) -> nat {
    let ls = lines(t);
    if ls.len() == 0 {
        0
    } else {
        ls.drop_first().filter(|l: Seq<char>| nonblank(l)).len()
    }
}

/// Counts the data rows of a CSV text.
pub fn count_cursor_csv_rows(csv_text: &str) -> (n: usize)
    ensures
        n == csv_row_count(csv_text@),
{
    let v = text::chars_of(csv_text);
    let ls = text::split_lines(&v);
    if ls.len() == 0 {
        return 0;
    }
    let rows = nonblank_lines(&ls);
    rows.len()
}

/// The text a sync stores: the fetch merged into the cache when it covers a
/// window, the fetch itself when it covers everything.
pub fn merged_cache_text(existing: Option<&str>, fetched: &str, start_epoch: Option<i64>) -> (out: String)
    ensures
        match start_epoch {
            Some(s) => out@ == merged_csv(
                match existing {
                    Some(e) => Some(e@),
                    None => None,
                },
                fetched@,
                s,
            ),
            None => out@ == fetched@,
        },
{
    match start_epoch {
        Some(s) => merge_usage_csv(existing, fetched, s),
        None => text::owned(fetched),
    }
}

/// A fetched body is a usage CSV when, past a byte order mark, it starts
/// with `Date,`.
pub fn is_usage_csv_body(body: &str) -> (b: bool)
    ensures
        b == text::starts_with(strip_start(body@, bom()), "Date,"@),
{
    let v = text::chars_of(body);
    let s = text::strip_start_vec(&v, '\u{feff}');
    let p = text::chars_of("Date,");
    text::starts_with_exec(&s, &p)
}

// ---------------------------------------------------------------------------
// Credentials and results
// ---------------------------------------------------------------------------

/// Stored Cursor credentials.
#[derive(Debug)]
pub struct CursorCredentials {
    pub session_token: String,
    pub user_id: Option<String>,
    pub created_at: String,
}

/// The outcome of a sync.
#[derive(Debug)]
pub struct SyncCursorResult {
    pub synced: bool,
    pub rows: usize,
    pub error: Option<String>,
}

/// The outcome of a session check.
#[derive(Debug)]
pub struct ValidateSessionResult {
    pub valid: bool,
    pub membership_type: Option<String>,
    pub error: Option<String>,
}

/// The user id in a session token: the trimmed text before the first `%3A%3A`
/// (or, when there is none, before the first `::`); `None` when the token
/// has neither separator or the id is empty.
pub open spec fn token_user_id(token: Seq<char>) -> Option<Seq<char>> {
    let t = trim(token);
    let piece = if contains(t, "%3A%3A"@) {
        Some(t.take(find(t, "%3A%3A"@)->Some_0))
    } else if contains(t, "::"@) {
        Some(t.take(find(t, "::"@)->Some_0))
    } else {
        None
    };
    match piece {
        Some(p) => if trim(p).len() == 0 {
            None
        } else {
            Some(trim(p))
        },
        None => None,
    }
}

fn prefix_before(v: &Vec<char>, p: &Vec<char>) -> (r: Option<Vec<char>>)
    ensures
        match find(v@, p@) {
            Some(i) => r matches Some(x) && x@ == v@.take(i),
            None => r is None,
        },
{
    match text::find_exec(v, p) {
        Some(i) => {
            let mut r: Vec<char> = Vec::new();
            let mut k: usize = 0;
            while k < i
                invariant
                    k <= i <= v.len(),
                    r@ == v@.take(k as int),
                decreases i - k,
            {
                r.push(v[k]);
                assert(v@.take(k + 1) =~= v@.take(k as int).push(v@[k as int]));
                k = k + 1;
            }
            Some(r)
        },
        None => None,
    }
}

/// The user id carried by a session token, if any.
pub fn extract_user_id_from_session_token(token: &str) -> (r: Option<String>)
    ensures
        match token_user_id(token@) {
            Some(u) => r matches Some(s) && s@ == u,
            None => r is None,
        },
{
    let v = text::chars_of(token);
    let t = text::trim_vec(&v);
    let enc = text::chars_of("%3A%3A");
    let plain = text::chars_of("::");
    let piece = match prefix_before(&t, &enc) {
        Some(p) => Some(p),
        None => prefix_before(&t, &plain),
    };
    proof {
        if find(t@, enc@) is Some {
            assert(contains(t@, enc@));
        } else {
            assert(!contains(t@, enc@));
            if find(t@, plain@) is Some {
                assert(contains(t@, plain@));
            } else {
                assert(!contains(t@, plain@));
            }
        }
    }
    match piece {
        Some(p) => {
            let u = text::trim_vec(&p);
            if u.len() == 0 {
                None
            } else {
                Some(text::string_from_chars(&u))
            }
        },
        None => None,
    }
}

/// The error for a blank session token.
pub const EMPTY_TOKEN: &'static str = "Session Token 不能为空";

/// Credentials for a session token saved at `created_at`: the token trimmed
/// and the user id it carries. Errors when the token is blank.
pub fn credentials_for(session_token: &str, created_at: String) -> (r: Result<CursorCredentials, String>)
    ensures
        trim(session_token@).len() == 0 <==> r is Err,
        r matches Err(e) ==> e@ == EMPTY_TOKEN@,
        r matches Ok(c) ==> c.session_token@ == trim(session_token@) && c.created_at == created_at && match token_user_id(session_token@) {
            Some(u) => c.user_id matches Some(s) && s@ == u,
            None => c.user_id is None,
        },
{
    let token = text::trim_str(session_token);
    if text::chars_of(token.as_str()).len() == 0 {
        return Err(text::owned(EMPTY_TOKEN));
    }
    let user_id = extract_user_id_from_session_token(token.as_str());
    proof {
        text::lemma_trim_idempotent(session_token@);
    }
    Ok(CursorCredentials { session_token: token, user_id, created_at })
}

/// The cached CSV is fresh when its age is known and under 24 hours.
pub fn cache_age_is_fresh(age_secs: Option<u64>) -> (b: bool)
    ensures
        b == (age_secs matches Some(a) && a < CURSOR_AUTO_SYNC_FRESHNESS_SECS),
{
    match age_secs {
        Some(a) => a < CURSOR_AUTO_SYNC_FRESHNESS_SECS,
        None => false,
    }
}

/// An automatic sync runs only when logged in and the cache is not fresh.
pub fn auto_sync_due(logged_in: bool, cache_fresh: bool) -> (b: bool)
    ensures
        b == (logged_in && !cache_fresh),
{
    logged_in && !cache_fresh
}

/// The answer to a session check that the API refused with HTTP `code`.
pub fn session_rejected(code: u16) -> (r: ValidateSessionResult)
    ensures
        !r.valid,
        r.membership_type is None,
        r.error matches Some(e) && (code == 401 || code == 403 ==> e@ == "Session Token 已过期或无效"@) && (code != 401 && code != 403 ==> e@ == "Cursor API 返回状态 "@ + text::dec_i64(code as i64)),
{
    if code == 401 || code == 403 {
        return ValidateSessionResult { valid: false, membership_type: None, error: Some(text::owned("Session Token 已过期或无效")) };
    }
    let mut msg = String::new();
    text::push_str(&mut msg, "Cursor API 返回状态 ");
    text::push_dec_i64(&mut msg, code as i64);
    ValidateSessionResult { valid: false, membership_type: None, error: Some(msg) }
}

/// The answer to a session check from the fields of the usage summary: the
/// session is valid when both billing-cycle fields are strings.
pub fn session_from_summary(has_billing_start: bool, has_billing_end: bool, membership: Option<String>) -> (r: ValidateSessionResult)
    ensures
        r.valid == (has_billing_start && has_billing_end),
        r.valid ==> r.membership_type == membership && r.error is None,
        !r.valid ==> r.membership_type is None && (r.error matches Some(e) && e@ == "Cursor API 响应格式无效"@),
{
    if has_billing_start && has_billing_end {
        ValidateSessionResult { valid: true, membership_type: membership, error: None }
    } else {
        ValidateSessionResult { valid: false, membership_type: None, error: Some(text::owned("Cursor API 响应格式无效")) }
    }
}

/// The prefix of the error for a usage summary that is not JSON.
pub const SUMMARY_PARSE_ERROR: &'static str = "解析响应失败: ";

/// The answer to a session check from the body of the usage-summary reply:
/// a body that is not JSON is an error carrying serde_json's message;
/// otherwise the session is valid when `billingCycleStart` and
/// `billingCycleEnd` are strings, with the `membershipType` string.
pub fn validate_summary_body(body: &str) -> (r: ValidateSessionResult)
    ensures
        !json_parses(body@) ==> !r.valid && r.membership_type is None
            && (r.error matches Some(e) && e@ == SUMMARY_PARSE_ERROR@ + json_error_text(body@)),
        json_parses(body@) ==> ({
            let has_start = str_at(body@, "/billingCycleStart"@) is Some;
            let has_end = str_at(body@, "/billingCycleEnd"@) is Some;
            &&& r.valid == (has_start && has_end)
            &&& r.valid ==> opt_view(r.membership_type) == str_at(body@, "/membershipType"@) && r.error is None
            &&& !r.valid ==> r.membership_type is None && (r.error matches Some(e) && e@ == "Cursor API 响应格式无效"@)
        }),
{
    match parse_json(body) {
        Err(e) => {
            let mut msg = text::owned(SUMMARY_PARSE_ERROR);
            text::push_str(&mut msg, e.as_str());
            ValidateSessionResult { valid: false, membership_type: None, error: Some(msg) }
        },
        Ok(doc) => {
            let has_start = doc_str(&doc, "/billingCycleStart").is_some();
            let has_end = doc_str(&doc, "/billingCycleEnd").is_some();
            let membership = doc_str(&doc, "/membershipType");
            session_from_summary(has_start, has_end, membership)
        },
    }
}

} // verus!
