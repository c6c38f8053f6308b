//! Small rules of the scanners and commands: which files a scanner reads,
//! titles, fresh input tokens, the time zone of a request, path equality,
//! and adding up attribution totals.
use crate::attribution::{AttributionTokenStats, TokenQuad};
use crate::text::{self, ends_with, find, lowercase, starts_with, trim};
use vstd::prelude::*;

verus! {

// ---------------------------------------------------------------------------
// Scanner file names
// ---------------------------------------------------------------------------

/// An ASCII digit, by code.
pub open spec fn ascii_digit(c: char) -> bool {
    48 <= (c as u32) && (c as u32) <= 57
}

fn ascii_digit_exec(c: char) -> (b: bool)
    ensures
        b == ascii_digit(c),
{
    let u = c as u32;
    48 <= u && u <= 57
}

/// `YYYY-MM-DD` in ASCII digits.
pub open spec fn is_day_stamp(s: Seq<char>) -> bool {
    &&& s.len() == 10
    &&& s[4] == '-' && s[7] == '-'
    &&& forall|k: int| 0 <= k < 10 && k != 4 && k != 7 ==> ascii_digit(#[trigger] s[k])
}

/// A daily usage file of the DSH plugin: `usage-YYYY-MM-DD.jsonl`.
pub open spec fn is_plugin_name(name: Seq<char>) -> bool {
    starts_with(name, "usage-"@) && ends_with(name, ".jsonl"@) && name.len() >= 12 && is_day_stamp(name.subrange(6, name.len() - 6))
}

/// Whether a file name is a daily usage file of the DSH plugin.
pub fn is_plugin_file(name: &str) -> (b: bool)
    ensures
        b == is_plugin_name(name@),
{
    proof {
        reveal_strlit("usage-");
        reveal_strlit(".jsonl");
    }
    if !text::str_starts_with(name, "usage-") || !text::str_ends_with(name, ".jsonl") {
        return false;
    }
    let v = text::chars_of(name);
    if v.len() < 12 {
        proof {
            if v.len() >= 6 {
                assert(v@.take(6)[5] == '-');
                assert(v@.skip(v.len() - 6)[0] == '.');
                assert(v@[5] == '-');
                assert(v@[v.len() - 6] == '.');
            }
        }
        return false;
    }
    if v.len() != 22 {
        return false;
    }
    let ghost inner = v@.subrange(6, 16);
    assert(inner.len() == 10);
    if v[10] != '-' || v[13] != '-' {
        assert(inner[4] == v@[10] && inner[7] == v@[13]);
        return false;
    }
    let mut k: usize = 6;
    while k < 16
        invariant
            v.len() == 22,
            v@ == name@,
            inner == v@.subrange(6, 16),
            6 <= k <= 16,
            forall|m: int| 0 <= m < k - 6 && m != 4 && m != 7 ==> ascii_digit(#[trigger] inner[m]),
        decreases 16 - k,
    {
        if k != 10 && k != 13 {
            if !ascii_digit_exec(v[k]) {
                assert(inner[k - 6] == v@[k as int]);
                return false;
            }
            assert(inner[k - 6] == v@[k as int]);
        }
        k = k + 1;
    }
    assert(inner[4] == v@[10] && inner[7] == v@[13]);
    true
}

/// Whether a file name is a DSH session log (`.zstd` or `.jsonl`).
pub fn is_dsh_session_file(name: &str) -> (b: bool)
    ensures
        b == (ends_with(name@, ".zstd"@) || ends_with(name@, ".jsonl"@)),
{
    text::str_ends_with(name, ".zstd") || text::str_ends_with(name, ".jsonl")
}

/// What a DSH scan reports.
#[derive(Debug)]
pub struct DshScanResult {
    pub files_scanned: u32,
    pub imported: u32,
    pub skipped: u32,
    pub errors: u32,
    pub total_records: i64,
}

// ---------------------------------------------------------------------------
// Kimi titles
// ---------------------------------------------------------------------------

/// What a Kimi session's `state.json` tells.
#[derive(Debug)]
pub struct KimiSessionMetadata {
    pub session_id: String,
    pub project_dir: String,
    pub title: String,
}

impl Default for KimiSessionMetadata {
    fn default() -> (m: Self)
        ensures
            m.session_id@.len() == 0 && m.project_dir@.len() == 0 && m.title@.len() == 0,
    {
        KimiSessionMetadata { session_id: String::new(), project_dir: String::new(), title: String::new() }
    }
}

/// A Kimi title without its leading `<meta ... />` tag: the trimmed text
/// after the first `/>`, when the trimmed title starts with `<meta` and
/// something follows the tag; else the trimmed title.
pub open spec fn kimi_title(raw: Seq<char>) -> Seq<char> {
    let t = trim(raw);
    if !starts_with(t, "<meta"@) {
        t
    } else {
        match find(t, "/>"@) {
            Some(i) => if trim(t.skip(i + 2)).len() > 0 {
                trim(t.skip(i + 2))
            } else {
                t
            },
            None => t,
        }
    }
}

/// Cleans a Kimi session title.
pub fn clean_kimi_title(raw_title: &str) -> (r: String)
    ensures
        r@ == kimi_title(raw_title@),
{
    let t = text::trim_str(raw_title);
    if !text::str_starts_with(t.as_str(), "<meta") {
        return t;
    }
    let v = text::chars_of(t.as_str());
    let close = text::chars_of("/>");
    proof {
        reveal_strlit("/>");
    }
    assert(close@.len() == 2);
    match text::find_exec(&v, &close) {
        Some(i) => {
            assert(text::occurs_at(v@, close@, i as int));
            assert(i + close@.len() <= v@.len());
            assert(i + 2 <= v.len());
            let mut rest: Vec<char> = Vec::new();
            let mut k: usize = i + 2;
            while k < v.len()
                invariant
                    i + 2 <= k <= v.len(),
                    rest@ == v@.subrange(i + 2, k as int),
                decreases v.len() - k,
            {
                rest.push(v[k]);
                assert(v@.subrange(i + 2, k + 1) =~= v@.subrange(i + 2, k as int).push(v@[k as int]));
                k = k + 1;
            }
            assert(rest@ =~= v@.skip(i + 2));
            let after = text::trim_vec(&rest);
            if after.len() > 0 {
                text::string_from_chars(&after)
            } else {
                t
            }
        },
        None => t,
    }
}

// ---------------------------------------------------------------------------
// Fresh input tokens
// ---------------------------------------------------------------------------

/// Apps whose input count already includes the cache reads.
pub open spec fn cache_inclusive(app_type: Seq<char>) -> bool {
    app_type == "codex"@ || app_type == "gemini"@ || app_type == "grokbuild"@
}

/// Whether an app's input count includes its cache reads.
pub fn is_cache_inclusive_app(app_type: &str) -> (b: bool)
    ensures
        b == cache_inclusive(app_type@),
{
    text::str_eq(app_type, "codex") || text::str_eq(app_type, "gemini") || text::str_eq(app_type, "grokbuild")
}

/// The fresh input of a request: the cache reads taken out (saturating) for
/// apps that count them in, the raw input otherwise.
pub fn normalize_input_tokens(app_type: &str, raw_input: i64, cache_read: i64) -> (n: i64)
    ensures
        n == if cache_inclusive(app_type@) {
            crate::dedup::sat_sub(raw_input, cache_read)
        } else {
            raw_input
        },
{
    if is_cache_inclusive_app(app_type) {
        crate::dedup::saturating_sub_i64(raw_input, cache_read)
    } else {
        raw_input
    }
}

// ---------------------------------------------------------------------------
// Request parameters and paths
// ---------------------------------------------------------------------------

/// The pieces of `s` after a partial piece `cur`, split at `c`.
pub open spec fn split_acc(s: Seq<char>, c: char, cur: Seq<char>) -> Seq<Seq<char>>
    decreases s.len(),
{
    if s.len() == 0 {
        seq![cur]
    } else if s[0] == c {
        seq![cur] + split_acc(s.drop_first(), c, Seq::empty())
    } else {
        split_acc(s.drop_first(), c, cur.push(s[0]))
    }
}

/// The pieces of `s` between the separators `c` (what `str::split(c)`
/// yields).
pub open spec fn split_on(s: Seq<char>, c: char) -> Seq<Seq<char>> {
    split_acc(s, c, Seq::empty())
}

/// The first piece of `ps` starting with `tz=`, if any.
pub open spec fn first_tz_piece(ps: Seq<Seq<char>>) -> Option<Seq<char>>
    decreases ps.len(),
{
    if ps.len() == 0 {
        None
    } else if starts_with(ps[0], "tz="@) {
        Some(ps[0])
    } else {
        first_tz_piece(ps.drop_first())
    }
}

/// The UTC offset (hours) a request path asks for: the first `tz=` item of
/// its query as an integer; 8 when absent or not a number.
pub open spec fn tz_of_path(path: Seq<char>) -> i64 {
    let parts = split_on(path, '?');
    let query = if parts.len() > 1 { parts[1] } else { Seq::empty() };
    match first_tz_piece(split_on(query, '&')) {
        Some(p) => match text::parse_i64(p.skip(3)) {
            Some(v) => v,
            None => 8,
        },
        None => 8,
    }
}

/// Splits `v` at every `c`.
fn split_char(v: &Vec<char>, c: char) -> (out: Vec<Vec<char>>)
    ensures
        text::vv_view(out@) == split_on(v@, c),
{
    let mut out: Vec<Vec<char>> = Vec::new();
    let mut cur: Vec<char> = Vec::new();
    let mut i: usize = 0;
    assert(v@.skip(0) =~= v@);
    assert(text::vv_view(out@) + split_acc(v@.skip(0), c, cur@) =~= split_on(v@, c));
    while i < v.len()
        invariant
            i <= v.len(),
            split_on(v@, c) == text::vv_view(out@) + split_acc(v@.skip(i as int), c, cur@),
        decreases v.len() - i,
    {
        let ghost rest = v@.skip(i as int);
        assert(rest[0] == v@[i as int]);
        assert(rest.drop_first() =~= v@.skip(i + 1));
        let x = v[i];
        if x == c {
            let ghost before = text::vv_view(out@);
            let ghost piece = cur@;
            let mut p = Vec::new();
            std::mem::swap(&mut p, &mut cur);
            out.push(p);
            assert(text::vv_view(out@) =~= before.push(piece));
            assert(before + (seq![piece] + split_acc(v@.skip(i + 1), c, Seq::empty())) =~= text::vv_view(out@) + split_acc(v@.skip(i + 1), c, cur@));
        } else {
            cur.push(x);
        }
        i = i + 1;
    }
    let ghost before = text::vv_view(out@);
    let ghost piece = cur@;
    assert(v@.skip(v.len() as int) =~= Seq::<char>::empty());
    out.push(cur);
    assert(text::vv_view(out@) =~= before + seq![piece]);
    out
}

/// The UTC offset (hours) that a request path asks for with `tz=`.
pub fn parse_tz_param(path: &str) -> (tz: i64)
    ensures
        tz == tz_of_path(path@),
{
    let v = text::chars_of(path);
    let parts = split_char(&v, '?');
    let query: Vec<char> = if parts.len() > 1 {
        assert(text::vv_view(parts@)[1] == parts@[1]@);
        parts[1].clone()
    } else {
        Vec::new()
    };
    assert(query@ == (if split_on(path@, '?').len() > 1 { split_on(path@, '?')[1] } else { Seq::<char>::empty() }));
    let pieces = split_char(&query, '&');
    let tz_w = text::chars_of("tz=");
    proof {
        reveal_strlit("tz=");
    }
    assert(tz_w@.len() == 3);
    let mut i: usize = 0;
    assert(text::vv_view(pieces@).skip(0) =~= text::vv_view(pieces@));
    while i < pieces.len()
        invariant
            i <= pieces.len(),
            tz_w@ == "tz="@,
            tz_w@.len() == 3,
            query@ == (if split_on(path@, '?').len() > 1 { split_on(path@, '?')[1] } else { Seq::empty() }),
            first_tz_piece(split_on(query@, '&')) == first_tz_piece(text::vv_view(pieces@).skip(i as int)),
        decreases pieces.len() - i,
    {
        let ghost rest = text::vv_view(pieces@).skip(i as int);
        assert(rest[0] == pieces@[i as int]@);
        assert(rest.drop_first() =~= text::vv_view(pieces@).skip(i + 1));
        if text::starts_with_exec(&pieces[i], &tz_w) {
            let piece = &pieces[i];
            let mut digits: Vec<char> = Vec::new();
            let mut k: usize = 3;
            while k < piece.len()
                invariant
                    3 <= k <= piece.len(),
                    digits@ == piece@.subrange(3, k as int),
                decreases piece.len() - k,
            {
                digits.push(piece[k]);
                assert(piece@.subrange(3, k + 1) =~= piece@.subrange(3, k as int).push(piece@[k as int]));
                k = k + 1;
            }
            assert(digits@ =~= piece@.skip(3));
            return match text::parse_i64_chars(&digits) {
                Some(x) => x,
                None => 8,
            };
        }
        i = i + 1;
    }
    8
}

/// A path as compared: backslashes as slashes, trailing slashes dropped,
/// lower case.
pub open spec fn path_key(p: Seq<char>) -> Seq<char> {
    lowercase(strip_trailing_slashes(crate::hooks::forward_slashes(p)))
}

/// `s` without trailing slashes.
pub open spec fn strip_trailing_slashes(s: Seq<char>) -> Seq<char> {
    text::strip_end(s, '/')
}

fn path_key_exec(p: &str) -> (r: String)
    ensures
        r@ == path_key(p@),
{
    let v = text::chars_of(p);
    let mut f: Vec<char> = Vec::new();
    let mut i: usize = 0;
    while i < v.len()
        invariant
            i <= v.len(),
            v@ == p@,
            f@ == crate::hooks::forward_slashes(v@.take(i as int)),
        decreases v.len() - i,
    {
        let c = v[i];
        f.push(if c == '\\' { '/' } else { c });
        assert(crate::hooks::forward_slashes(v@.take(i + 1)) =~= crate::hooks::forward_slashes(v@.take(i as int)).push(if c == '\\' { '/' } else { c }));
        i = i + 1;
    }
    assert(v@.take(v.len() as int) =~= v@);
    let mut end = f.len();
    assert(f@.take(f.len() as int) =~= f@);
    while end > 0 && f[end - 1] == '/'
        invariant
            end <= f.len(),
            text::strip_end(f@, '/') == text::strip_end(f@.take(end as int), '/'),
        decreases end,
    {
        assert(f@.take(end as int).drop_last() =~= f@.take(end - 1));
        end = end - 1;
    }
    proof {
        assert(f@.take(f.len() as int) =~= f@);
    }
    let trimmed = text::string_from_range(&f, 0, end);
    assert(f@.subrange(0, end as int) =~= f@.take(end as int));
    text::to_lowercase(trimmed.as_str())
}

/// Two database paths name the same file: equal once backslashes are read
/// as slashes, trailing slashes dropped and case ignored.
pub fn path_equals_ignore_slash(a: &str, b: &str) -> (r: bool)
    ensures
        r == (path_key(a@) == path_key(b@)),
{
    let na = path_key_exec(a);
    let nb = path_key_exec(b);
    text::str_eq(na.as_str(), nb.as_str())
}

/// Whether CC-Switch databases are discovered automatically: as the
/// `ccs_auto_discover` setting says (`on` / `off`), else on for users who
/// already have stored sources.
pub fn ccs_auto_discover_enabled(setting: Option<&str>, has_stored_sources: bool) -> (b: bool)
    ensures
        b == match setting {
            Some(v) => if v@ == "on"@ {
                true
            } else if v@ == "off"@ {
                false
            } else {
                has_stored_sources
            },
            None => has_stored_sources,
        },
{
    match setting {
        Some(v) => if text::str_eq(v, "on") {
            true
        } else if text::str_eq(v, "off") {
            false
        } else {
            has_stored_sources
        },
        None => has_stored_sources,
    }
}

// ---------------------------------------------------------------------------
// Adding up attribution totals over accounts
// ---------------------------------------------------------------------------

/// Adds `from`'s four counts into `into`.
pub fn merge_token_quad(into: &mut TokenQuad, from: &TokenQuad)
    requires
        i64::MIN <= old(into).input + from.input <= i64::MAX,
        i64::MIN <= old(into).output + from.output <= i64::MAX,
        i64::MIN <= old(into).cache_read + from.cache_read <= i64::MAX,
        i64::MIN <= old(into).cache_creation + from.cache_creation <= i64::MAX,
    ensures
        final(into).input == old(into).input + from.input,
        final(into).output == old(into).output + from.output,
        final(into).cache_read == old(into).cache_read + from.cache_read,
        final(into).cache_creation == old(into).cache_creation + from.cache_creation,
{
    into.input = into.input + from.input;
    into.output = into.output + from.output;
    into.cache_read = into.cache_read + from.cache_read;
    into.cache_creation = into.cache_creation + from.cache_creation;
}

/// Adds `from`'s totals into `into`.
pub fn merge_attr_stats(into: &mut AttributionTokenStats, from: &AttributionTokenStats)
    requires
        i64::MIN <= old(into).csv_total.input + from.csv_total.input <= i64::MAX,
        i64::MIN <= old(into).csv_total.output + from.csv_total.output <= i64::MAX,
        i64::MIN <= old(into).csv_total.cache_read + from.csv_total.cache_read <= i64::MAX,
        i64::MIN <= old(into).csv_total.cache_creation + from.csv_total.cache_creation <= i64::MAX,
        i64::MIN <= old(into).filtered_out.input + from.filtered_out.input <= i64::MAX,
        i64::MIN <= old(into).filtered_out.output + from.filtered_out.output <= i64::MAX,
        i64::MIN <= old(into).filtered_out.cache_read + from.filtered_out.cache_read <= i64::MAX,
        i64::MIN <= old(into).filtered_out.cache_creation + from.filtered_out.cache_creation <= i64::MAX,
    ensures
        final(into).csv_total.input == old(into).csv_total.input + from.csv_total.input,
        final(into).csv_total.output == old(into).csv_total.output + from.csv_total.output,
        final(into).csv_total.cache_read == old(into).csv_total.cache_read + from.csv_total.cache_read,
        final(into).csv_total.cache_creation == old(into).csv_total.cache_creation + from.csv_total.cache_creation,
        final(into).filtered_out.input == old(into).filtered_out.input + from.filtered_out.input,
        final(into).filtered_out.output == old(into).filtered_out.output + from.filtered_out.output,
        final(into).filtered_out.cache_read == old(into).filtered_out.cache_read + from.filtered_out.cache_read,
        final(into).filtered_out.cache_creation == old(into).filtered_out.cache_creation + from.filtered_out.cache_creation,
{
    merge_token_quad(&mut into.csv_total, &from.csv_total);
    merge_token_quad(&mut into.filtered_out, &from.filtered_out);
}

} // verus!
