//! Cursor `usage.csv`: line and field splitting, row parsing into
//! `RawRecord`s, and query filtering.
use crate::attribution::{
    self, effective, filter_reason, in_slack, model_family, same_family, row_key_spec, AttributionTokenStats, CursorCsvPreviewPage,
    CursorCsvPreviewRow, EffectiveAttribution, FilterReason, LocalHookEvent, OverrideAction,
    OverrideStore, TokenQuad, ATTRIBUTION_SLACK_SECS,
};
use crate::dates;
use crate::dedup::{ins_desc, sort_desc};
use crate::models::{FilterParams, RawRecord};
use crate::text::{self, contains, lines, parse_i64, strip, trim};
use vstd::prelude::*;

verus! {

/// The provider id of every Cursor CSV record.
pub open spec fn cursor_provider() -> Seq<char> {
    "cursor"@
}

// ---------------------------------------------------------------------------
// Fields of one CSV line
// ---------------------------------------------------------------------------

/// The fields of `s` after a partial field `cur`, inside quotes or not.
/// Commas inside quotes do not split; quotes stay in the fields.
pub open spec fn csv_fields_acc(s: Seq<char>, in_quotes: bool, cur: Seq<char>) -> Seq<Seq<char>>
    decreases s.len(),
{
    if s.len() == 0 {
        seq![cur]
    } else if s[0] == '"' {
        csv_fields_acc(s.drop_first(), !in_quotes, cur.push(s[0]))
    } else if s[0] == ',' && !in_quotes {
        seq![cur] + csv_fields_acc(s.drop_first(), in_quotes, Seq::empty())
    } else {
        csv_fields_acc(s.drop_first(), in_quotes, cur.push(s[0]))
    }
}

/// The comma-separated fields of one CSV line.
pub open spec fn csv_fields(s: Seq<char>) -> Seq<Seq<char>> {
    csv_fields_acc(s, false, Seq::empty())
}

/// Splits one CSV line at the commas outside quotes.
pub fn parse_csv_line(line: &Vec<char>) -> (out: Vec<Vec<char>>)
    ensures
        text::vv_view(out@) == csv_fields(line@),
{
    let mut out: Vec<Vec<char>> = Vec::new();
    let mut cur: Vec<char> = Vec::new();
    let mut in_quotes = false;
    let mut i: usize = 0;
    assert(line@.skip(0) =~= line@);
    assert(text::vv_view(out@) + csv_fields_acc(line@.skip(0), in_quotes, cur@) =~= csv_fields(line@));
    while i < line.len()
        invariant
            i <= line.len(),
            csv_fields(line@) == text::vv_view(out@) + csv_fields_acc(line@.skip(i as int), in_quotes, cur@),
        decreases line.len() - i,
    {
        let ghost rest = line@.skip(i as int);
        assert(rest[0] == line@[i as int]);
        assert(rest.drop_first() =~= line@.skip(i + 1));
        let c = line[i];
        if c == '"' {
            in_quotes = !in_quotes;
            cur.push(c);
        } else if c == ',' && !in_quotes {
            let ghost before = text::vv_view(out@);
            let ghost field = cur@;
            let mut f = Vec::new();
            std::mem::swap(&mut f, &mut cur);
            out.push(f);
            assert(text::vv_view(out@) =~= before.push(field));
            assert(before + (seq![field] + csv_fields_acc(line@.skip(i + 1), in_quotes, Seq::empty())) =~= text::vv_view(out@) + csv_fields_acc(line@.skip(i + 1), in_quotes, cur@));
        } else {
            cur.push(c);
        }
        i = i + 1;
    }
    let ghost before = text::vv_view(out@);
    let ghost field = cur@;
    assert(line@.skip(line.len() as int) =~= Seq::<char>::empty());
    out.push(cur);
    assert(text::vv_view(out@) =~= before + seq![field]);
    out
}

// ---------------------------------------------------------------------------
// Dates
// ---------------------------------------------------------------------------

/// The epoch second of a Cursor CSV date: the first of the accepted formats
/// that chrono parses wins (millisecond `Z`, second `Z`, millisecond and
/// second without zone, then a bare date at noon); 0 when none does.
pub open spec fn csv_date_secs(s: Seq<char>) -> i64 {
    if dates::naive_datetime_utc_secs(s, "%Y-%m-%dT%H:%M:%S%.3fZ"@) is Some {
        dates::naive_datetime_utc_secs(s, "%Y-%m-%dT%H:%M:%S%.3fZ"@).unwrap()
    } else if dates::naive_datetime_utc_secs(s, "%Y-%m-%dT%H:%M:%SZ"@) is Some {
        dates::naive_datetime_utc_secs(s, "%Y-%m-%dT%H:%M:%SZ"@).unwrap()
    } else if dates::naive_datetime_utc_secs(s, "%Y-%m-%dT%H:%M:%S%.3f"@) is Some {
        dates::naive_datetime_utc_secs(s, "%Y-%m-%dT%H:%M:%S%.3f"@).unwrap()
    } else if dates::naive_datetime_utc_secs(s, "%Y-%m-%dT%H:%M:%S"@) is Some {
        dates::naive_datetime_utc_secs(s, "%Y-%m-%dT%H:%M:%S"@).unwrap()
    } else if dates::naive_date_at_utc_secs(s, "%Y-%m-%d"@, 12, 0, 0) is Some {
        dates::naive_date_at_utc_secs(s, "%Y-%m-%d"@, 12, 0, 0).unwrap()
    } else {
        0
    }
}

/// Epoch seconds of a Cursor CSV date string; 0 when no format fits.
pub fn parse_date_to_epoch_secs(date_str: &str) -> (r: i64)
    ensures
        r == csv_date_secs(date_str@),
{
    if let Some(t) = dates::parse_naive_datetime_utc(date_str, "%Y-%m-%dT%H:%M:%S%.3fZ") {
        return t;
    }
    if let Some(t) = dates::parse_naive_datetime_utc(date_str, "%Y-%m-%dT%H:%M:%SZ") {
        return t;
    }
    if let Some(t) = dates::parse_naive_datetime_utc(date_str, "%Y-%m-%dT%H:%M:%S%.3f") {
        return t;
    }
    if let Some(t) = dates::parse_naive_datetime_utc(date_str, "%Y-%m-%dT%H:%M:%S") {
        return t;
    }
    if let Some(t) = dates::parse_naive_date_at_utc(date_str, "%Y-%m-%d", 12, 0, 0) {
        return t;
    }
    0
}

// ---------------------------------------------------------------------------
// Rows
// ---------------------------------------------------------------------------

/// Column positions: model, input with cache write, input without cache
/// write, cache read, output, cost.
pub open spec fn csv_columns(header: Seq<char>) -> (int, int, int, int, int, int) {
    let fields = csv_fields(header);
    let has_kind = exists|i: int| 0 <= i < fields.len() && trim(#[trigger] fields[i]) == "Kind"@;
    if has_kind && fields.len() >= 11 {
        (4, 6, 7, 8, 9, 11)
    } else if has_kind {
        (2, 4, 5, 6, 7, 9)
    } else {
        (1, 2, 3, 4, 5, 7)
    }
}

/// A field with spaces and then quotes stripped.
pub open spec fn clean_field(f: Seq<char>) -> Seq<char> {
    strip(trim(f), '"')
}

/// A token count field: its integer value, or 0 when it does not parse.
pub open spec fn token_field(f: Seq<char>) -> i64 {
    match parse_i64(clean_field(f)) {
        Some(v) => v,
        None => 0,
    }
}

/// `max(v, 0)`.
pub open spec fn non_neg(v: int) -> int {
    if v < 0 {
        0
    } else {
        v
    }
}

/// `a - b` clamped to `i64`, then at least 0.
pub open spec fn cache_write(a: i64, b: i64) -> i64 {
    non_neg(crate::dedup::sat_sub(a, b) as int) as i64
}

/// The account part of a session id: the trimmed user id, or `_unknown`.
pub open spec fn account_uid(user_id: Seq<char>) -> Seq<char> {
    if trim(user_id).len() == 0 {
        "_unknown"@
    } else {
        trim(user_id)
    }
}

/// The day key of a date field: its first ten bytes when a character
/// boundary falls there, else the whole field.
pub open spec fn day_key(date: Seq<char>) -> Seq<char> {
    match text::byte_prefix(date, 10) {
        Some(p) => p,
        None => date,
    }
}

/// The record a data line gives, or `None` when the line is skipped: blank,
/// too few fields, no model, or a date that does not parse.
pub open spec fn csv_row(line: Seq<char>, cols: (int, int, int, int, int, int), uid: Seq<char>) -> Option<(Seq<char>, Seq<char>, i64, i64, i64, i64, i64)> {
    let fields = csv_fields(line);
    if trim(line).len() == 0 || fields.len() < cols.5 + 1 {
        None
    } else {
        let date = clean_field(fields[0]);
        let model = clean_field(fields[cols.0]);
        let created_at = csv_date_secs(date);
        if model.len() == 0 || created_at == 0 {
            None
        } else {
            let with_write = token_field(fields[cols.1]);
            let without_write = token_field(fields[cols.2]);
            let cache_read = token_field(fields[cols.3]);
            let output = token_field(fields[cols.4]);
            Some((
                "cursor-"@ + uid + "-"@ + day_key(date),
                model,
                created_at,
                non_neg(without_write as int) as i64,
                non_neg(output as int) as i64,
                non_neg(cache_read as int) as i64,
                cache_write(with_write, without_write),
            ))
        }
    }
}

/// `r` is the record that a parsed row describes.
pub open spec fn record_is(r: RawRecord, row: (Seq<char>, Seq<char>, i64, i64, i64, i64, i64)) -> bool {
    &&& r.session_id@ == row.0
    &&& r.model@ == row.1
    &&& r.provider_id@ == cursor_provider()
    &&& r.created_at == row.2
    &&& r.input_tokens == row.3
    &&& r.output_tokens == row.4
    &&& r.cache_read == row.5
    &&& r.cache_creation == row.6
    &&& r.latency == 0
    &&& !r.is_codex
}

/// The records of the data lines `ls` (header excluded), in order.
pub open spec fn csv_rows(ls: Seq<Seq<char>>, cols: (int, int, int, int, int, int), uid: Seq<char>) -> Seq<(Seq<char>, Seq<char>, i64, i64, i64, i64, i64)>
    decreases ls.len(),
{
    if ls.len() == 0 {
        Seq::empty()
    } else {
        let prev = csv_rows(ls.drop_last(), cols, uid);
        match csv_row(ls.last(), cols, uid) {
            Some(row) => prev.push(row),
            None => prev,
        }
    }
}

/// Every parsed row has non-negative token counts.
proof fn lemma_csv_rows_non_neg(ls: Seq<Seq<char>>, cols: (int, int, int, int, int, int), uid: Seq<char>)
    ensures
        forall|i: int| 0 <= i < csv_rows(ls, cols, uid).len() ==> {
            let row = #[trigger] csv_rows(ls, cols, uid)[i];
            row.3 >= 0 && row.4 >= 0 && row.5 >= 0 && row.6 >= 0
        },
    decreases ls.len(),
{
    if ls.len() > 0 {
        let prev = csv_rows(ls.drop_last(), cols, uid);
        lemma_csv_rows_non_neg(ls.drop_last(), cols, uid);
        match csv_row(ls.last(), cols, uid) {
            Some(row) => {
                let fields = csv_fields(ls.last());
                lemma_non_neg_fits(token_field(fields[cols.2]));
                lemma_non_neg_fits(token_field(fields[cols.4]));
                lemma_non_neg_fits(token_field(fields[cols.3]));
                lemma_non_neg_fits(crate::dedup::sat_sub(token_field(fields[cols.1]), token_field(fields[cols.2])));
                assert forall|i: int| 0 <= i < csv_rows(ls, cols, uid).len() implies {
                    let r = #[trigger] csv_rows(ls, cols, uid)[i];
                    r.3 >= 0 && r.4 >= 0 && r.5 >= 0 && r.6 >= 0
                } by {
                    if i < prev.len() {
                        assert(csv_rows(ls, cols, uid)[i] == prev[i]);
                    }
                }
            },
            None => {
                assert(csv_rows(ls, cols, uid) == prev);
            },
        }
    }
}

proof fn lemma_non_neg_fits(v: i64)
    ensures
        non_neg(v as int) as i64 == non_neg(v as int),
        non_neg(v as int) >= 0,
{
}

/// The header of a Cursor CSV names both `Date` and `Model`.
pub open spec fn valid_header(header: Seq<char>) -> bool {
    contains(header, "Date"@) && contains(header, "Model"@)
}

fn clean_field_exec(f: &Vec<char>) -> (r: Vec<char>)
    ensures
        r@ == clean_field(f@),
{
    let t = text::trim_vec(f);
    text::strip_vec(&t, '"')
}

fn token_field_exec(f: &Vec<char>) -> (r: i64)
    ensures
        r == token_field(f@),
{
    let c = clean_field_exec(f);
    match text::parse_i64_chars(&c) {
        Some(v) => v,
        None => 0,
    }
}

fn non_neg_i64(v: i64) -> (r: i64)
    ensures
        r == non_neg(v as int),
{
    if v < 0 {
        0
    } else {
        v
    }
}

fn columns_exec(header: &Vec<char>) -> (r: (usize, usize, usize, usize, usize, usize))
    ensures
        (r.0 as int, r.1 as int, r.2 as int, r.3 as int, r.4 as int, r.5 as int) == csv_columns(header@),
        r.5 == 7 || r.5 == 9 || r.5 == 11,
        r.0 < r.5 && r.1 < r.5 && r.2 < r.5 && r.3 < r.5 && r.4 < r.5,
{
    let fields = parse_csv_line(header);
    let kind = text::chars_of("Kind");
    let mut has_kind = false;
    let mut i: usize = 0;
    while i < fields.len()
        invariant
            i <= fields.len(),
            text::vv_view(fields@) == csv_fields(header@),
            kind@ == "Kind"@,
            has_kind == exists|k: int| 0 <= k < i && trim(#[trigger] csv_fields(header@)[k]) == "Kind"@,
        decreases fields.len() - i,
    {
        let t = text::trim_vec(&fields[i]);
        assert(csv_fields(header@)[i as int] == fields@[i as int]@);
        if text::seq_eq(&t, &kind) {
            has_kind = true;
        }
        i = i + 1;
    }
    if has_kind && fields.len() >= 11 {
        (4, 6, 7, 8, 9, 11)
    } else if has_kind {
        (2, 4, 5, 6, 7, 9)
    } else {
        (1, 2, 3, 4, 5, 7)
    }
}

fn account_uid_exec(user_id: &str) -> (r: Vec<char>)
    ensures
        r@ == account_uid(user_id@),
{
    let v = text::chars_of(user_id);
    let t = text::trim_vec(&v);
    if t.len() == 0 {
        let u = text::chars_of("_unknown");
        u
    } else {
        t
    }
}

fn csv_row_exec(line: &Vec<char>, cols: (usize, usize, usize, usize, usize, usize), uid: &Vec<char>) -> (r: Option<RawRecord>)
    requires
        cols.0 < cols.5 && cols.1 < cols.5 && cols.2 < cols.5 && cols.3 < cols.5 && cols.4 < cols.5,
        cols.5 <= 11,
    ensures
        ({
            let c = (cols.0 as int, cols.1 as int, cols.2 as int, cols.3 as int, cols.4 as int, cols.5 as int);
            match csv_row(line@, c, uid@) {
                Some(row) => r matches Some(rec) && record_is(rec, row),
                None => r is None,
            }
        }),
{
    let t = text::trim_vec(line);
    if t.len() == 0 {
        return None;
    }
    let fields = parse_csv_line(line);
    if fields.len() < cols.5 + 1 {
        return None;
    }
    proof {
        assert(csv_fields(line@)[0] == fields@[0]@);
        assert(csv_fields(line@)[cols.0 as int] == fields@[cols.0 as int]@);
        assert(csv_fields(line@)[cols.1 as int] == fields@[cols.1 as int]@);
        assert(csv_fields(line@)[cols.2 as int] == fields@[cols.2 as int]@);
        assert(csv_fields(line@)[cols.3 as int] == fields@[cols.3 as int]@);
        assert(csv_fields(line@)[cols.4 as int] == fields@[cols.4 as int]@);
    }
    let date = clean_field_exec(&fields[0]);
    let model = clean_field_exec(&fields[cols.0]);
    if model.len() == 0 {
        return None;
    }
    let date_s = text::string_from_chars(&date);
    let created_at = parse_date_to_epoch_secs(date_s.as_str());
    if created_at == 0 {
        return None;
    }
    let with_write = token_field_exec(&fields[cols.1]);
    let without_write = token_field_exec(&fields[cols.2]);
    let cache_read = token_field_exec(&fields[cols.3]);
    let output = token_field_exec(&fields[cols.4]);
    let cache_creation = non_neg_i64(crate::dedup::saturating_sub_i64(with_write, without_write));
    let day = match text::byte_prefix_exec(&date, 10) {
        Some(p) => p,
        None => date,
    };
    let mut sid = String::new();
    text::push_str(&mut sid, "cursor-");
    text::push_seq(&mut sid, uid);
    text::push_str(&mut sid, "-");
    text::push_seq(&mut sid, &day);
    let ghost expected = "cursor-"@ + uid@ + "-"@ + day_key(date@);
    assert(sid@ =~= expected);
    let rec = RawRecord {
        session_id: sid,
        model: text::string_from_chars(&model),
        provider_id: text::owned("cursor"),
        created_at,
        input_tokens: non_neg_i64(without_write),
        output_tokens: non_neg_i64(output),
        cache_read: non_neg_i64(cache_read),
        cache_creation,
        latency: 0,
        is_codex: false,
    };
    Some(rec)
}

/// The error for a `usage.csv` with no lines.
pub const CSV_EMPTY: &'static str = "Cursor CSV 为空";

/// The error for a `usage.csv` whose header lacks `Date` or `Model`.
pub const CSV_BAD_HEADER: &'static str = "无效的 Cursor CSV 表头";

/// Parses the text of a Cursor `usage.csv` into records. `user_id` goes into
/// every session id (`cursor-<uid>-<day>`) so that accounts never dedup
/// against each other. The column layout follows the header (three CSV
/// generations). Errors: empty text, or a header without `Date` and
/// `Model`.
pub fn parse_cursor_csv_text(content: &str, user_id: &str) -> (r: Result<Vec<RawRecord>, String>)
    ensures
        lines(content@).len() == 0 ==> (r matches Err(e) && e@ == CSV_EMPTY@),
        lines(content@).len() > 0 && !valid_header(lines(content@)[0]) ==> (r matches Err(e) && e@ == CSV_BAD_HEADER@),
        lines(content@).len() > 0 && valid_header(lines(content@)[0]) ==> (r matches Ok(recs) && ({
            let ls = lines(content@);
            let rows = csv_rows(ls.drop_first(), csv_columns(ls[0]), account_uid(user_id@));
            &&& recs@.len() == rows.len()
            &&& forall|i: int| 0 <= i < rows.len() ==> record_is(#[trigger] recs@[i], rows[i])
        })),
{
    let v = text::chars_of(content);
    let ls = text::split_lines(&v);
    if ls.len() == 0 {
        return Err(text::owned(CSV_EMPTY));
    }
    let header = &ls[0];
    assert(header@ == lines(content@)[0]);
    let date_w = text::chars_of("Date");
    let model_w = text::chars_of("Model");
    if !text::contains_exec(header, &date_w) || !text::contains_exec(header, &model_w) {
        return Err(text::owned(CSV_BAD_HEADER));
    }
    let cols = columns_exec(header);
    let ghost c = csv_columns(header@);
    let uid = account_uid_exec(user_id);
    let ghost all = lines(content@);
    let ghost data = all.drop_first();
    let mut recs: Vec<RawRecord> = Vec::new();
    let mut i: usize = 1;
    while i < ls.len()
        invariant
            1 <= i <= ls.len(),
            text::vv_view(ls@) == all,
            data == all.drop_first(),
            c == csv_columns(header@),
            (cols.0 as int, cols.1 as int, cols.2 as int, cols.3 as int, cols.4 as int, cols.5 as int) == c,
            cols.0 < cols.5 && cols.1 < cols.5 && cols.2 < cols.5 && cols.3 < cols.5 && cols.4 < cols.5,
            cols.5 <= 11,
            uid@ == account_uid(user_id@),
            ({
                let rows = csv_rows(data.take(i - 1), c, uid@);
                &&& recs@.len() == rows.len()
                &&& forall|k: int| 0 <= k < rows.len() ==> record_is(#[trigger] recs@[k], rows[k])
            }),
        decreases ls.len() - i,
    {
        let r = csv_row_exec(&ls[i], cols, &uid);
        proof {
            let t = data.take(i as int);
            assert(t.drop_last() =~= data.take(i - 1));
            assert(t.last() == ls@[i as int]@);
        }
        match r {
            Some(rec) => {
                recs.push(rec);
            },
            None => {},
        }
        i = i + 1;
    }
    assert(data.take(ls.len() - 1) =~= data);
    Ok(recs)
}

// ---------------------------------------------------------------------------
// Filtering
// ---------------------------------------------------------------------------

/// Whether a record passes the query's time range, provider and model.
/// Zero or empty bounds do not filter.
pub open spec fn matches_params(r: RawRecord, p: FilterParams) -> bool {
    &&& match p.from_epoch {
        Some(from) => from > 0 ==> r.created_at >= from,
        None => true,
    }
    &&& match p.to_epoch {
        Some(to) => to > 0 ==> r.created_at < to,
        None => true,
    }
    &&& match p.provider_id {
        Some(pid) => pid@.len() > 0 ==> r.provider_id@ == pid@,
        None => true,
    }
    &&& match p.model_id {
        Some(mid) => mid@.len() > 0 ==> r.model@ == mid@,
        None => true,
    }
}

/// Law: a record outside a bound that the query sets does not match it: a
/// record before `from_epoch`, at or after `to_epoch`, of another provider
/// or of another model (zero or empty bounds set nothing); a query with no
/// bound matches every record.
pub proof fn lemma_params_exclude(r: RawRecord, p: FilterParams)
    ensures
        (p.from_epoch matches Some(f) && f > 0 && r.created_at < f) ==> !matches_params(r, p),
        (p.to_epoch matches Some(t) && t > 0 && r.created_at >= t) ==> !matches_params(r, p),
        (p.provider_id matches Some(pid) && pid@.len() > 0 && r.provider_id@ != pid@) ==> !matches_params(r, p),
        (p.model_id matches Some(m) && m@.len() > 0 && r.model@ != m@) ==> !matches_params(r, p),
        (p.from_epoch is None && p.to_epoch is None && p.provider_id is None && p.model_id is None) ==> matches_params(r, p),
{
}

/// Whether a record passes the query's filters.
pub fn record_matches_params(record: &RawRecord, params: &FilterParams) -> (b: bool)
    ensures
        b == matches_params(*record, *params),
        (params.from_epoch matches Some(f) && f > 0 && record.created_at < f) ==> !b,
        (params.to_epoch matches Some(t) && t > 0 && record.created_at >= t) ==> !b,
        (params.provider_id matches Some(pid) && pid@.len() > 0 && record.provider_id@ != pid@) ==> !b,
        (params.model_id matches Some(m) && m@.len() > 0 && record.model@ != m@) ==> !b,
        (params.from_epoch is None && params.to_epoch is None && params.provider_id is None && params.model_id is None) ==> b,
{
    proof {
        lemma_params_exclude(*record, *params);
    }
    if let Some(from) = params.from_epoch {
        if from > 0 && record.created_at < from {
            return false;
        }
    }
    if let Some(to) = params.to_epoch {
        if to > 0 && record.created_at >= to {
            return false;
        }
    }
    if let Some(provider_id) = &params.provider_id {
        let pv = text::chars_of(provider_id.as_str());
        if pv.len() > 0 && !text::str_eq(record.provider_id.as_str(), provider_id.as_str()) {
            return false;
        }
    }
    if let Some(model_id) = &params.model_id {
        let mv = text::chars_of(model_id.as_str());
        if mv.len() > 0 && !text::str_eq(record.model.as_str(), model_id.as_str()) {
            return false;
        }
    }
    true
}

/// The time zone offset of a query, 0 when absent.
pub fn tz_offset(params: &FilterParams) -> (o: i64)
    ensures
        o == match params.tz_offset {
            Some(v) => v,
            None => 0,
        },
{
    match params.tz_offset {
        Some(v) => v,
        None => 0,
    }
}

// ---------------------------------------------------------------------------
// The Cursor CSV data source
// ---------------------------------------------------------------------------

/// 2026-07-13 15:30:00 in UTC+8: rows before it are never filtered by
/// local attribution.
pub const DEFAULT_ATTRIBUTION_FILTER_START: i64 = 1_783_927_800;

/// The default start of local attribution, in Unix seconds.
pub fn default_attribution_filter_start_epoch() -> (t: i64)
    ensures
        t == DEFAULT_ATTRIBUTION_FILTER_START,
{
    DEFAULT_ATTRIBUTION_FILTER_START
}

/// The algorithm's reason to filter a record: attribution must be on, there
/// must be local events, and the record must not be older than `start`.
pub open spec fn algo_reason(enabled: bool, events: Seq<LocalHookEvent>, start: i64, r: RawRecord) -> Option<FilterReason> {
    if enabled && events.len() > 0 && r.created_at >= start {
        filter_reason(r.created_at, r.model@, events, ATTRIBUTION_SLACK_SECS)
    } else {
        None
    }
}

/// The row key of a record.
pub open spec fn record_row_key(r: RawRecord) -> Seq<char> {
    row_key_spec(r.created_at, r.model@, r.input_tokens, r.output_tokens, r.cache_read, r.cache_creation)
}

/// Totals of input, output, cache read and cache write over the records
/// that `keep` selects.
pub open spec fn token_sums(recs: Seq<RawRecord>, keep: spec_fn(RawRecord) -> bool) -> (int, int, int, int)
    decreases recs.len(),
{
    if recs.len() == 0 {
        (0, 0, 0, 0)
    } else {
        let p = token_sums(recs.drop_last(), keep);
        let r = recs.last();
        if keep(r) {
            (p.0 + r.input_tokens, p.1 + r.output_tokens, p.2 + r.cache_read, p.3 + r.cache_creation)
        } else {
            p
        }
    }
}

/// The record's token counts are not negative.
pub open spec fn tokens_non_neg(r: RawRecord) -> bool {
    r.input_tokens >= 0 && r.output_tokens >= 0 && r.cache_read >= 0 && r.cache_creation >= 0
}

/// All four totals fit in `i64`.
pub open spec fn sums_fit(t: (int, int, int, int)) -> bool {
    t.0 <= i64::MAX && t.1 <= i64::MAX && t.2 <= i64::MAX && t.3 <= i64::MAX
}

/// The record at `i` comes no earlier than at `j` in preview order: newest
/// first, and in file order among equal times.
pub open spec fn time_key(recs: Seq<RawRecord>) -> spec_fn(usize) -> int {
    |i: usize| recs[i as int].created_at as int
}

/// The row indices in preview order: newest first, file order on ties.
pub open spec fn preview_order(recs: Seq<RawRecord>) -> Seq<usize> {
    sort_desc(Seq::new(recs.len(), |i: int| i as usize), time_key(recs))
}

/// The indices `0..n`.
pub open spec fn ids(n: nat) -> Seq<usize> {
    Seq::new(n, |i: int| i as usize)
}

/// A preview page number: at least 1.
pub open spec fn clamp_page(page: usize) -> usize {
    if page < 1 {
        1
    } else {
        page
    }
}

/// A preview page size: between 1 and 100.
pub open spec fn clamp_page_size(size: usize) -> usize {
    if size < 1 {
        1
    } else if size > 100 {
        100
    } else {
        size
    }
}

/// The model a preview filters on: the trimmed text, when not empty.
pub open spec fn model_choice(m: Option<Seq<char>>) -> Option<Seq<char>> {
    match m {
        Some(t) => if trim(t).len() > 0 {
            Some(trim(t))
        } else {
            None
        },
        None => None,
    }
}

/// `a * b`, or `usize::MAX` when it does not fit.
pub open spec fn sat_mul(a: usize, b: usize) -> usize {
    if a * b > usize::MAX {
        usize::MAX
    } else {
        (a * b) as usize
    }
}

/// The verdicts of a store, by row key.
pub open spec fn actions_of(store: OverrideStore) -> Map<Seq<char>, OverrideAction> {
    Map::new(|k: Seq<char>| store.spec_get(k) is Some, |k: Seq<char>| store.spec_get(k).unwrap().action)
}

/// The row keys of a sequence of records.
pub open spec fn record_keys(recs: Seq<RawRecord>) -> Set<Seq<char>> {
    Set::new(|k: Seq<char>| exists|i: int| 0 <= i < recs.len() && record_row_key(#[trigger] recs[i]) == k)
}

/// The error of a verdict change on a source that is not open.
pub const NOT_LOADED: &'static str = "Cursor 数据源未加载";

/// The Cursor CSV source of one account: its parsed rows, the local
/// attribution state and the manual verdicts.
pub struct CursorCsvService {
    cache_dir: String,
    user_id: String,
    records: Vec<RawRecord>,
    latest_timestamp: Option<i64>,
    attribution_enabled: bool,
    local_events: Vec<LocalHookEvent>,
    attribution_filter_start: i64,
    overrides: OverrideStore,
}

impl CursorCsvService {
    /// The source's invariant: the verdict store is well formed and every
    /// row has non-negative token counts.
    pub closed spec fn wf(&self) -> bool {
        &&& self.overrides.wf()
        &&& forall|i: int| 0 <= i < self.records@.len() ==> tokens_non_neg(#[trigger] self.records@[i])
    }

    pub closed spec fn spec_records(&self) -> Seq<RawRecord> {
        self.records@
    }

    pub closed spec fn spec_cache_dir(&self) -> Seq<char> {
        self.cache_dir@
    }

    pub closed spec fn spec_user_id(&self) -> Seq<char> {
        self.user_id@
    }

    pub closed spec fn spec_latest(&self) -> Option<i64> {
        self.latest_timestamp
    }

    pub closed spec fn spec_enabled(&self) -> bool {
        self.attribution_enabled
    }

    pub closed spec fn spec_events(&self) -> Seq<LocalHookEvent> {
        self.local_events@
    }

    pub closed spec fn spec_filter_start(&self) -> i64 {
        self.attribution_filter_start
    }

    /// The verdict store, entries with their times and models.
    pub closed spec fn spec_store(&self) -> OverrideStore {
        self.overrides
    }

    /// The manual verdicts, by row key.
    pub closed spec fn spec_overrides(&self) -> Map<Seq<char>, OverrideAction> {
        actions_of(self.overrides)
    }

    /// The manual verdict stored for a row key.
    pub open spec fn spec_override(&self, k: Seq<char>) -> Option<OverrideAction> {
        self.spec_overrides().get(k)
    }

    /// The final verdict on a record of this source.
    pub open spec fn spec_effective(&self, r: RawRecord) -> EffectiveAttribution {
        effective(
            algo_reason(self.spec_enabled(), self.spec_events(), self.spec_filter_start(), r),
            self.spec_override(record_row_key(r)),
        )
    }

    /// The rows a preview lists before the model filter, as indices in
    /// preview order; with `filtered_only`, only the rows filtered out.
    pub open spec fn preview_indices(&self, filtered_only: bool) -> Seq<usize> {
        let order = preview_order(self.spec_records());
        if filtered_only {
            order.filter(|i: usize| self.spec_effective(self.spec_records()[i as int]).filtered)
        } else {
            order
        }
    }

    /// The rows a preview lists, model filter applied.
    pub open spec fn preview_selection(&self, filtered_only: bool, model: Option<Seq<char>>) -> Seq<usize> {
        if model_choice(model) is Some {
            self.preview_indices(filtered_only).filter(|i: usize| self.spec_records()[i as int].model@ == model_choice(model)->Some_0)
        } else {
            self.preview_indices(filtered_only)
        }
    }

    /// `row` shows record `r` of this source.
    pub open spec fn preview_row_is(&self, row: CursorCsvPreviewRow, r: RawRecord) -> bool {
        let eff = self.spec_effective(r);
        &&& row.created_at == r.created_at
        &&& row.model@ == r.model@
        &&& row.input == r.input_tokens
        &&& row.output == r.output_tokens
        &&& row.cache_read == r.cache_read
        &&& row.cache_creation == r.cache_creation
        &&& row.filtered == eff.filtered
        &&& row.reason == eff.reason
        &&& row.override_action == eff.override_action
        &&& row.row_key@ == record_row_key(r)
        &&& (if self.spec_user_id().len() == 0 {
            row.user_id is None
        } else {
            row.user_id matches Some(u) && u@ == self.spec_user_id()
        })
        &&& (if self.spec_cache_dir().len() == 0 {
            row.cache_path is None
        } else {
            row.cache_path matches Some(c) && c@ == self.spec_cache_dir()
        })
    }

    /// An empty source, not open, attribution off.
    pub fn new() -> (s: Self)
        ensures
            s.wf(),
            s.spec_records().len() == 0,
            s.spec_cache_dir().len() == 0,
            s.spec_user_id().len() == 0,
            !s.spec_enabled(),
            s.spec_events().len() == 0,
            s.spec_filter_start() == DEFAULT_ATTRIBUTION_FILTER_START,
            s.spec_overrides() == Map::<Seq<char>, OverrideAction>::empty(),
            s.spec_latest() is None,
            forall|k: Seq<char>| s.spec_store().spec_get(k) is None,
    {
        let overrides = OverrideStore::new();
        assert(actions_of(overrides) =~= Map::<Seq<char>, OverrideAction>::empty());
        CursorCsvService {
            cache_dir: String::new(),
            user_id: String::new(),
            records: Vec::new(),
            latest_timestamp: None,
            attribution_enabled: false,
            local_events: Vec::new(),
            attribution_filter_start: default_attribution_filter_start_epoch(),
            overrides,
        }
    }

    /// The number of rows of the source.
    pub fn get_record_count(&self) -> (n: usize)
        ensures
            n == self.spec_records().len(),
    {
        self.records.len()
    }

    /// The latest row time, `None` while nothing is loaded.
    pub fn get_latest_timestamp(&self) -> (t: Option<i64>)
        ensures
            t == self.spec_latest(),
    {
        self.latest_timestamp
    }

    pub fn user_id(&self) -> (u: &str)
        ensures
            u@ == self.spec_user_id(),
    {
        self.user_id.as_str()
    }

    pub fn cache_dir(&self) -> (d: &str)
        ensures
            d@ == self.spec_cache_dir(),
    {
        self.cache_dir.as_str()
    }

    /// A source is open once a cache directory has been loaded.
    pub fn is_open(&self) -> (b: bool)
        ensures
            b == (self.spec_cache_dir().len() > 0),
    {
        let v = text::chars_of(self.cache_dir.as_str());
        v.len() > 0
    }

    /// Sets the attribution state: whether it is on, its start and the local
    /// events (cleared when it is off).
    pub fn reload_attribution(&mut self, enabled: bool, filter_start: i64, events: Vec<LocalHookEvent>)
        requires
            old(self).wf(),
        ensures
            final(self).wf(),
            final(self).spec_enabled() == enabled,
            final(self).spec_filter_start() == filter_start,
            final(self).spec_events() == if enabled { events@ } else { Seq::empty() },
            final(self).spec_records() == old(self).spec_records(),
            final(self).spec_cache_dir() == old(self).spec_cache_dir(),
            final(self).spec_user_id() == old(self).spec_user_id(),
            final(self).spec_overrides() == old(self).spec_overrides(),
    {
        self.attribution_enabled = enabled;
        self.attribution_filter_start = filter_start;
        if enabled {
            self.local_events = events;
        } else {
            self.local_events = Vec::new();
        }
    }

    /// Reloads the attribution state (same as [`Self::reload_attribution`]).
    pub fn refresh_local_events(&mut self, enabled: bool, filter_start: i64, events: Vec<LocalHookEvent>)
        requires
            old(self).wf(),
        ensures
            final(self).wf(),
            final(self).spec_enabled() == enabled,
            final(self).spec_filter_start() == filter_start,
            final(self).spec_events() == if enabled { events@ } else { Seq::empty() },
            final(self).spec_records() == old(self).spec_records(),
            final(self).spec_cache_dir() == old(self).spec_cache_dir(),
            final(self).spec_overrides() == old(self).spec_overrides(),
    {
        self.reload_attribution(enabled, filter_start, events);
    }

    /// Installs the stored verdicts, dropping those whose row no longer
    /// exists. Returns how many were dropped. A closed source keeps none.
    pub fn reload_overrides(&mut self, store: OverrideStore) -> (removed: usize)
        requires
            old(self).wf(),
            store.wf(),
        ensures
            final(self).wf(),
            final(self).spec_overrides() == if old(self).spec_cache_dir().len() == 0 {
                Map::<Seq<char>, OverrideAction>::empty()
            } else {
                actions_of(store).restrict(record_keys(old(self).spec_records()))
            },
            final(self).spec_records() == old(self).spec_records(),
            final(self).spec_enabled() == old(self).spec_enabled(),
            final(self).spec_events() == old(self).spec_events(),
            final(self).spec_filter_start() == old(self).spec_filter_start(),
            final(self).spec_cache_dir() == old(self).spec_cache_dir(),
    {
        if !self.is_open() {
            self.overrides = OverrideStore::new();
            assert(actions_of(self.overrides) =~= Map::<Seq<char>, OverrideAction>::empty());
            return 0;
        }
        let mut live: Vec<String> = Vec::new();
        let mut i: usize = 0;
        while i < self.records.len()
            invariant
                i <= self.records.len(),
                live@.len() == i,
                forall|m: int| 0 <= m < i ==> (#[trigger] live@[m])@ == record_row_key(self.records@[m]),
            decreases self.records.len() - i,
        {
            let r = &self.records[i];
            let k = attribution::row_key(r.created_at, r.model.as_str(), r.input_tokens, r.output_tokens, r.cache_read, r.cache_creation);
            live.push(k);
            i = i + 1;
        }
        let ghost given = store;
        let mut store = store;
        let removed = attribution::gc_overrides(&mut store, live.as_slice());
        proof {
            assert forall|k: Seq<char>| attribution::key_live(live@, k) <==> (exists|i: int| 0 <= i < self.records@.len() && record_row_key(#[trigger] self.records@[i]) == k) by {
                if attribution::key_live(live@, k) {
                    let m = choose|m: int| 0 <= m < live@.len() && (#[trigger] live@[m])@ == k;
                    assert(record_row_key(self.records@[m]) == k);
                }
                if exists|i: int| 0 <= i < self.records@.len() && record_row_key(#[trigger] self.records@[i]) == k {
                    let m = choose|m: int| 0 <= m < self.records@.len() && record_row_key(#[trigger] self.records@[m]) == k;
                    assert(live@[m]@ == k);
                }
            }
        }
        self.overrides = store;
        proof {
            assert forall|k: Seq<char>| attribution::key_live(live@, k) <==> #[trigger] record_keys(old(self).spec_records()).contains(k) by {}
            assert(actions_of(self.overrides) =~= actions_of(given).restrict(record_keys(old(self).spec_records())));
        }
        removed
    }

    /// Loads the parsed text of `<dir_path>/usage.csv` for account `user_id`.
    /// The attribution state is turned off and the verdicts cleared; the
    /// caller reloads them. Errors as [`parse_cursor_csv_text`] does, and
    /// leaves the source closed.
    pub fn open(&mut self, dir_path: &str, user_id: &str, csv_content: &str) -> (r: Result<(), String>)
        requires
            old(self).wf(),
        ensures
            final(self).wf(),
            r is Err ==> final(self).spec_cache_dir().len() == 0 && final(self).spec_records().len() == 0,
            r is Ok ==> ({
                let ls = lines(csv_content@);
                let rows = csv_rows(ls.drop_first(), csv_columns(ls[0]), account_uid(user_id@));
                &&& ls.len() > 0 && valid_header(ls[0])
                &&& final(self).spec_records().len() == rows.len()
                &&& (forall|i: int| 0 <= i < rows.len() ==> record_is(#[trigger] final(self).spec_records()[i], rows[i]))
                &&& final(self).spec_cache_dir() == dir_path@
                &&& final(self).spec_user_id() == user_id@
                &&& final(self).spec_latest() == max_created(final(self).spec_records())
            }),
            lines(csv_content@).len() > 0 && valid_header(lines(csv_content@)[0]) ==> r is Ok,
            lines(csv_content@).len() == 0 ==> (r matches Err(e) && e@ == CSV_EMPTY@),
            lines(csv_content@).len() > 0 && !valid_header(lines(csv_content@)[0]) ==> (r matches Err(e) && e@ == CSV_BAD_HEADER@),
            !final(self).spec_enabled(),
            final(self).spec_events().len() == 0,
            final(self).spec_overrides() == Map::<Seq<char>, OverrideAction>::empty(),
    {
        let parsed = parse_cursor_csv_text(csv_content, user_id);
        self.close();
        match parsed {
            Err(e) => Err(e),
            Ok(recs) => {
                let latest = latest_created(&recs);
                proof {
                    let ls = lines(csv_content@);
                    let rows = csv_rows(ls.drop_first(), csv_columns(ls[0]), account_uid(user_id@));
                    lemma_csv_rows_non_neg(ls.drop_first(), csv_columns(ls[0]), account_uid(user_id@));
                    assert forall|i: int| 0 <= i < recs@.len() implies tokens_non_neg(#[trigger] recs@[i]) by {
                        assert(record_is(recs@[i], rows[i]));
                    }
                }
                self.records = recs;
                self.latest_timestamp = latest;
                self.cache_dir = text::owned(dir_path);
                self.user_id = text::owned(user_id);
                Ok(())
            },
        }
    }

    /// Closes the source: no rows, no directory, attribution off.
    pub fn close(&mut self)
        requires
            old(self).wf(),
        ensures
            final(self).wf(),
            final(self).spec_records().len() == 0,
            final(self).spec_cache_dir().len() == 0,
            final(self).spec_user_id().len() == 0,
            final(self).spec_latest() is None,
            !final(self).spec_enabled(),
            final(self).spec_events().len() == 0,
            final(self).spec_filter_start() == old(self).spec_filter_start(),
            final(self).spec_overrides() == Map::<Seq<char>, OverrideAction>::empty(),
    {
        self.cache_dir = String::new();
        self.user_id = String::new();
        self.records = Vec::new();
        self.latest_timestamp = None;
        self.local_events = Vec::new();
        self.overrides = OverrideStore::new();
        assert(actions_of(self.overrides) =~= Map::<Seq<char>, OverrideAction>::empty());
        self.attribution_enabled = false;
    }

    /// The manual verdicts, as the sidecar file stores them.
    pub fn overrides(&self) -> (o: &OverrideStore)
        ensures
            *o == self.spec_store(),
            actions_of(*o) == self.spec_overrides(),
            self.wf() ==> o.wf(),
    {
        &self.overrides
    }

    /// The rows of the source.
    pub fn records_read(&self) -> (r: &[RawRecord])
        ensures
            r@ == self.spec_records(),
    {
        self.records.as_slice()
    }

    /// The algorithm's reason to filter `r`.
    pub fn algo_reason_for(&self, r: &RawRecord) -> (o: Option<FilterReason>)
        ensures
            o == algo_reason(self.spec_enabled(), self.spec_events(), self.spec_filter_start(), *r),
            r.created_at < self.spec_filter_start() ==> o is None,
            !self.spec_enabled() ==> o is None,
            self.spec_events().len() == 0 ==> o is None,
    {
        proof {
            lemma_no_reason_before_start(self.spec_enabled(), self.spec_events(), self.spec_filter_start(), *r);
        }
        let apply_attr = self.attribution_enabled && self.local_events.len() > 0;
        if apply_attr && attribution::should_apply_attribution_for_ts(r.created_at, self.attribution_filter_start) {
            attribution::explain_filter_reason(r.created_at, r.model.as_str(), self.local_events.as_slice(), ATTRIBUTION_SLACK_SECS)
        } else {
            None
        }
    }

    /// The row key of `r` and its final verdict.
    pub fn effective_for(&self, r: &RawRecord) -> (out: (String, EffectiveAttribution))
        requires
            self.wf(),
        ensures
            out.0@ == record_row_key(*r),
            out.1 == self.spec_effective(*r),
    {
        let key = attribution::row_key(r.created_at, r.model.as_str(), r.input_tokens, r.output_tokens, r.cache_read, r.cache_creation);
        let ov = self.overrides.get_action(key.as_str());
        let eff = attribution::resolve_effective(self.algo_reason_for(r), ov);
        (key, eff)
    }

    /// Token totals of all rows, and of the rows that end up filtered out
    /// (manual filters included, manual keeps excluded).
    pub fn attribution_token_stats(&self) -> (st: AttributionTokenStats)
        requires
            self.wf(),
            sums_fit(token_sums(self.spec_records(), |r: RawRecord| true)),
        ensures
            ({
                let all = token_sums(self.spec_records(), |r: RawRecord| true);
                let out = token_sums(self.spec_records(), |r: RawRecord| self.spec_effective(r).filtered);
                &&& st.csv_total.input == all.0 && st.csv_total.output == all.1
                &&& st.csv_total.cache_read == all.2 && st.csv_total.cache_creation == all.3
                &&& st.filtered_out.input == out.0 && st.filtered_out.output == out.1
                &&& st.filtered_out.cache_read == out.2 && st.filtered_out.cache_creation == out.3
            }),
    {
        let ghost all_f = |r: RawRecord| true;
        let ghost out_f = |r: RawRecord| self.spec_effective(r).filtered;
        let mut csv_total = TokenQuad { input: 0, output: 0, cache_read: 0, cache_creation: 0 };
        let mut filtered_out = TokenQuad { input: 0, output: 0, cache_read: 0, cache_creation: 0 };
        let mut i: usize = 0;
        proof {
            lemma_token_sums_prefix(self.records@, all_f, 0);
        }
        while i < self.records.len()
            invariant
                self.wf(),
                i <= self.records.len(),
                sums_fit(token_sums(self.records@, all_f)),
                all_f == (|r: RawRecord| true),
                out_f == (|r: RawRecord| self.spec_effective(r).filtered),
                token_sums(self.records@.take(i as int), all_f) == (csv_total.input as int, csv_total.output as int, csv_total.cache_read as int, csv_total.cache_creation as int),
                token_sums(self.records@.take(i as int), out_f) == (filtered_out.input as int, filtered_out.output as int, filtered_out.cache_read as int, filtered_out.cache_creation as int),
            decreases self.records.len() - i,
        {
            let r = &self.records[i];
            proof {
                let t = self.records@.take(i + 1);
                assert(t.drop_last() =~= self.records@.take(i as int));
                assert(t.last() == *r);
                assert(tokens_non_neg(self.records@[i as int]));
                lemma_token_sums_prefix(self.records@, all_f, i + 1);
                lemma_token_sums_sub(self.records@.take(i + 1), out_f);
            }
            csv_total.add_record_tokens(r.input_tokens, r.output_tokens, r.cache_read, r.cache_creation);
            let (_, eff) = self.effective_for(r);
            if eff.filtered {
                filtered_out.add_record_tokens(r.input_tokens, r.output_tokens, r.cache_read, r.cache_creation);
            }
            i = i + 1;
        }
        assert(self.records@.take(self.records.len() as int) =~= self.records@);
        AttributionTokenStats { csv_total, filtered_out }
    }

    /// The row indices in preview order.
    fn ordered_indices(&self) -> (order: Vec<usize>)
        ensures
            order@ == preview_order(self.spec_records()),
            forall|k: int| 0 <= k < order.len() ==> #[trigger] order@[k] < self.spec_records().len(),
    {
        let n = self.records.len();
        let ghost recs = self.records@;
        let mut order: Vec<usize> = Vec::new();
        let mut i: usize = 0;
        while i < n
            invariant
                n == self.records.len(),
                recs == self.records@,
                i <= n,
                order@ == sort_desc(ids(n as nat).take(i as int), time_key(recs)),
                forall|k: int| 0 <= k < order.len() ==> #[trigger] order@[k] < i,
            decreases n - i,
        {
            let t = self.records[i].created_at;
            let mut pos: usize = 0;
            while pos < order.len() && !(self.records[order[pos]].created_at < t)
                invariant
                    n == self.records.len(),
                    recs == self.records@,
                    i < n,
                    t == recs[i as int].created_at,
                    pos <= order.len(),
                    forall|k: int| 0 <= k < order.len() ==> #[trigger] order@[k] < i,
                    forall|k: int| 0 <= k < pos ==> !(time_key(recs)(#[trigger] order@[k]) < time_key(recs)(i)),
                decreases order.len() - pos,
            {
                pos = pos + 1;
            }
            proof {
                crate::dedup::lemma_ins_desc_at(order@, i, time_key(recs), pos as int);
                let u = ids(n as nat).take(i + 1);
                assert(u.drop_last() =~= ids(n as nat).take(i as int));
                assert(u.last() == i);
            }
            order.insert(pos, i);
            proof {
                assert forall|k: int| 0 <= k < order.len() implies #[trigger] order@[k] < i + 1 by {
                    if k > pos {
                        assert(order@[k] == order@.remove(pos as int)[k - 1]);
                    }
                }
            }
            i = i + 1;
        }
        assert(ids(n as nat).take(n as int) =~= ids(n as nat));
        order
    }

    /// The indices of `order` whose row ends up filtered out, in order.
    fn filtered_only_indices(&self, order: &Vec<usize>) -> (out: Vec<usize>)
        requires
            self.wf(),
            forall|k: int| 0 <= k < order.len() ==> #[trigger] order@[k] < self.spec_records().len(),
        ensures
            out@ == order@.filter(|i: usize| self.spec_effective(self.spec_records()[i as int]).filtered),
            forall|k: int| 0 <= k < out.len() ==> #[trigger] out@[k] < self.spec_records().len(),
    {
        let ghost f = |i: usize| self.spec_effective(self.spec_records()[i as int]).filtered;
        let mut out: Vec<usize> = Vec::new();
        let mut j: usize = 0;
        while j < order.len()
            invariant
                self.wf(),
                j <= order.len(),
                forall|k: int| 0 <= k < order.len() ==> #[trigger] order@[k] < self.spec_records().len(),
                f == (|i: usize| self.spec_effective(self.spec_records()[i as int]).filtered),
                out@ == order@.take(j as int).filter(f),
            decreases order.len() - j,
        {
            proof {
                let t = order@.take(j + 1);
                assert(t.drop_last() =~= order@.take(j as int));
                assert(t.last() == order@[j as int]);
                reveal_with_fuel(Seq::<_>::filter, 1);
            }
            let (_, eff) = self.effective_for(&self.records[order[j]]);
            if eff.filtered {
                out.push(order[j]);
            }
            j = j + 1;
        }
        assert(order@.take(order.len() as int) =~= order@);
        proof {
            assert forall|k: int| 0 <= k < out.len() implies #[trigger] out@[k] < self.spec_records().len() by {
                assert(order@.filter(f).contains(out@[k]));
                order@.lemma_filter_contains_rev(f, out@[k]);
            }
        }
        out
    }

    /// The indices of `listed` whose row has model `m`, in order.
    fn model_indices(&self, listed: &Vec<usize>, m: &str) -> (out: Vec<usize>)
        requires
            forall|k: int| 0 <= k < listed.len() ==> #[trigger] listed@[k] < self.spec_records().len(),
        ensures
            out@ == listed@.filter(|i: usize| self.spec_records()[i as int].model@ == m@),
            forall|k: int| 0 <= k < out.len() ==> #[trigger] out@[k] < self.spec_records().len(),
    {
        let ghost g = |i: usize| self.spec_records()[i as int].model@ == m@;
        let mut out: Vec<usize> = Vec::new();
        let mut j: usize = 0;
        while j < listed.len()
            invariant
                j <= listed.len(),
                forall|k: int| 0 <= k < listed.len() ==> #[trigger] listed@[k] < self.spec_records().len(),
                g == (|i: usize| self.spec_records()[i as int].model@ == m@),
                out@ == listed@.take(j as int).filter(g),
            decreases listed.len() - j,
        {
            proof {
                let t = listed@.take(j + 1);
                assert(t.drop_last() =~= listed@.take(j as int));
                assert(t.last() == listed@[j as int]);
                reveal_with_fuel(Seq::<_>::filter, 1);
            }
            if text::str_eq(self.records[listed[j]].model.as_str(), m) {
                out.push(listed[j]);
            }
            j = j + 1;
        }
        assert(listed@.take(listed.len() as int) =~= listed@);
        proof {
            assert forall|k: int| 0 <= k < out.len() implies #[trigger] out@[k] < self.spec_records().len() by {
                assert(listed@.filter(g).contains(out@[k]));
                listed@.lemma_filter_contains_rev(g, out@[k]);
            }
        }
        out
    }

    /// The distinct models of the rows at `listed`, in increasing order.
    fn models_on_offer(&self, listed: &Vec<usize>) -> (out: Vec<String>)
        requires
            forall|k: int| 0 <= k < listed.len() ==> #[trigger] listed@[k] < self.spec_records().len(),
        ensures
            text::strictly_sorted(text::views(out@)),
            forall|x: Seq<char>| text::views(out@).contains(x) <==> exists|j: int| 0 <= j < listed.len() && (#[trigger] self.spec_records()[listed@[j] as int]).model@ == x,
    {
        let mut models: Vec<String> = Vec::new();
        let mut j: usize = 0;
        while j < listed.len()
            invariant
                j <= listed.len(),
                forall|k: int| 0 <= k < listed.len() ==> #[trigger] listed@[k] < self.spec_records().len(),
                models@.len() == j,
                forall|k: int| 0 <= k < j ==> (#[trigger] models@[k])@ == self.spec_records()[listed@[k] as int].model@,
            decreases listed.len() - j,
        {
            let m = text::owned(self.records[listed[j]].model.as_str());
            models.push(m);
            j = j + 1;
        }
        let out = text::sorted_unique(&models);
        proof {
            assert forall|x: Seq<char>| text::views(models@).contains(x) <==> exists|j: int| 0 <= j < listed.len() && (#[trigger] self.spec_records()[listed@[j] as int]).model@ == x by {
                if text::views(models@).contains(x) {
                    let k = choose|k: int| 0 <= k < text::views(models@).len() && text::views(models@)[k] == x;
                    assert(self.spec_records()[listed@[k] as int].model@ == x);
                }
                if exists|j: int| 0 <= j < listed.len() && (#[trigger] self.spec_records()[listed@[j] as int]).model@ == x {
                    let k = choose|j: int| 0 <= j < listed.len() && (#[trigger] self.spec_records()[listed@[j] as int]).model@ == x;
                    assert(text::views(models@)[k] == x);
                }
            }
        }
        out
    }

    /// The preview rows of `chosen[start..end]`.
    fn page_rows(&self, chosen: &Vec<usize>, start: usize, end: usize) -> (items: Vec<CursorCsvPreviewRow>)
        requires
            self.wf(),
            start <= end <= chosen.len(),
            forall|a: int| 0 <= a < chosen.len() ==> #[trigger] chosen@[a] < self.spec_records().len(),
        ensures
            items.len() == end - start,
            forall|a: int| 0 <= a < items.len() ==> self.preview_row_is(#[trigger] items@[a], self.spec_records()[chosen@[start + a] as int]),
    {
        let mut items: Vec<CursorCsvPreviewRow> = Vec::new();
        let mut k: usize = start;
        while k < end
            invariant
                self.wf(),
                start <= k <= end <= chosen.len(),
                forall|a: int| 0 <= a < chosen.len() ==> #[trigger] chosen@[a] < self.spec_records().len(),
                items.len() == k - start,
                forall|a: int| 0 <= a < items.len() ==> self.preview_row_is(#[trigger] items@[a], self.spec_records()[chosen@[start + a] as int]),
            decreases end - k,
        {
            let r = &self.records[chosen[k]];
            let (key, eff) = self.effective_for(r);
            let user_id = if text::chars_of(self.user_id.as_str()).len() == 0 {
                None
            } else {
                Some(text::owned(self.user_id.as_str()))
            };
            let cache_path = if text::chars_of(self.cache_dir.as_str()).len() == 0 {
                None
            } else {
                Some(text::owned(self.cache_dir.as_str()))
            };
            let row = CursorCsvPreviewRow {
                created_at: r.created_at,
                model: text::owned(r.model.as_str()),
                input: r.input_tokens,
                output: r.output_tokens,
                cache_read: r.cache_read,
                cache_creation: r.cache_creation,
                filtered: eff.filtered,
                reason: eff.reason,
                row_key: key,
                override_action: eff.override_action,
                user_id,
                cache_path,
            };
            items.push(row);
            k = k + 1;
        }
        items
    }

    /// One page of the preview: rows newest first (file order on ties);
    /// with `filtered_only` only the rows filtered out; with a model (trimmed,
    /// not empty) only that model's rows. The page is at least 1 and its size
    /// between 1 and 100. The model list is taken before the model filter.
    pub fn preview_csv(&self, page: usize, page_size: usize, filtered_only: bool, model_filter: Option<&str>) -> (out: CursorCsvPreviewPage)
        requires
            self.wf(),
        ensures
            ({
                let p = clamp_page(page);
                let size = clamp_page_size(page_size);
                let mf = match model_filter {
                    Some(m) => Some(m@),
                    None => None,
                };
                let base = self.preview_indices(filtered_only);
                let sel = self.preview_selection(filtered_only, mf);
                let start = sat_mul((p - 1) as usize, size);
                &&& out.page == p
                &&& out.page_size == size
                &&& out.total == sel.len()
                &&& text::strictly_sorted(text::views(out.available_models@))
                &&& forall|x: Seq<char>| text::views(out.available_models@).contains(x) <==> exists|j: int| 0 <= j < base.len() && (#[trigger] self.spec_records()[base[j] as int]).model@ == x
                &&& if start >= sel.len() {
                    out.items.len() == 0
                } else {
                    let end = if sel.len() - start < size { sel.len() as int } else { start + size };
                    &&& out.items.len() == end - start
                    &&& forall|k: int| 0 <= k < out.items.len() ==> self.preview_row_is(#[trigger] out.items@[k], self.spec_records()[sel[start + k] as int])
                }
            }),
    {
        let p: usize = if page < 1 { 1 } else { page };
        let size: usize = if page_size < 1 { 1 } else if page_size > 100 { 100 } else { page_size };
        let order = self.ordered_indices();
        let listed = if filtered_only {
            self.filtered_only_indices(&order)
        } else {
            order
        };
        let ghost base = self.preview_indices(filtered_only);
        assert(listed@ == base);
        let available_models = self.models_on_offer(&listed);
        let ghost mf = match model_filter {
            Some(m) => Some(m@),
            None => None,
        };
        let ghost sel = self.preview_selection(filtered_only, mf);
        let choice: Option<String> = match model_filter {
            Some(m) => {
                let t = text::trim_str(m);
                if text::chars_of(t.as_str()).len() > 0 {
                    Some(t)
                } else {
                    None
                }
            },
            None => None,
        };
        let chosen = match &choice {
            Some(m) => {
                let c = self.model_indices(&listed, m.as_str());
                proof {
                    assert(model_choice(mf) == Some(m@));
                    let g = |i: usize| self.spec_records()[i as int].model@ == m@;
                    let g2 = |i: usize| self.spec_records()[i as int].model@ == model_choice(mf)->Some_0;
                    assert(g =~= g2);
                    assert(sel == base.filter(g2));
                    assert(c@ == sel);
                }
                c
            },
            None => {
                assert(model_choice(mf) is None);
                listed
            },
        };
        assert(chosen@ == sel);
        let total = chosen.len();
        let start: usize = match (p - 1).checked_mul(size) {
            Some(v) => v,
            None => usize::MAX,
        };
        assert(start == sat_mul((p - 1) as usize, size));
        if start >= total {
            return CursorCsvPreviewPage { items: Vec::new(), total, page: p, page_size: size, available_models };
        }
        let end: usize = if total - start < size { total } else { start + size };
        let items = self.page_rows(&chosen, start, end);
        CursorCsvPreviewPage { items, total, page: p, page_size: size, available_models }
    }

    /// Sets a manual verdict on a row; `now` is its update time. Errors when
    /// the source is not open.
    pub fn set_attribution_override(&mut self, key: &str, action: OverrideAction, created_at: i64, model: &str, now: i64) -> (r: Result<(), String>)
        requires
            old(self).wf(),
        ensures
            final(self).wf(),
            r is Err <==> old(self).spec_cache_dir().len() == 0,
            r matches Err(e) ==> e@ == NOT_LOADED@,
            r is Ok ==> final(self).spec_overrides() == old(self).spec_overrides().insert(key@, action),
            r is Ok ==> (final(self).spec_store().spec_get(key@) matches Some(e) && e.action == action
                && e.created_at == created_at && e.model@ == model@ && e.updated_at == now),
            r is Ok ==> forall|k: Seq<char>| k != key@ ==> final(self).spec_store().spec_get(k) == old(self).spec_store().spec_get(k),
            r is Err ==> final(self).spec_store() == old(self).spec_store(),
            r is Err ==> final(self).spec_overrides() == old(self).spec_overrides(),
            final(self).spec_records() == old(self).spec_records(),
            final(self).spec_cache_dir() == old(self).spec_cache_dir(),
            final(self).spec_enabled() == old(self).spec_enabled(),
            final(self).spec_events() == old(self).spec_events(),
            final(self).spec_filter_start() == old(self).spec_filter_start(),
    {
        if !self.is_open() {
            return Err(text::owned(NOT_LOADED));
        }
        let ghost before = self.overrides;
        attribution::upsert_override(&mut self.overrides, key, action, created_at, model, now);
        assert(actions_of(self.overrides) =~= actions_of(before).insert(key@, action));
        Ok(())
    }

    /// Removes the manual verdict on a row. Errors when the source is not
    /// open.
    pub fn clear_attribution_override(&mut self, key: &str) -> (r: Result<(), String>)
        requires
            old(self).wf(),
        ensures
            final(self).wf(),
            r is Err <==> old(self).spec_cache_dir().len() == 0,
            r matches Err(e) ==> e@ == NOT_LOADED@,
            r is Ok ==> final(self).spec_overrides() == old(self).spec_overrides().remove(key@),
            r is Ok ==> final(self).spec_store().spec_get(key@) is None,
            r is Ok ==> forall|k: Seq<char>| k != key@ ==> final(self).spec_store().spec_get(k) == old(self).spec_store().spec_get(k),
            r is Err ==> final(self).spec_store() == old(self).spec_store(),
            r is Err ==> final(self).spec_overrides() == old(self).spec_overrides(),
            final(self).spec_records() == old(self).spec_records(),
            final(self).spec_cache_dir() == old(self).spec_cache_dir(),
            final(self).spec_enabled() == old(self).spec_enabled(),
            final(self).spec_events() == old(self).spec_events(),
            final(self).spec_filter_start() == old(self).spec_filter_start(),
    {
        if !self.is_open() {
            return Err(text::owned(NOT_LOADED));
        }
        let ghost before = self.overrides;
        attribution::delete_override(&mut self.overrides, key);
        assert(actions_of(self.overrides) =~= actions_of(before).remove(key@));
        Ok(())
    }

    /// The rows that pass the query and are not filtered out, in order.
    pub open spec fn spec_filtered(&self, params: FilterParams) -> Seq<RawRecord> {
        self.spec_records().filter(|r: RawRecord| matches_params(r, params) && !self.spec_effective(r).filtered)
    }

    /// The rows that pass the query and are not filtered out, in order.
    pub fn filter_records(&self, params: &FilterParams) -> (out: Vec<RawRecord>)
        requires
            self.wf(),
        ensures
            out@ == self.spec_filtered(*params),
    {
        let ghost f = |r: RawRecord| matches_params(r, *params) && !self.spec_effective(r).filtered;
        let mut out: Vec<RawRecord> = Vec::new();
        let mut i: usize = 0;
        while i < self.records.len()
            invariant
                self.wf(),
                i <= self.records.len(),
                f == (|r: RawRecord| matches_params(r, *params) && !self.spec_effective(r).filtered),
                out@ == self.records@.take(i as int).filter(f),
            decreases self.records.len() - i,
        {
            let r = &self.records[i];
            proof {
                let t = self.records@.take(i + 1);
                assert(t.drop_last() =~= self.records@.take(i as int));
                assert(t.last() == *r);
                reveal_with_fuel(Seq::<_>::filter, 1);
            }
            let keep = if record_matches_params(r, params) {
                let (_, eff) = self.effective_for(r);
                !eff.filtered
            } else {
                false
            };
            if keep {
                out.push(r.clone());
            }
            i = i + 1;
        }
        assert(self.records@.take(self.records.len() as int) =~= self.records@);
        out
    }

    /// The time zone offset of a query, 0 when absent.
    pub fn tz_offset(params: &FilterParams) -> (o: i64)
        ensures
            o == match params.tz_offset {
                Some(v) => v,
                None => 0,
            },
    {
        tz_offset(params)
    }
}

/// The latest creation time of `recs`, `None` when empty.
pub open spec fn max_created(recs: Seq<RawRecord>) -> Option<i64>
    decreases recs.len(),
{
    if recs.len() == 0 {
        None
    } else {
        match max_created(recs.drop_last()) {
            Some(m) => Some(if m >= recs.last().created_at { m } else { recs.last().created_at }),
            None => Some(recs.last().created_at),
        }
    }
}

fn latest_created(recs: &Vec<RawRecord>) -> (m: Option<i64>)
    ensures
        m == max_created(recs@),
{
    let mut m: Option<i64> = None;
    let mut i: usize = 0;
    while i < recs.len()
        invariant
            i <= recs.len(),
            m == max_created(recs@.take(i as int)),
        decreases recs.len() - i,
    {
        proof {
            let t = recs@.take(i + 1);
            assert(t.drop_last() =~= recs@.take(i as int));
        }
        let c = recs[i].created_at;
        m = match m {
            Some(x) => Some(if x >= c { x } else { c }),
            None => Some(c),
        };
        i = i + 1;
    }
    assert(recs@.take(recs.len() as int) =~= recs@);
    m
}

/// The running totals of a prefix never exceed the totals of the whole when
/// the counts are not negative.
proof fn lemma_token_sums_prefix(recs: Seq<RawRecord>, keep: spec_fn(RawRecord) -> bool, n: int)
    requires
        0 <= n <= recs.len(),
        forall|i: int| 0 <= i < recs.len() ==> tokens_non_neg(#[trigger] recs[i]),
    ensures
        ({
            let a = token_sums(recs.take(n), keep);
            let b = token_sums(recs, keep);
            &&& 0 <= a.0 <= b.0 && 0 <= a.1 <= b.1 && 0 <= a.2 <= b.2 && 0 <= a.3 <= b.3
        }),
    decreases recs.len() - n,
{
    if n < recs.len() {
        let t = recs.drop_last();
        assert(t.take(n) =~= recs.take(n));
        assert forall|i: int| 0 <= i < t.len() implies tokens_non_neg(#[trigger] t[i]) by {
            assert(t[i] == recs[i]);
        }
        lemma_token_sums_prefix(t, keep, n);
        assert(tokens_non_neg(recs[recs.len() - 1]));
    } else {
        assert(recs.take(n) =~= recs);
        lemma_token_sums_non_neg(recs, keep);
    }
}

proof fn lemma_token_sums_non_neg(recs: Seq<RawRecord>, keep: spec_fn(RawRecord) -> bool)
    requires
        forall|i: int| 0 <= i < recs.len() ==> tokens_non_neg(#[trigger] recs[i]),
    ensures
        ({
            let a = token_sums(recs, keep);
            0 <= a.0 && 0 <= a.1 && 0 <= a.2 && 0 <= a.3
        }),
    decreases recs.len(),
{
    if recs.len() > 0 {
        let t = recs.drop_last();
        assert forall|i: int| 0 <= i < t.len() implies tokens_non_neg(#[trigger] t[i]) by {
            assert(t[i] == recs[i]);
        }
        lemma_token_sums_non_neg(t, keep);
        assert(tokens_non_neg(recs[recs.len() - 1]));
    }
}

/// The totals of a sub-selection stay below the totals of all rows.
proof fn lemma_token_sums_sub(recs: Seq<RawRecord>, keep: spec_fn(RawRecord) -> bool)
    requires
        forall|i: int| 0 <= i < recs.len() ==> tokens_non_neg(#[trigger] recs[i]),
    ensures
        ({
            let a = token_sums(recs, keep);
            let b = token_sums(recs, |r: RawRecord| true);
            a.0 <= b.0 && a.1 <= b.1 && a.2 <= b.2 && a.3 <= b.3
        }),
    decreases recs.len(),
{
    if recs.len() > 0 {
        let t = recs.drop_last();
        assert forall|i: int| 0 <= i < t.len() implies tokens_non_neg(#[trigger] t[i]) by {
            assert(t[i] == recs[i]);
        }
        lemma_token_sums_sub(t, keep);
        assert(tokens_non_neg(recs[recs.len() - 1]));
    }
}

/// Law: after a verdict is set on a row key (or cleared), a row with that
/// key is filtered exactly when the verdict is `Filter` (or, once cleared,
/// when the algorithm filters it), and every other row keeps the verdict it
/// had.
pub proof fn lemma_verdict_after_update(before: CursorCsvService, after: CursorCsvService, key: Seq<char>, action: Option<OverrideAction>, r: RawRecord)
    requires
        after.spec_overrides() == (match action {
            Some(a) => before.spec_overrides().insert(key, a),
            None => before.spec_overrides().remove(key),
        }),
        after.spec_enabled() == before.spec_enabled(),
        after.spec_events() == before.spec_events(),
        after.spec_filter_start() == before.spec_filter_start(),
    ensures
        record_row_key(r) == key ==> after.spec_effective(r).filtered == (match action {
            Some(a) => a == OverrideAction::Filter,
            None => algo_reason(after.spec_enabled(), after.spec_events(), after.spec_filter_start(), r) is Some,
        }),
        record_row_key(r) != key ==> after.spec_effective(r) == before.spec_effective(r),
{
    let algo = algo_reason(after.spec_enabled(), after.spec_events(), after.spec_filter_start(), r);
    crate::attribution::lemma_override_decides(algo, after.spec_override(record_row_key(r)));
}

/// Law: clearing a verdict just set on a key that had none gives every row
/// back the verdict it had before.
pub proof fn lemma_clear_undoes_set(s0: CursorCsvService, s1: CursorCsvService, s2: CursorCsvService, key: Seq<char>, action: OverrideAction, r: RawRecord)
    requires
        s0.spec_override(key) is None,
        s1.spec_overrides() == s0.spec_overrides().insert(key, action),
        s2.spec_overrides() == s1.spec_overrides().remove(key),
        s2.spec_enabled() == s0.spec_enabled(),
        s2.spec_events() == s0.spec_events(),
        s2.spec_filter_start() == s0.spec_filter_start(),
    ensures
        s2.spec_overrides() == s0.spec_overrides(),
        s2.spec_effective(r) == s0.spec_effective(r),
{
    assert(s2.spec_overrides() =~= s0.spec_overrides());
}

/// Law: the attribution algorithm gives no reason to filter a row made
/// before the attribution start, nor any row while attribution is off or
/// there is no local event.
pub proof fn lemma_no_reason_before_start(enabled: bool, events: Seq<LocalHookEvent>, start: i64, r: RawRecord)
    ensures
        r.created_at < start ==> algo_reason(enabled, events, start, r) is None,
        !enabled ==> algo_reason(enabled, events, start, r) is None,
        events.len() == 0 ==> algo_reason(enabled, events, start, r) is None,
{
}

/// Law: a row of a source made before its attribution start is filtered
/// only by a manual `Filter` verdict on its key.
pub proof fn lemma_before_start_kept(s: CursorCsvService, r: RawRecord)
    requires
        r.created_at < s.spec_filter_start(),
    ensures
        s.spec_effective(r).filtered == (s.spec_override(record_row_key(r)) == Some(OverrideAction::Filter)),
        s.spec_override(record_row_key(r)) is None ==> !s.spec_effective(r).filtered && s.spec_effective(r).reason is None,
{
    lemma_no_reason_before_start(s.spec_enabled(), s.spec_events(), s.spec_filter_start(), r);
}

/// Law: what a query returns passes every bound the query sets and is not
/// filtered out; every such row of the source is returned.
pub proof fn lemma_filtered_respects_query(s: CursorCsvService, p: FilterParams)
    ensures
        forall|i: int| 0 <= i < s.spec_filtered(p).len() ==> {
            let x = #[trigger] s.spec_filtered(p)[i];
            &&& (match p.from_epoch { Some(f) => f > 0 ==> x.created_at >= f, None => true })
            &&& (match p.to_epoch { Some(t) => t > 0 ==> x.created_at < t, None => true })
            &&& (match p.provider_id { Some(pid) => pid@.len() > 0 ==> x.provider_id@ == pid@, None => true })
            &&& (match p.model_id { Some(m) => m@.len() > 0 ==> x.model@ == m@, None => true })
            &&& !s.spec_effective(x).filtered
        },
        forall|i: int| 0 <= i < s.spec_records().len() && matches_params(#[trigger] s.spec_records()[i], p) && !s.spec_effective(s.spec_records()[i]).filtered
            ==> s.spec_filtered(p).contains(s.spec_records()[i]),
{
    let f = |r: RawRecord| matches_params(r, p) && !s.spec_effective(r).filtered;
    assert forall|i: int| 0 <= i < s.spec_filtered(p).len() implies {
        let x = #[trigger] s.spec_filtered(p)[i];
        &&& (match p.from_epoch { Some(f) => f > 0 ==> x.created_at >= f, None => true })
        &&& (match p.to_epoch { Some(t) => t > 0 ==> x.created_at < t, None => true })
        &&& (match p.provider_id { Some(pid) => pid@.len() > 0 ==> x.provider_id@ == pid@, None => true })
        &&& (match p.model_id { Some(m) => m@.len() > 0 ==> x.model@ == m@, None => true })
        &&& !s.spec_effective(x).filtered
    } by {
        let x = s.spec_filtered(p)[i];
        s.spec_records().lemma_filter_pred(f, i);
        assert(f(x));
        lemma_params_exclude(x, p);
    }
    assert forall|i: int| 0 <= i < s.spec_records().len() && matches_params(#[trigger] s.spec_records()[i], p) && !s.spec_effective(s.spec_records()[i]).filtered
        implies s.spec_filtered(p).contains(s.spec_records()[i]) by {
        s.spec_records().lemma_filter_contains(f, i);
    }
}

/// The three generations of the Cursor CSV header, field by field.
pub open spec fn header_v1() -> Seq<Seq<char>> {
    seq!["Date"@, "Model"@, "Input (w/ Cache Write)"@, "Input (w/o Cache Write)"@, "Cache Read"@, "Output Tokens"@, "Total Tokens"@, "Cost"@]
}

pub open spec fn header_v2() -> Seq<Seq<char>> {
    seq!["Date"@, "Kind"@, "Model"@, "Max Mode"@, "Input (w/ Cache Write)"@, "Input (w/o Cache Write)"@, "Cache Read"@, "Output Tokens"@,
        "Total Tokens"@, "Cost"@]
}

pub open spec fn header_v3() -> Seq<Seq<char>> {
    seq!["Date"@, "Cloud Agent ID"@, "Automation ID"@, "Kind"@, "Model"@, "Max Mode"@, "Input (w/ Cache Write)"@,
        "Input (w/o Cache Write)"@, "Cache Read"@, "Output Tokens"@, "Total Tokens"@, "Cost"@]
}

/// The header's fields, trimmed, are `names`.
pub open spec fn header_names(header: Seq<char>, names: Seq<Seq<char>>) -> bool {
    csv_fields(header).len() == names.len() && forall|i: int| 0 <= i < names.len() ==> trim(#[trigger] csv_fields(header)[i]) == names[i]
}

/// The columns found for `header` are those its fields name.
pub open spec fn columns_named(header: Seq<char>) -> bool {
    let f = csv_fields(header);
    let c = csv_columns(header);
    &&& trim(f[c.0]) == "Model"@
    &&& trim(f[c.1]) == "Input (w/ Cache Write)"@
    &&& trim(f[c.2]) == "Input (w/o Cache Write)"@
    &&& trim(f[c.3]) == "Cache Read"@
    &&& trim(f[c.4]) == "Output Tokens"@
    &&& trim(f[c.5]) == "Cost"@
}

/// Law: for a header of any of the three generations, each column the
/// parser reads (model, the two inputs, cache read, output, cost) is the
/// field of that name; so a record's output count is its `Output Tokens`
/// field, never `Total Tokens`.
pub proof fn lemma_columns_follow_header(header: Seq<char>)
    requires
        header_names(header, header_v1()) || header_names(header, header_v2()) || header_names(header, header_v3()),
    ensures
        columns_named(header),
{
    reveal_strlit("Date");
    reveal_strlit("Kind");
    reveal_strlit("Model");
    reveal_strlit("Cost");
    reveal_strlit("Max Mode");
    reveal_strlit("Cache Read");
    reveal_strlit("Output Tokens");
    reveal_strlit("Total Tokens");
    reveal_strlit("Cloud Agent ID");
    reveal_strlit("Automation ID");
    reveal_strlit("Input (w/ Cache Write)");
    reveal_strlit("Input (w/o Cache Write)");
    let f = csv_fields(header);
    if header_names(header, header_v1()) {
        assert forall|i: int| 0 <= i < f.len() implies trim(#[trigger] f[i]) != "Kind"@ by {
            assert(trim(f[i]) == header_v1()[i]);
            if i == 0 {
                assert(header_v1()[0][0] != "Kind"@[0]);
            } else if i == 1 {
                assert(header_v1()[1].len() != "Kind"@.len());
            } else if i == 7 {
                assert(header_v1()[7][0] != "Kind"@[0]);
            } else {
                assert(header_v1()[i].len() != "Kind"@.len());
            }
        }
        assert(trim(f[1]) == header_v1()[1]);
        assert(trim(f[2]) == header_v1()[2]);
        assert(trim(f[3]) == header_v1()[3]);
        assert(trim(f[4]) == header_v1()[4]);
        assert(trim(f[5]) == header_v1()[5]);
        assert(trim(f[7]) == header_v1()[7]);
    } else if header_names(header, header_v2()) {
        assert(trim(f[1]) == header_v2()[1]);
        assert(trim(f[2]) == header_v2()[2]);
        assert(trim(f[4]) == header_v2()[4]);
        assert(trim(f[5]) == header_v2()[5]);
        assert(trim(f[6]) == header_v2()[6]);
        assert(trim(f[7]) == header_v2()[7]);
        assert(trim(f[9]) == header_v2()[9]);
    } else {
        assert(trim(f[3]) == header_v3()[3]);
        assert(trim(f[4]) == header_v3()[4]);
        assert(trim(f[6]) == header_v3()[6]);
        assert(trim(f[7]) == header_v3()[7]);
        assert(trim(f[8]) == header_v3()[8]);
        assert(trim(f[9]) == header_v3()[9]);
        assert(trim(f[11]) == header_v3()[11]);
    }
}

/// Law: with attribution on and local events present, a row of the source
/// made at or after the attribution start with no event of its model family
/// inside the slack, and no manual verdict, is filtered out.
pub proof fn lemma_after_start_unmatched_filtered(s: CursorCsvService, r: RawRecord)
    requires
        s.spec_enabled(),
        s.spec_events().len() > 0,
        r.created_at >= s.spec_filter_start(),
        forall|i: int| 0 <= i < s.spec_events().len() ==> !(in_slack(#[trigger] s.spec_events()[i], r.created_at, ATTRIBUTION_SLACK_SECS)
            && same_family(s.spec_events()[i], model_family(r.model@))),
        s.spec_override(record_row_key(r)) is None,
    ensures
        s.spec_effective(r).filtered,
        s.spec_effective(r).reason is Some,
{
    attribution::lemma_unmatched_row_filtered(r.created_at, r.model@, s.spec_events(), ATTRIBUTION_SLACK_SECS);
}

} // verus!
