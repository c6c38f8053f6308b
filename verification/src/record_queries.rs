//! Queries that file-backed sources (Cursor CSV, Cursor-BYOK) answer from
//! their records: models, date range, per-session context widths, request
//! tokens, the per-minute trend and the recent request log.
use crate::data_source::{bucket_is_sum, buckets_increasing, flatten_buckets, has_bucket, merge_realtime_buckets, nested_views, bucket_sums_fit};
use crate::dedup::{ins_desc, sort_desc};
use crate::byok::{CursorByokDbService, BYOK_PROVIDER_ID, BYOK_PROVIDER_NAME};
use crate::cursor_csv::{cursor_provider, CursorCsvService};
use crate::models::{DateRange, FilterParams, Provider, RawRecord, RealtimeBucket, SessionRequestToken};
use crate::text;
use vstd::prelude::*;

verus! {

/// Some record has model `x`.
pub open spec fn has_model(records: Seq<RawRecord>, x: Seq<char>) -> bool {
    exists|i: int| 0 <= i < records.len() && (#[trigger] records[i]).model@ == x
}

/// The distinct models of the records, in increasing order.
pub fn models_of(records: &[RawRecord]) -> (out: Vec<String>)
    ensures
        text::strictly_sorted(text::views(out@)),
        forall|x: Seq<char>| text::views(out@).contains(x) <==> has_model(records@, x),
{
    let mut all: Vec<String> = Vec::new();
    let mut i: usize = 0;
    while i < records.len()
        invariant
            i <= records.len(),
            all.len() == i,
            forall|k: int| 0 <= k < i ==> (#[trigger] all@[k])@ == records@[k].model@,
        decreases records.len() - i,
    {
        all.push(records[i].model.clone());
        i = i + 1;
    }
    let out = text::sorted_unique(&all);
    proof {
        assert forall|x: Seq<char>| text::views(all@).contains(x) <==> has_model(records@, x) by {
            if text::views(all@).contains(x) {
                let k = choose|k: int| 0 <= k < text::views(all@).len() && text::views(all@)[k] == x;
                assert(records@[k].model@ == x);
            }
            if has_model(records@, x) {
                let k = choose|k: int| 0 <= k < records@.len() && (#[trigger] records@[k]).model@ == x;
                assert(text::views(all@)[k] == x);
            }
        }
    }
    out
}

/// The earliest creation time of the records (0 when there is none).
pub open spec fn earliest(records: Seq<RawRecord>) -> i64
    decreases records.len(),
{
    if records.len() == 0 {
        0
    } else if records.len() == 1 {
        records[0].created_at
    } else {
        let m = earliest(records.drop_last());
        if records.last().created_at < m { records.last().created_at } else { m }
    }
}

/// The latest creation time of the records (0 when there is none).
pub open spec fn latest(records: Seq<RawRecord>) -> i64
    decreases records.len(),
{
    if records.len() == 0 {
        0
    } else if records.len() == 1 {
        records[0].created_at
    } else {
        let m = latest(records.drop_last());
        if records.last().created_at > m { records.last().created_at } else { m }
    }
}

/// The span of creation times of the records; 0 to 0 when there is none.
pub fn date_range_of(records: &[RawRecord]) -> (r: DateRange)
    ensures
        r.min == earliest(records@),
        r.max == latest(records@),
{
    if records.len() == 0 {
        return DateRange { min: 0, max: 0 };
    }
    let mut lo = records[0].created_at;
    let mut hi = records[0].created_at;
    let mut i: usize = 1;
    assert(records@.take(1)[0] == records@[0]);
    while i < records.len()
        invariant
            1 <= i <= records.len(),
            lo == earliest(records@.take(i as int)),
            hi == latest(records@.take(i as int)),
        decreases records.len() - i,
    {
        proof {
            let t = records@.take(i + 1);
            assert(t.drop_last() =~= records@.take(i as int));
        }
        if records[i].created_at < lo {
            lo = records[i].created_at;
        }
        if records[i].created_at > hi {
            hi = records[i].created_at;
        }
        i = i + 1;
    }
    assert(records@.take(records.len() as int) =~= records@);
    DateRange { min: lo, max: hi }
}

/// The context width of a request: its input plus its cache reads.
pub open spec fn width_of(r: RawRecord) -> int {
    r.input_tokens + r.cache_read
}

/// Every record's width fits in `i64`.
pub open spec fn widths_fit(records: Seq<RawRecord>) -> bool {
    forall|i: int| 0 <= i < records.len() ==> i64::MIN <= width_of(#[trigger] records[i]) <= i64::MAX
}

/// `ids` names session `k`.
pub open spec fn id_listed(ids: Seq<String>, k: Seq<char>) -> bool {
    exists|j: int| 0 <= j < ids.len() && (#[trigger] ids[j])@ == k
}

/// The widest request of session `k` among the records, if it has any.
pub open spec fn max_width(records: Seq<RawRecord>, k: Seq<char>) -> Option<int>
    decreases records.len(),
{
    if records.len() == 0 {
        None
    } else {
        let p = max_width(records.drop_last(), k);
        let r = records.last();
        if r.session_id@ == k {
            match p {
                Some(w) => Some(if width_of(r) > w { width_of(r) } else { w }),
                None => Some(width_of(r)),
            }
        } else {
            p
        }
    }
}

/// The largest context width of each listed session that has records, once
/// per session (in order of its first record).
pub fn session_max_context_widths(records: &[RawRecord], ids: &Vec<String>) -> (out: Vec<(String, i64)>)
    requires
        widths_fit(records@),
    ensures
        forall|a: int, b: int| 0 <= a < b < out.len() ==> (#[trigger] out@[a]).0@ != (#[trigger] out@[b]).0@,
        forall|a: int| 0 <= a < out.len() ==> id_listed(ids@, (#[trigger] out@[a]).0@) && max_width(records@, out@[a].0@) == Some(out@[a].1 as int),
        forall|k: Seq<char>| id_listed(ids@, k) && max_width(records@, k) is Some ==> exists|a: int| 0 <= a < out.len() && (#[trigger] out@[a]).0@ == k,
{
    let mut out: Vec<(String, i64)> = Vec::new();
    let mut i: usize = 0;
    while i < records.len()
        invariant
            i <= records.len(),
            widths_fit(records@),
            forall|a: int, b: int| 0 <= a < b < out.len() ==> (#[trigger] out@[a]).0@ != (#[trigger] out@[b]).0@,
            forall|a: int| 0 <= a < out.len() ==> id_listed(ids@, (#[trigger] out@[a]).0@) && max_width(records@.take(i as int), out@[a].0@) == Some(out@[a].1 as int),
            forall|k: Seq<char>| id_listed(ids@, k) && max_width(records@.take(i as int), k) is Some ==> exists|a: int| 0 <= a < out.len() && (#[trigger] out@[a]).0@ == k,
        decreases records.len() - i,
    {
        let ghost pre = records@.take(i as int);
        let ghost post = records@.take(i + 1);
        proof {
            assert(post.drop_last() =~= pre);
            assert(post.last() == records@[i as int]);
        }
        let r = &records[i];
        let mut listed = false;
        let mut j: usize = 0;
        while j < ids.len()
            invariant
                j <= ids.len(),
                listed <==> exists|m: int| 0 <= m < j && (#[trigger] ids@[m])@ == r.session_id@,
            decreases ids.len() - j,
        {
            if text::str_eq(ids[j].as_str(), r.session_id.as_str()) {
                listed = true;
            }
            j = j + 1;
        }
        assert(listed == id_listed(ids@, r.session_id@));
        if listed {
            proof {
                assert(i64::MIN <= width_of(records@[i as int]) <= i64::MAX);
            }
            let w = r.input_tokens + r.cache_read;
            let mut pos: usize = 0;
            let mut found = false;
            while pos < out.len()
                invariant_except_break
                    !found,
                invariant
                    pos <= out.len(),
                    forall|a: int| 0 <= a < pos ==> (#[trigger] out@[a]).0@ != r.session_id@,
                ensures
                    found ==> pos < out.len() && out@[pos as int].0@ == r.session_id@,
                    !found ==> pos == out.len(),
                decreases out.len() - pos,
            {
                if text::str_eq(out[pos].0.as_str(), r.session_id.as_str()) {
                    found = true;
                    break;
                }
                pos = pos + 1;
            }
            let ghost old_out = out@;
            if found {
                let cur = out[pos].1;
                if w > cur {
                    let k = out[pos].0.clone();
                    out.set(pos, (k, w));
                }
                proof {
                    assert forall|a: int, b: int| 0 <= a < b < out.len() implies (#[trigger] out@[a]).0@ != (#[trigger] out@[b]).0@ by {
                        assert(out@[a].0@ == old_out[a].0@ && out@[b].0@ == old_out[b].0@);
                    }
                    assert forall|a: int| 0 <= a < out.len() implies id_listed(ids@, (#[trigger] out@[a]).0@) && max_width(post, out@[a].0@) == Some(out@[a].1 as int) by {
                        assert(out@[a].0@ == old_out[a].0@);
                        assert(max_width(pre, old_out[a].0@) == Some(old_out[a].1 as int));
                    }
                    assert forall|k: Seq<char>| id_listed(ids@, k) && max_width(post, k) is Some implies exists|a: int| 0 <= a < out.len() && (#[trigger] out@[a]).0@ == k by {
                        if k == r.session_id@ {
                            assert(out@[pos as int].0@ == k);
                        } else {
                            assert(max_width(pre, k) is Some);
                            let a = choose|a: int| 0 <= a < old_out.len() && (#[trigger] old_out[a]).0@ == k;
                            assert(out@[a].0@ == k);
                        }
                    }
                }
            } else {
                let k = r.session_id.clone();
                out.push((k, w));
                proof {
                    assert(max_width(pre, r.session_id@) is None) by {
                        if max_width(pre, r.session_id@) is Some {
                            let a = choose|a: int| 0 <= a < old_out.len() && (#[trigger] old_out[a]).0@ == r.session_id@;
                            assert(old_out[a].0@ != r.session_id@);
                        }
                    }
                    assert forall|a: int, b: int| 0 <= a < b < out.len() implies (#[trigger] out@[a]).0@ != (#[trigger] out@[b]).0@ by {
                        if b < old_out.len() {
                            assert(out@[a] == old_out[a] && out@[b] == old_out[b]);
                        } else {
                            assert(out@[a] == old_out[a]);
                        }
                    }
                    assert forall|a: int| 0 <= a < out.len() implies id_listed(ids@, (#[trigger] out@[a]).0@) && max_width(post, out@[a].0@) == Some(out@[a].1 as int) by {
                        if a < old_out.len() {
                            assert(out@[a] == old_out[a]);
                            assert(max_width(pre, old_out[a].0@) == Some(old_out[a].1 as int));
                        }
                    }
                    assert forall|k: Seq<char>| id_listed(ids@, k) && max_width(post, k) is Some implies exists|a: int| 0 <= a < out.len() && (#[trigger] out@[a]).0@ == k by {
                        if k == r.session_id@ {
                            assert(out@[old_out.len() as int].0@ == k);
                        } else {
                            assert(max_width(pre, k) is Some);
                            let a = choose|a: int| 0 <= a < old_out.len() && (#[trigger] old_out[a]).0@ == k;
                            assert(out@[a] == old_out[a]);
                        }
                    }
                }
            }
        } else {
            proof {
                assert forall|a: int| 0 <= a < out.len() implies id_listed(ids@, (#[trigger] out@[a]).0@) && max_width(post, out@[a].0@) == Some(out@[a].1 as int) by {
                    assert(max_width(pre, out@[a].0@) == Some(out@[a].1 as int));
                }
                assert forall|k: Seq<char>| id_listed(ids@, k) && max_width(post, k) is Some implies exists|a: int| 0 <= a < out.len() && (#[trigger] out@[a]).0@ == k by {
                    assert(max_width(pre, k) is Some);
                }
            }
        }
        i = i + 1;
    }
    assert(records@.take(records.len() as int) =~= records@);
    out
}

/// The request-token row of a record.
pub open spec fn token_of(r: RawRecord, t: SessionRequestToken) -> bool {
    &&& t.session_id@ == r.session_id@
    &&& t.model@ == r.model@
    &&& t.created_at == r.created_at
    &&& t.input_tokens == r.input_tokens
    &&& t.output_tokens == r.output_tokens
    &&& t.cache_read == r.cache_read
    &&& t.cache_creation == r.cache_creation
}

/// The request-token rows of the records, in order.
pub fn request_tokens_of(records: &[RawRecord]) -> (out: Vec<SessionRequestToken>)
    ensures
        out.len() == records.len(),
        forall|i: int| 0 <= i < out.len() ==> token_of(records@[i], #[trigger] out@[i]),
{
    let mut out: Vec<SessionRequestToken> = Vec::new();
    let mut i: usize = 0;
    while i < records.len()
        invariant
            i <= records.len(),
            out.len() == i,
            forall|k: int| 0 <= k < i ==> token_of(records@[k], #[trigger] out@[k]),
        decreases records.len() - i,
    {
        let r = &records[i];
        out.push(SessionRequestToken {
            session_id: r.session_id.clone(),
            model: r.model.clone(),
            created_at: r.created_at,
            input_tokens: r.input_tokens,
            output_tokens: r.output_tokens,
            cache_read: r.cache_read,
            cache_creation: r.cache_creation,
        });
        i = i + 1;
    }
    out
}

/// The start of the minute of `t`, as Rust computes `(t / 60) * 60`
/// (division rounding toward zero).
pub open spec fn minute_of(t: i64) -> int {
    if t >= 0 {
        (t / 60) * 60
    } else {
        -(((-t) / 60) * 60)
    }
}

/// The one-request bucket of a record.
pub open spec fn unit_bucket(r: RawRecord) -> RealtimeBucket {
    RealtimeBucket {
        bucket: minute_of(r.created_at) as i64,
        requests: 1,
        input_tokens: r.input_tokens,
        output_tokens: r.output_tokens,
        cache_read: r.cache_read,
        cache_creation: r.cache_creation,
    }
}

/// The one-request buckets of the records created at or after `since`.
pub open spec fn recent_units(records: Seq<RawRecord>, since: i64) -> Seq<RealtimeBucket> {
    records.filter(|r: RawRecord| r.created_at >= since).map_values(|r: RawRecord| unit_bucket(r))
}

/// Per-minute totals of the records created at or after `since`: one bucket
/// per minute, with the number of requests and the summed counts, ordered by
/// minute.
pub fn minute_token_trend(records: &[RawRecord], since: i64) -> (out: Vec<RealtimeBucket>)
    requires
        bucket_sums_fit(recent_units(records@, since)),
    ensures
        buckets_increasing(out@),
        forall|key: i64| has_bucket(out@, key) <==> has_bucket(recent_units(records@, since), key),
        forall|i: int| 0 <= i < out.len() ==> bucket_is_sum(#[trigger] out@[i], recent_units(records@, since)),
{
    let ghost f = |r: RawRecord| r.created_at >= since;
    let mut units: Vec<RealtimeBucket> = Vec::new();
    let mut i: usize = 0;
    while i < records.len()
        invariant
            i <= records.len(),
            f == (|r: RawRecord| r.created_at >= since),
            units@ == records@.take(i as int).filter(f).map_values(|r: RawRecord| unit_bucket(r)),
        decreases records.len() - i,
    {
        proof {
            let t = records@.take(i + 1);
            assert(t.drop_last() =~= records@.take(i as int));
            assert(t.last() == records@[i as int]);
            reveal_with_fuel(Seq::<_>::filter, 1);
        }
        let r = &records[i];
        if r.created_at >= since {
            let t = r.created_at;
            let m: i64 = if t >= 0 { (t / 60) * 60 } else { -(((-(t as i128)) / 60) * 60) as i64 };
            let ghost before = units@;
            units.push(RealtimeBucket {
                bucket: m,
                requests: 1,
                input_tokens: r.input_tokens,
                output_tokens: r.output_tokens,
                cache_read: r.cache_read,
                cache_creation: r.cache_creation,
            });
            proof {
                let fl = records@.take(i + 1).filter(f);
                assert(fl == records@.take(i as int).filter(f).push(records@[i as int]));
                assert(units@ =~= fl.map_values(|r: RawRecord| unit_bucket(r)));
            }
        } else {
            proof {
                assert(records@.take(i + 1).filter(f) == records@.take(i as int).filter(f));
            }
        }
        i = i + 1;
    }
    assert(records@.take(records.len() as int) =~= records@);
    let ghost uv = units@;
    let lists = vec![units];
    proof {
        let nv = nested_views(lists@);
        assert(nv.len() == 1);
        assert(nv[0] == uv);
        assert(nv.drop_last() =~= Seq::<Seq<RealtimeBucket>>::empty());
        assert(flatten_buckets(nv.drop_last()) =~= Seq::<RealtimeBucket>::empty());
        assert(flatten_buckets(nv) =~= uv);
    }
    merge_realtime_buckets(lists)
}

/// A row of the recent request log: session, model, provider, time, input,
/// output, cache read, cache write, latency, and whether it is a Codex row.
pub type RequestLogRow = (String, String, String, i64, i64, i64, i64, i64, i64, bool);

/// The log row of a record (never a Codex row).
pub open spec fn log_row_of(r: RawRecord, row: RequestLogRow) -> bool {
    &&& row.0@ == r.session_id@
    &&& row.1@ == r.model@
    &&& row.2@ == r.provider_id@
    &&& row.3 == r.created_at
    &&& row.4 == r.input_tokens
    &&& row.5 == r.output_tokens
    &&& row.6 == r.cache_read
    &&& row.7 == r.cache_creation
    &&& row.8 == r.latency
    &&& !row.9
}

/// The records a recent log lists: those created after `since` (all when
/// `since` is `None`), newest first, ties in record order; at most `top_n`
/// of them when `since` is `None`.
pub open spec fn recent_log_records(records: Seq<RawRecord>, since: Option<i64>, top_n: usize) -> Seq<RawRecord> {
    let picked = match since {
        Some(s) => records.filter(|r: RawRecord| r.created_at > s),
        None => records,
    };
    let sorted = sort_desc(picked, |r: RawRecord| r.created_at as int);
    if since is None && sorted.len() > top_n {
        sorted.take(top_n as int)
    } else {
        sorted
    }
}

/// The recent request log of the records.
pub fn recent_request_logs(records: &[RawRecord], since: Option<i64>, top_n: usize) -> (out: Vec<RequestLogRow>)
    ensures
        out.len() == recent_log_records(records@, since, top_n).len(),
        forall|i: int| 0 <= i < out.len() ==> log_row_of(recent_log_records(records@, since, top_n)[i], #[trigger] out@[i]),
{
    let ghost key = |r: RawRecord| r.created_at as int;
    let ghost f = |r: RawRecord| r.created_at > since->Some_0;
    // pick
    let mut picked: Vec<RawRecord> = Vec::new();
    let mut i: usize = 0;
    while i < records.len()
        invariant
            i <= records.len(),
            f == (|r: RawRecord| r.created_at > since->Some_0),
            picked@ == (match since {
                Some(s) => records@.take(i as int).filter(f),
                None => records@.take(i as int),
            }),
        decreases records.len() - i,
    {
        proof {
            let t = records@.take(i + 1);
            assert(t.drop_last() =~= records@.take(i as int));
            assert(t.last() == records@[i as int]);
            reveal_with_fuel(Seq::<_>::filter, 1);
        }
        let keep = match since {
            Some(s) => records[i].created_at > s,
            None => true,
        };
        if keep {
            let ghost before = picked@;
            picked.push(records[i].clone());
            assert(picked@ =~= before.push(records@[i as int]));
        }
        i = i + 1;
    }
    assert(records@.take(records.len() as int) =~= records@);
    proof {
        match since {
            Some(s) => {
                let g = |r: RawRecord| r.created_at > s;
                assert(f =~= g);
            },
            None => {},
        }
    }
    // newest first, stable
    let mut sorted: Vec<RawRecord> = Vec::new();
    let mut k: usize = 0;
    while k < picked.len()
        invariant
            k <= picked.len(),
            key == (|r: RawRecord| r.created_at as int),
            sorted@ == sort_desc(picked@.take(k as int), key),
        decreases picked.len() - k,
    {
        let x = picked[k].clone();
        let mut pos: usize = 0;
        while pos < sorted.len() && !(sorted[pos].created_at < x.created_at)
            invariant
                pos <= sorted.len(),
                key == (|r: RawRecord| r.created_at as int),
                forall|m: int| 0 <= m < pos ==> !(key(#[trigger] sorted@[m]) < key(x)),
            decreases sorted.len() - pos,
        {
            pos = pos + 1;
        }
        proof {
            crate::dedup::lemma_ins_desc_at(sorted@, x, key, pos as int);
            let u = picked@.take(k + 1);
            assert(u.drop_last() =~= picked@.take(k as int));
            assert(u.last() == x);
        }
        sorted.insert(pos, x);
        k = k + 1;
    }
    assert(picked@.take(picked.len() as int) =~= picked@);
    let n: usize = if since.is_none() && sorted.len() > top_n { top_n } else { sorted.len() };
    let mut out: Vec<RequestLogRow> = Vec::new();
    let mut j: usize = 0;
    while j < n
        invariant
            n <= sorted.len(),
            j <= n,
            out.len() == j,
            forall|m: int| 0 <= m < j ==> log_row_of(sorted@[m], #[trigger] out@[m]),
        decreases n - j,
    {
        let r = &sorted[j];
        out.push((r.session_id.clone(), r.model.clone(), r.provider_id.clone(), r.created_at, r.input_tokens, r.output_tokens, r.cache_read, r.cache_creation, r.latency, false));
        j = j + 1;
    }
    proof {
        let want = recent_log_records(records@, since, top_n);
        assert forall|m: int| 0 <= m < out.len() implies log_row_of(want[m], #[trigger] out@[m]) by {
            assert(want[m] == sorted@[m]);
        }
    }
    out
}

/// Whether `ids` names session `k`, by a scan of `ids`.
fn is_listed(ids: &Vec<String>, k: &str) -> (b: bool)
    ensures
        b == id_listed(ids@, k@),
{
    let mut j: usize = 0;
    while j < ids.len()
        invariant
            j <= ids.len(),
            forall|m: int| 0 <= m < j ==> (#[trigger] ids@[m])@ != k@,
        decreases ids.len() - j,
    {
        if text::str_eq(ids[j].as_str(), k) {
            return true;
        }
        j = j + 1;
    }
    false
}

/// The records of the listed sessions.
pub open spec fn listed_records(records: Seq<RawRecord>, ids: Seq<String>) -> Seq<RawRecord> {
    records.filter(|r: RawRecord| id_listed(ids, r.session_id@))
}

/// The request-token rows of the records of the listed sessions, in order.
pub fn request_tokens_for_ids(records: &[RawRecord], ids: &Vec<String>) -> (out: Vec<SessionRequestToken>)
    ensures
        out.len() == listed_records(records@, ids@).len(),
        forall|i: int| 0 <= i < out.len() ==> token_of(listed_records(records@, ids@)[i], #[trigger] out@[i]),
{
    let ghost f = |r: RawRecord| id_listed(ids@, r.session_id@);
    let mut out: Vec<SessionRequestToken> = Vec::new();
    let mut i: usize = 0;
    while i < records.len()
        invariant
            i <= records.len(),
            f == (|r: RawRecord| id_listed(ids@, r.session_id@)),
            out.len() == records@.take(i as int).filter(f).len(),
            forall|k: int| 0 <= k < out.len() ==> token_of(records@.take(i as int).filter(f)[k], #[trigger] out@[k]),
        decreases records.len() - i,
    {
        proof {
            let t = records@.take(i + 1);
            assert(t.drop_last() =~= records@.take(i as int));
            assert(t.last() == records@[i as int]);
            reveal_with_fuel(Seq::<_>::filter, 1);
        }
        let r = &records[i];
        if is_listed(ids, r.session_id.as_str()) {
            out.push(SessionRequestToken {
                session_id: r.session_id.clone(),
                model: r.model.clone(),
                created_at: r.created_at,
                input_tokens: r.input_tokens,
                output_tokens: r.output_tokens,
                cache_read: r.cache_read,
                cache_creation: r.cache_creation,
            });
        }
        i = i + 1;
    }
    assert(records@.take(records.len() as int) =~= records@);
    out
}

/// Some record belongs to session `k`.
pub open spec fn has_session(records: Seq<RawRecord>, k: Seq<char>) -> bool {
    exists|i: int| 0 <= i < records.len() && (#[trigger] records[i]).session_id@ == k
}

proof fn lemma_has_session_push(records: Seq<RawRecord>, n: int, k: Seq<char>)
    requires
        0 <= n < records.len(),
    ensures
        has_session(records.take(n + 1), k) <==> has_session(records.take(n), k) || records[n].session_id@ == k,
{
    let a = records.take(n + 1);
    let b = records.take(n);
    if has_session(a, k) {
        let i = choose|i: int| 0 <= i < a.len() && (#[trigger] a[i]).session_id@ == k;
        if i < n {
            assert(b[i] == a[i]);
        }
    }
    if has_session(b, k) {
        let i = choose|i: int| 0 <= i < b.len() && (#[trigger] b[i]).session_id@ == k;
        assert(a[i] == b[i]);
    }
    if records[n].session_id@ == k {
        assert(a[n] == records[n]);
    }
}

/// The listed sessions that have records, once each, in order of their first
/// record.
fn listed_sessions(records: &[RawRecord], ids: &Vec<String>) -> (out: Vec<String>)
    ensures
        forall|a: int, b: int| 0 <= a < b < out.len() ==> (#[trigger] out@[a])@ != (#[trigger] out@[b])@,
        forall|a: int| 0 <= a < out.len() ==> id_listed(ids@, (#[trigger] out@[a])@) && has_session(records@, out@[a]@),
        forall|k: Seq<char>| id_listed(ids@, k) && has_session(records@, k) ==> exists|a: int| 0 <= a < out.len() && (#[trigger] out@[a])@ == k,
{
    let mut out: Vec<String> = Vec::new();
    let mut i: usize = 0;
    while i < records.len()
        invariant
            i <= records.len(),
            forall|a: int, b: int| 0 <= a < b < out.len() ==> (#[trigger] out@[a])@ != (#[trigger] out@[b])@,
            forall|a: int| 0 <= a < out.len() ==> id_listed(ids@, (#[trigger] out@[a])@) && has_session(records@.take(i as int), out@[a]@),
            forall|k: Seq<char>| id_listed(ids@, k) && has_session(records@.take(i as int), k) ==> exists|a: int| 0 <= a < out.len() && (#[trigger] out@[a])@ == k,
        decreases records.len() - i,
    {
        let sid = records[i].session_id.as_str();
        let listed = is_listed(ids, sid);
        let mut found = false;
        if listed {
            let mut pos: usize = 0;
            while pos < out.len()
                invariant_except_break
                    !found,
                invariant
                    pos <= out.len(),
                    forall|a: int| 0 <= a < pos ==> (#[trigger] out@[a])@ != sid@,
                ensures
                    found ==> pos < out.len() && out@[pos as int]@ == sid@,
                    !found ==> forall|a: int| 0 <= a < out.len() ==> (#[trigger] out@[a])@ != sid@,
                decreases out.len() - pos,
            {
                if text::str_eq(out[pos].as_str(), sid) {
                    found = true;
                    break;
                }
                pos = pos + 1;
            }
        }
        let ghost old_out = out@;
        if listed && !found {
            out.push(text::owned(sid));
        }
        proof {
            assert forall|k: Seq<char>| #![auto] has_session(records@.take(i + 1), k) <==> has_session(records@.take(i as int), k) || records@[i as int].session_id@ == k by {
                lemma_has_session_push(records@, i as int, k);
            }
            assert forall|a: int| 0 <= a < out.len() implies id_listed(ids@, (#[trigger] out@[a])@) && has_session(records@.take(i + 1), out@[a]@) by {
                if a < old_out.len() {
                    assert(out@[a] == old_out[a]);
                }
            }
            assert forall|k: Seq<char>| id_listed(ids@, k) && has_session(records@.take(i + 1), k) implies exists|a: int| 0 <= a < out.len() && (#[trigger] out@[a])@ == k by {
                if has_session(records@.take(i as int), k) {
                    let a = choose|a: int| 0 <= a < old_out.len() && (#[trigger] old_out[a])@ == k;
                    assert(out@[a] == old_out[a]);
                } else if found {
                } else {
                    assert(out@[old_out.len() as int]@ == k);
                }
            }
            assert forall|a: int, b: int| 0 <= a < b < out.len() implies (#[trigger] out@[a])@ != (#[trigger] out@[b])@ by {
                assert(out@[a] == old_out[a]);
                if b < old_out.len() {
                    assert(out@[b] == old_out[b]);
                }
            }
        }
        i = i + 1;
    }
    assert(records@.take(records.len() as int) =~= records@);
    out
}

/// The order key that puts earlier times first.
pub open spec fn earlier_first() -> spec_fn(i64) -> int {
    |t: i64| -(t as int)
}

/// The creation times of the records of session `k`, in record order.
pub open spec fn session_times(records: Seq<RawRecord>, k: Seq<char>) -> Seq<i64> {
    records.filter(|r: RawRecord| r.session_id@ == k).map_values(|r: RawRecord| r.created_at)
}

/// The creation times of the records of session `k`, in increasing order.
fn session_times_of(records: &[RawRecord], k: &str) -> (out: Vec<i64>)
    ensures
        out@ == sort_desc(session_times(records@, k@), earlier_first()),
{
    let ghost f = |r: RawRecord| r.session_id@ == k@;
    let mut times: Vec<i64> = Vec::new();
    let mut i: usize = 0;
    while i < records.len()
        invariant
            i <= records.len(),
            f == (|r: RawRecord| r.session_id@ == k@),
            times@ == records@.take(i as int).filter(f).map_values(|r: RawRecord| r.created_at),
        decreases records.len() - i,
    {
        proof {
            let t = records@.take(i + 1);
            assert(t.drop_last() =~= records@.take(i as int));
            assert(t.last() == records@[i as int]);
            reveal_with_fuel(Seq::<_>::filter, 1);
        }
        if text::str_eq(records[i].session_id.as_str(), k) {
            times.push(records[i].created_at);
            proof {
                let fl = records@.take(i + 1).filter(f);
                assert(fl == records@.take(i as int).filter(f).push(records@[i as int]));
                assert(times@ =~= fl.map_values(|r: RawRecord| r.created_at));
            }
        } else {
            proof {
                assert(records@.take(i + 1).filter(f) == records@.take(i as int).filter(f));
            }
        }
        i = i + 1;
    }
    assert(records@.take(records.len() as int) =~= records@);
    let ghost key = earlier_first();
    let mut sorted: Vec<i64> = Vec::new();
    let mut m: usize = 0;
    while m < times.len()
        invariant
            m <= times.len(),
            key == earlier_first(),
            sorted@ == sort_desc(times@.take(m as int), key),
        decreases times.len() - m,
    {
        let x = times[m];
        let mut pos: usize = 0;
        while pos < sorted.len() && !(sorted[pos] > x)
            invariant
                pos <= sorted.len(),
                key == earlier_first(),
                forall|q: int| 0 <= q < pos ==> !(key(#[trigger] sorted@[q]) < key(x)),
            decreases sorted.len() - pos,
        {
            pos = pos + 1;
        }
        proof {
            crate::dedup::lemma_ins_desc_at(sorted@, x, key, pos as int);
            let u = times@.take(m + 1);
            assert(u.drop_last() =~= times@.take(m as int));
            assert(u.last() == x);
        }
        sorted.insert(pos, x);
        m = m + 1;
    }
    assert(times@.take(times.len() as int) =~= times@);
    sorted
}

/// The creation times of each listed session that has records, sorted
/// increasingly, once per session (in order of its first record).
pub fn session_timestamps(records: &[RawRecord], ids: &Vec<String>) -> (out: Vec<(String, Vec<i64>)>)
    ensures
        forall|a: int, b: int| 0 <= a < b < out.len() ==> (#[trigger] out@[a]).0@ != (#[trigger] out@[b]).0@,
        forall|a: int| 0 <= a < out.len() ==> id_listed(ids@, (#[trigger] out@[a]).0@) && has_session(records@, out@[a].0@)
            && out@[a].1@ == sort_desc(session_times(records@, out@[a].0@), earlier_first()),
        forall|k: Seq<char>| id_listed(ids@, k) && has_session(records@, k) ==> exists|a: int| 0 <= a < out.len() && (#[trigger] out@[a]).0@ == k,
{
    let keys = listed_sessions(records, ids);
    let mut out: Vec<(String, Vec<i64>)> = Vec::new();
    let mut j: usize = 0;
    while j < keys.len()
        invariant
            j <= keys.len(),
            out.len() == j,
            forall|a: int| 0 <= a < j ==> (#[trigger] out@[a]).0@ == keys@[a]@
                && out@[a].1@ == sort_desc(session_times(records@, keys@[a]@), earlier_first()),
        decreases keys.len() - j,
    {
        let times = session_times_of(records, keys[j].as_str());
        out.push((keys[j].clone(), times));
        j = j + 1;
    }
    proof {
        assert forall|k: Seq<char>| id_listed(ids@, k) && has_session(records@, k) implies exists|a: int| 0 <= a < out.len() && (#[trigger] out@[a]).0@ == k by {
            let a = choose|a: int| 0 <= a < keys.len() && (#[trigger] keys@[a])@ == k;
            assert(out@[a].0@ == k);
        }
        assert forall|a: int, b: int| 0 <= a < b < out.len() implies (#[trigger] out@[a]).0@ != (#[trigger] out@[b]).0@ by {
            assert(out@[a].0@ == keys@[a]@ && out@[b].0@ == keys@[b]@);
        }
    }
    out
}

impl CursorCsvService {
    /// The one provider of this source: `cursor`, named "Cursor".
    pub fn get_providers(&self) -> (v: Vec<Provider>)
        ensures
            v.len() == 1,
            v@[0].id@ == cursor_provider(),
            v@[0].name@ == "Cursor"@,
    {
        vec![Provider { id: text::owned("cursor"), name: text::owned("Cursor") }]
    }

    /// The distinct models of the records, in increasing order.
    pub fn get_models(&self) -> (out: Vec<String>)
        ensures
            text::strictly_sorted(text::views(out@)),
            forall|x: Seq<char>| text::views(out@).contains(x) <==> has_model(self.spec_records(), x),
    {
        models_of(self.records_read())
    }

    /// The span of the records' times; 0 to 0 when there is none.
    pub fn get_date_range(&self) -> (r: DateRange)
        ensures
            r.min == earliest(self.spec_records()),
            r.max == latest(self.spec_records()),
    {
        date_range_of(self.records_read())
    }

    /// The largest context width of each listed session that has records.
    pub fn get_session_max_context_widths(&self, ids: &Vec<String>) -> (out: Vec<(String, i64)>)
        requires
            widths_fit(self.spec_records()),
        ensures
            forall|a: int, b: int| 0 <= a < b < out.len() ==> (#[trigger] out@[a]).0@ != (#[trigger] out@[b]).0@,
            forall|a: int| 0 <= a < out.len() ==> id_listed(ids@, (#[trigger] out@[a]).0@) && max_width(self.spec_records(), out@[a].0@) == Some(out@[a].1 as int),
            forall|k: Seq<char>| id_listed(ids@, k) && max_width(self.spec_records(), k) is Some ==> exists|a: int| 0 <= a < out.len() && (#[trigger] out@[a]).0@ == k,
    {
        session_max_context_widths(self.records_read(), ids)
    }

    /// The sorted creation times of each listed session that has records.
    pub fn get_session_timestamps(&self, ids: &Vec<String>) -> (out: Vec<(String, Vec<i64>)>)
        ensures
            forall|a: int, b: int| 0 <= a < b < out.len() ==> (#[trigger] out@[a]).0@ != (#[trigger] out@[b]).0@,
            forall|a: int| 0 <= a < out.len() ==> id_listed(ids@, (#[trigger] out@[a]).0@) && has_session(self.spec_records(), out@[a].0@)
                && out@[a].1@ == sort_desc(session_times(self.spec_records(), out@[a].0@), earlier_first()),
            forall|k: Seq<char>| id_listed(ids@, k) && has_session(self.spec_records(), k) ==> exists|a: int| 0 <= a < out.len() && (#[trigger] out@[a]).0@ == k,
    {
        session_timestamps(self.records_read(), ids)
    }

    /// Per-minute totals of the records created at or after `since`.
    pub fn get_minute_level_token_trend(&self, since: i64) -> (out: Vec<RealtimeBucket>)
        requires
            bucket_sums_fit(recent_units(self.spec_records(), since)),
        ensures
            buckets_increasing(out@),
            forall|key: i64| has_bucket(out@, key) <==> has_bucket(recent_units(self.spec_records(), since), key),
            forall|i: int| 0 <= i < out.len() ==> bucket_is_sum(#[trigger] out@[i], recent_units(self.spec_records(), since)),
    {
        minute_token_trend(self.records_read(), since)
    }

    /// The recent request log: the records created after `since`, newest
    /// first, or the `top_n` newest when `since` is `None`.
    pub fn get_recent_request_logs_raw(&self, since: Option<i64>, top_n: usize) -> (out: Vec<RequestLogRow>)
        ensures
            out.len() == recent_log_records(self.spec_records(), since, top_n).len(),
            forall|i: int| 0 <= i < out.len() ==> log_row_of(recent_log_records(self.spec_records(), since, top_n)[i], #[trigger] out@[i]),
    {
        recent_request_logs(self.records_read(), since, top_n)
    }

    /// The request-token rows of the records that pass a query.
    pub fn get_session_request_tokens(&self, params: &FilterParams) -> (out: Vec<SessionRequestToken>)
        requires
            self.wf(),
        ensures
            out.len() == self.spec_filtered(*params).len(),
            forall|i: int| 0 <= i < out.len() ==> token_of(self.spec_filtered(*params)[i], #[trigger] out@[i]),
    {
        let recs = self.filter_records(params);
        request_tokens_of(recs.as_slice())
    }

    /// The request-token rows of the records that pass a query and belong to
    /// a listed session.
    pub fn get_session_request_tokens_for_ids(&self, params: &FilterParams, ids: &Vec<String>) -> (out: Vec<SessionRequestToken>)
        requires
            self.wf(),
        ensures
            out.len() == listed_records(self.spec_filtered(*params), ids@).len(),
            forall|i: int| 0 <= i < out.len() ==> token_of(listed_records(self.spec_filtered(*params), ids@)[i], #[trigger] out@[i]),
    {
        let recs = self.filter_records(params);
        request_tokens_for_ids(recs.as_slice(), ids)
    }

    /// The records that pass a query.
    pub fn get_filtered_records(&self, params: &FilterParams) -> (out: Vec<RawRecord>)
        requires
            self.wf(),
        ensures
            out@ == self.spec_filtered(*params),
    {
        self.filter_records(params)
    }
}

impl CursorByokDbService {
    /// The one provider of this source.
    pub fn get_providers(&self) -> (v: Vec<Provider>)
        ensures
            v.len() == 1,
            v@[0].id@ == BYOK_PROVIDER_ID@,
            v@[0].name@ == BYOK_PROVIDER_NAME@,
    {
        vec![Provider { id: text::owned(BYOK_PROVIDER_ID), name: text::owned(BYOK_PROVIDER_NAME) }]
    }

    /// The distinct models of the records, in increasing order.
    pub fn get_models(&self) -> (out: Vec<String>)
        ensures
            text::strictly_sorted(text::views(out@)),
            forall|x: Seq<char>| text::views(out@).contains(x) <==> has_model(self.spec_records(), x),
    {
        models_of(self.records_read())
    }

    /// The span of the records' times; 0 to 0 when there is none.
    pub fn get_date_range(&self) -> (r: DateRange)
        ensures
            r.min == earliest(self.spec_records()),
            r.max == latest(self.spec_records()),
    {
        date_range_of(self.records_read())
    }

    /// The largest context width of each listed session that has records.
    pub fn get_session_max_context_widths(&self, ids: &Vec<String>) -> (out: Vec<(String, i64)>)
        requires
            widths_fit(self.spec_records()),
        ensures
            forall|a: int, b: int| 0 <= a < b < out.len() ==> (#[trigger] out@[a]).0@ != (#[trigger] out@[b]).0@,
            forall|a: int| 0 <= a < out.len() ==> id_listed(ids@, (#[trigger] out@[a]).0@) && max_width(self.spec_records(), out@[a].0@) == Some(out@[a].1 as int),
            forall|k: Seq<char>| id_listed(ids@, k) && max_width(self.spec_records(), k) is Some ==> exists|a: int| 0 <= a < out.len() && (#[trigger] out@[a]).0@ == k,
    {
        session_max_context_widths(self.records_read(), ids)
    }

    /// The sorted creation times of each listed session that has records.
    pub fn get_session_timestamps(&self, ids: &Vec<String>) -> (out: Vec<(String, Vec<i64>)>)
        ensures
            forall|a: int, b: int| 0 <= a < b < out.len() ==> (#[trigger] out@[a]).0@ != (#[trigger] out@[b]).0@,
            forall|a: int| 0 <= a < out.len() ==> id_listed(ids@, (#[trigger] out@[a]).0@) && has_session(self.spec_records(), out@[a].0@)
                && out@[a].1@ == sort_desc(session_times(self.spec_records(), out@[a].0@), earlier_first()),
            forall|k: Seq<char>| id_listed(ids@, k) && has_session(self.spec_records(), k) ==> exists|a: int| 0 <= a < out.len() && (#[trigger] out@[a]).0@ == k,
    {
        session_timestamps(self.records_read(), ids)
    }

    /// Per-minute totals of the records created at or after `since`.
    pub fn get_minute_level_token_trend(&self, since: i64) -> (out: Vec<RealtimeBucket>)
        requires
            bucket_sums_fit(recent_units(self.spec_records(), since)),
        ensures
            buckets_increasing(out@),
            forall|key: i64| has_bucket(out@, key) <==> has_bucket(recent_units(self.spec_records(), since), key),
            forall|i: int| 0 <= i < out.len() ==> bucket_is_sum(#[trigger] out@[i], recent_units(self.spec_records(), since)),
    {
        minute_token_trend(self.records_read(), since)
    }

    /// The recent request log: the records created after `since`, newest
    /// first, or the `top_n` newest when `since` is `None`.
    pub fn get_recent_request_logs_raw(&self, since: Option<i64>, top_n: usize) -> (out: Vec<RequestLogRow>)
        ensures
            out.len() == recent_log_records(self.spec_records(), since, top_n).len(),
            forall|i: int| 0 <= i < out.len() ==> log_row_of(recent_log_records(self.spec_records(), since, top_n)[i], #[trigger] out@[i]),
    {
        recent_request_logs(self.records_read(), since, top_n)
    }

    /// The request-token rows of the records that pass a query.
    pub fn get_session_request_tokens(&self, params: &FilterParams) -> (out: Vec<SessionRequestToken>)
        ensures
            out.len() == self.spec_filtered(*params).len(),
            forall|i: int| 0 <= i < out.len() ==> token_of(self.spec_filtered(*params)[i], #[trigger] out@[i]),
    {
        let recs = self.filter_records(params);
        request_tokens_of(recs.as_slice())
    }

    /// The request-token rows of the records that pass a query and belong to
    /// a listed session.
    pub fn get_session_request_tokens_for_ids(&self, params: &FilterParams, ids: &Vec<String>) -> (out: Vec<SessionRequestToken>)
        ensures
            out.len() == listed_records(self.spec_filtered(*params), ids@).len(),
            forall|i: int| 0 <= i < out.len() ==> token_of(listed_records(self.spec_filtered(*params), ids@)[i], #[trigger] out@[i]),
    {
        let recs = self.filter_records(params);
        request_tokens_for_ids(recs.as_slice(), ids)
    }

    /// The records that pass a query.
    pub fn get_filtered_records(&self, params: &FilterParams) -> (out: Vec<RawRecord>)
        ensures
            out@ == self.spec_filtered(*params),
    {
        self.filter_records(params)
    }
}

} // verus!
