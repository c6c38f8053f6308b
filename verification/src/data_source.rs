//! Data source kinds, their capabilities, and the merges of per-source query
//! results (realtime buckets, model lists, date ranges).
use crate::models::{DateRange, RealtimeBucket};
use crate::text;
use vstd::prelude::*;

verus! {

/// What a data source supports; every flag is off by default.
#[derive(Debug, Clone, Copy, PartialEq, Eq, Structural)]
pub struct SourceCapabilities {
    /// Rows enter session management (session tab, restore, project groups).
    pub session_management: bool,
    /// The raw data tells which project a request belongs to.
    pub project_attribution: bool,
    /// The source is scanned into the pricing database incrementally.
    pub incremental_scan: bool,
}

impl Default for SourceCapabilities {
    fn default() -> (c: Self)
        ensures
            !c.session_management && !c.project_attribution && !c.incremental_scan,
    {
        SourceCapabilities { session_management: false, project_attribution: false, incremental_scan: false }
    }
}

/// The kinds of data source.
#[derive(Debug, Clone, Copy, PartialEq, Eq, Structural)]
pub enum DbType {
    ExternalDb,
    OpenCode,
    AiProxy,
    Cursor,
    ZCode,
    Proma,
    Dsh,
    Minimax,
}

/// The canonical name of a source kind.
pub open spec fn db_label(t: DbType) -> Seq<char> {
    match t {
        DbType::ExternalDb => "CCS"@,
        DbType::OpenCode => "OpenCode"@,
        DbType::AiProxy => "AIProxy"@,
        DbType::Cursor => "Cursor"@,
        DbType::ZCode => "ZCode"@,
        DbType::Proma => "Proma"@,
        DbType::Dsh => "DSH"@,
        DbType::Minimax => "MiniMax"@,
    }
}

/// The source kind a stored name stands for; `CC-Switch` and `AI-Proxy` are
/// older names still read.
pub open spec fn db_from_label(label: Seq<char>) -> Option<DbType> {
    if label == "CCS"@ || label == "CC-Switch"@ {
        Some(DbType::ExternalDb)
    } else if label == "OpenCode"@ {
        Some(DbType::OpenCode)
    } else if label == "AIProxy"@ || label == "AI-Proxy"@ {
        Some(DbType::AiProxy)
    } else if label == "Cursor"@ {
        Some(DbType::Cursor)
    } else if label == "ZCode"@ {
        Some(DbType::ZCode)
    } else if label == "Proma"@ {
        Some(DbType::Proma)
    } else if label == "DSH"@ {
        Some(DbType::Dsh)
    } else if label == "MiniMax"@ {
        Some(DbType::Minimax)
    } else {
        None
    }
}

impl DbType {
    /// The canonical name: stored with a source, used as provider id and as
    /// the source column of request logs.
    pub fn label(&self) -> (s: &'static str)
        ensures
            s@ == db_label(*self),
    {
        match self {
            DbType::ExternalDb => "CCS",
            DbType::OpenCode => "OpenCode",
            DbType::AiProxy => "AIProxy",
            DbType::Cursor => "Cursor",
            DbType::ZCode => "ZCode",
            DbType::Proma => "Proma",
            DbType::Dsh => "DSH",
            DbType::Minimax => "MiniMax",
        }
    }

    /// The kind named by `label`, if any.
    pub fn from_label(label: &str) -> (t: Option<DbType>)
        ensures
            t == db_from_label(label@),
    {
        if text::str_eq(label, "CCS") || text::str_eq(label, "CC-Switch") {
            Some(DbType::ExternalDb)
        } else if text::str_eq(label, "OpenCode") {
            Some(DbType::OpenCode)
        } else if text::str_eq(label, "AIProxy") || text::str_eq(label, "AI-Proxy") {
            Some(DbType::AiProxy)
        } else if text::str_eq(label, "Cursor") {
            Some(DbType::Cursor)
        } else if text::str_eq(label, "ZCode") {
            Some(DbType::ZCode)
        } else if text::str_eq(label, "Proma") {
            Some(DbType::Proma)
        } else if text::str_eq(label, "DSH") {
            Some(DbType::Dsh)
        } else if text::str_eq(label, "MiniMax") {
            Some(DbType::Minimax)
        } else {
            None
        }
    }
}

/// The kind of a SQLite database from the tables it has: CC-Switch's proxy
/// logs first, then ZCode (`model_usage` with `turn_usage`), then OpenCode
/// (`message`), then AI-proxy (`token_stats`); an error for anything else.
pub fn db_type_from_tables(has_proxy_logs: bool, has_model_usage: bool, has_turn_usage: bool, has_message: bool, has_token_stats: bool) -> (r: Result<DbType, String>)
    ensures
        has_proxy_logs ==> r == Ok::<DbType, String>(DbType::ExternalDb),
        !has_proxy_logs && has_model_usage && has_turn_usage ==> r == Ok::<DbType, String>(DbType::ZCode),
        !has_proxy_logs && !(has_model_usage && has_turn_usage) && has_message ==> r == Ok::<DbType, String>(DbType::OpenCode),
        !has_proxy_logs && !(has_model_usage && has_turn_usage) && !has_message && has_token_stats ==> r == Ok::<DbType, String>(DbType::AiProxy),
        !has_proxy_logs && !(has_model_usage && has_turn_usage) && !has_message && !has_token_stats ==> (r matches Err(e) && e@ == "无法识别数据库类型"@),
{
    if has_proxy_logs {
        Ok(DbType::ExternalDb)
    } else if has_model_usage && has_turn_usage {
        Ok(DbType::ZCode)
    } else if has_message {
        Ok(DbType::OpenCode)
    } else if has_token_stats {
        Ok(DbType::AiProxy)
    } else {
        Err(text::owned("无法识别数据库类型"))
    }
}

/// Law: the name of a kind reads back as that kind.
pub proof fn lemma_label_round_trip(t: DbType)
    ensures
        db_from_label(db_label(t)) == Some(t),
{
    reveal_strlit("CCS");
    reveal_strlit("CC-Switch");
    reveal_strlit("OpenCode");
    reveal_strlit("AIProxy");
    reveal_strlit("AI-Proxy");
    reveal_strlit("Cursor");
    reveal_strlit("ZCode");
    reveal_strlit("Proma");
    reveal_strlit("DSH");
    reveal_strlit("MiniMax");
    let lbls = seq!["CCS"@, "CC-Switch"@, "OpenCode"@, "AIProxy"@, "AI-Proxy"@, "Cursor"@, "ZCode"@, "Proma"@, "DSH"@, "MiniMax"@];
    assert forall|a: int, b: int| 0 <= a < b < 10 implies #[trigger] lbls[a] != #[trigger] lbls[b] by {
        if lbls[a].len() == lbls[b].len() {
            assert(lbls[a][0] != lbls[b][0] || lbls[a][1] != lbls[b][1]);
        }
    }
    assert(lbls[0] != lbls[8]);
    assert(lbls[6] != lbls[7]);
    assert(lbls[3] != lbls[9]);
    assert(lbls[2] != lbls[4]);
}

/// A stored source: its path and the name of its kind.
#[derive(Debug)]
pub struct PersistedSource {
    pub path: String,
    pub db_type: String,
}

// ---------------------------------------------------------------------------
// Merging per-source results
// ---------------------------------------------------------------------------

/// The buckets of all lists, in order.
pub open spec fn flatten_buckets(lists: Seq<Seq<RealtimeBucket>>) -> Seq<RealtimeBucket>
    decreases lists.len(),
{
    if lists.len() == 0 {
        Seq::empty()
    } else {
        flatten_buckets(lists.drop_last()) + lists.last()
    }
}

/// Requests, input, output, cache read and cache write summed over the
/// buckets of `bs` with key `key`.
pub open spec fn bucket_sums(bs: Seq<RealtimeBucket>, key: i64) -> (int, int, int, int, int)
    decreases bs.len(),
{
    if bs.len() == 0 {
        (0, 0, 0, 0, 0)
    } else {
        let p = bucket_sums(bs.drop_last(), key);
        let b = bs.last();
        if b.bucket == key {
            (p.0 + b.requests, p.1 + b.input_tokens, p.2 + b.output_tokens, p.3 + b.cache_read, p.4 + b.cache_creation)
        } else {
            p
        }
    }
}

/// Five sums all fit in `i64`.
pub open spec fn sums5_fit(t: (int, int, int, int, int)) -> bool {
    &&& i64::MIN <= t.0 <= i64::MAX
    &&& i64::MIN <= t.1 <= i64::MAX
    &&& i64::MIN <= t.2 <= i64::MAX
    &&& i64::MIN <= t.3 <= i64::MAX
    &&& i64::MIN <= t.4 <= i64::MAX
}

/// Every running per-key sum fits in `i64`.
pub open spec fn bucket_sums_fit(bs: Seq<RealtimeBucket>) -> bool {
    forall|n: int, key: i64| 0 <= n <= bs.len() ==> sums5_fit(#[trigger] bucket_sums(bs.take(n), key))
}

/// `b` carries the sums of key `b.bucket` over `bs`.
pub open spec fn bucket_is_sum(b: RealtimeBucket, bs: Seq<RealtimeBucket>) -> bool {
    let s = bucket_sums(bs, b.bucket);
    b.requests == s.0 && b.input_tokens == s.1 && b.output_tokens == s.2 && b.cache_read == s.3 && b.cache_creation == s.4
}

/// Bucket keys strictly increase along `bs`.
pub open spec fn buckets_increasing(bs: Seq<RealtimeBucket>) -> bool {
    forall|i: int, j: int| 0 <= i < j < bs.len() ==> (#[trigger] bs[i]).bucket < (#[trigger] bs[j]).bucket
}

/// Some bucket of `bs` has key `key`.
pub open spec fn has_bucket(bs: Seq<RealtimeBucket>, key: i64) -> bool {
    exists|i: int| 0 <= i < bs.len() && (#[trigger] bs[i]).bucket == key
}

/// The views of nested vectors.
pub open spec fn nested_views<T>(v: Seq<Vec<T>>) -> Seq<Seq<T>> {
    v.map_values(|x: Vec<T>| x@)
}

/// Merges the realtime buckets of several sources: one bucket per key, its
/// counts summed over all sources, ordered by key.
pub fn merge_realtime_buckets(results: Vec<Vec<RealtimeBucket>>) -> (out: Vec<RealtimeBucket>)
    requires
        bucket_sums_fit(flatten_buckets(nested_views(results@))),
    ensures
        ({
            let all = flatten_buckets(nested_views(results@));
            &&& buckets_increasing(out@)
            &&& forall|key: i64| has_bucket(out@, key) <==> has_bucket(all, key)
            &&& forall|i: int| 0 <= i < out.len() ==> bucket_is_sum(#[trigger] out@[i], all)
        }),
{
    let ghost all = flatten_buckets(nested_views(results@));
    let mut flat: Vec<RealtimeBucket> = Vec::new();
    let mut li: usize = 0;
    while li < results.len()
        invariant
            li <= results.len(),
            all == flatten_buckets(nested_views(results@)),
            flat@ == flatten_buckets(nested_views(results@).take(li as int)),
        decreases results.len() - li,
    {
        let list = &results[li];
        let ghost before = flat@;
        let mut bi: usize = 0;
        while bi < list.len()
            invariant
                bi <= list.len(),
                flat@ == before + list@.take(bi as int),
            decreases list.len() - bi,
        {
            flat.push(list[bi]);
            assert(list@.take(bi + 1) == list@.take(bi as int).push(list@[bi as int]));
            bi = bi + 1;
        }
        proof {
            let t = nested_views(results@).take(li + 1);
            assert(t.drop_last() =~= nested_views(results@).take(li as int));
            assert(t.last() == list@);
            assert(list@.take(list.len() as int) =~= list@);
        }
        li = li + 1;
    }
    assert(nested_views(results@).take(results.len() as int) =~= nested_views(results@));
    assert(flat@ == all);
    let mut out: Vec<RealtimeBucket> = Vec::new();
    let mut n: usize = 0;
    while n < flat.len()
        invariant
            n <= flat.len(),
            bucket_sums_fit(flat@),
            buckets_increasing(out@),
            forall|key: i64| has_bucket(out@, key) <==> has_bucket(flat@.take(n as int), key),
            forall|i: int| 0 <= i < out.len() ==> bucket_is_sum(#[trigger] out@[i], flat@.take(n as int)),
        decreases flat.len() - n,
    {
        let b = flat[n];
        let ghost pre = flat@.take(n as int);
        let ghost post = flat@.take(n + 1);
        proof {
            assert(post.drop_last() =~= pre);
            assert(post.last() == b);
        }
        let mut pos: usize = 0;
        while pos < out.len() && out[pos].bucket < b.bucket
            invariant
                pos <= out.len(),
                forall|k: int| 0 <= k < pos ==> (#[trigger] out@[k]).bucket < b.bucket,
            decreases out.len() - pos,
        {
            pos = pos + 1;
        }
        let ghost old_out = out@;
        if pos < out.len() && out[pos].bucket == b.bucket {
            let e = out[pos];
            proof {
                assert(bucket_is_sum(e, pre));
                assert(sums5_fit(bucket_sums(flat@.take(n + 1), b.bucket)));
            }
            let merged = RealtimeBucket {
                bucket: e.bucket,
                requests: e.requests + b.requests,
                input_tokens: e.input_tokens + b.input_tokens,
                output_tokens: e.output_tokens + b.output_tokens,
                cache_read: e.cache_read + b.cache_read,
                cache_creation: e.cache_creation + b.cache_creation,
            };
            out.set(pos, merged);
            proof {
                assert forall|i: int, j: int| 0 <= i < j < out.len() implies (#[trigger] out@[i]).bucket < (#[trigger] out@[j]).bucket by {
                    assert(old_out[i].bucket == out@[i].bucket && old_out[j].bucket == out@[j].bucket);
                }
                assert forall|key: i64| has_bucket(out@, key) <==> has_bucket(post, key) by {
                    if has_bucket(out@, key) {
                        let i = choose|i: int| 0 <= i < out@.len() && (#[trigger] out@[i]).bucket == key;
                        assert(old_out[i].bucket == key);
                        assert(has_bucket(old_out, key));
                        assert(has_bucket(pre, key));
                        let k = choose|k: int| 0 <= k < pre.len() && (#[trigger] pre[k]).bucket == key;
                        assert(post[k] == pre[k]);
                    }
                    if has_bucket(post, key) {
                        let k = choose|k: int| 0 <= k < post.len() && (#[trigger] post[k]).bucket == key;
                        if k < pre.len() {
                            assert(pre[k] == post[k]);
                            assert(has_bucket(old_out, key));
                            let i = choose|i: int| 0 <= i < old_out.len() && (#[trigger] old_out[i]).bucket == key;
                            assert(out@[i].bucket == key);
                        } else {
                            assert(out@[pos as int].bucket == key);
                        }
                    }
                }
                assert forall|i: int| 0 <= i < out.len() implies bucket_is_sum(#[trigger] out@[i], post) by {
                    if i != pos {
                        assert(out@[i] == old_out[i]);
                        assert(bucket_is_sum(old_out[i], pre));
                        assert(old_out[i].bucket != b.bucket) by {
                            if i < pos {
                                assert(old_out[i].bucket < old_out[pos as int].bucket);
                            } else {
                                assert(old_out[pos as int].bucket < old_out[i].bucket);
                            }
                        }
                    }
                }
            }
        } else {
            out.insert(pos, b);
            proof {
                assert(!has_bucket(pre, b.bucket)) by {
                    if has_bucket(pre, b.bucket) {
                        assert(has_bucket(old_out, b.bucket));
                        let i = choose|i: int| 0 <= i < old_out.len() && (#[trigger] old_out[i]).bucket == b.bucket;
                        if i < pos {
                            assert(old_out[i].bucket < b.bucket);
                        } else if i > pos {
                            assert(old_out[pos as int].bucket < old_out[i].bucket);
                            assert(old_out[pos as int].bucket >= b.bucket);
                        }
                    }
                }
                lemma_bucket_sums_absent(pre, b.bucket);
                assert forall|i: int| 0 <= i < out.len() implies #[trigger] out@[i] == if i < pos {
                    old_out[i]
                } else if i == pos {
                    b
                } else {
                    old_out[i - 1]
                } by {}
                assert forall|i: int, j: int| 0 <= i < j < out.len() implies (#[trigger] out@[i]).bucket < (#[trigger] out@[j]).bucket by {
                    if j < pos {
                    } else if j == pos {
                    } else if i < pos {
                        assert(old_out[pos as int].bucket >= b.bucket);
                        if j - 1 > pos {
                            assert(old_out[pos as int].bucket < old_out[j - 1].bucket);
                        }
                    } else if i == pos {
                        assert(old_out[pos as int].bucket != b.bucket);
                        if j - 1 > pos {
                            assert(old_out[pos as int].bucket < old_out[j - 1].bucket);
                        }
                    } else {
                    }
                }
                assert forall|key: i64| has_bucket(out@, key) <==> has_bucket(post, key) by {
                    if has_bucket(out@, key) {
                        let i = choose|i: int| 0 <= i < out@.len() && (#[trigger] out@[i]).bucket == key;
                        if i == pos {
                            assert(post[n as int].bucket == key);
                        } else {
                            let oi = if i < pos { i } else { i - 1 };
                            assert(old_out[oi].bucket == key);
                            assert(has_bucket(old_out, key));
                            assert(has_bucket(pre, key));
                            let k = choose|k: int| 0 <= k < pre.len() && (#[trigger] pre[k]).bucket == key;
                            assert(post[k] == pre[k]);
                        }
                    }
                    if has_bucket(post, key) {
                        let k = choose|k: int| 0 <= k < post.len() && (#[trigger] post[k]).bucket == key;
                        if k < pre.len() {
                            assert(pre[k] == post[k]);
                            assert(has_bucket(old_out, key));
                            let i = choose|i: int| 0 <= i < old_out.len() && (#[trigger] old_out[i]).bucket == key;
                            if i < pos {
                                assert(out@[i].bucket == key);
                            } else {
                                assert(out@[i + 1].bucket == key);
                            }
                        } else {
                            assert(out@[pos as int].bucket == key);
                        }
                    }
                }
                assert forall|i: int| 0 <= i < out.len() implies bucket_is_sum(#[trigger] out@[i], post) by {
                    if i != pos {
                        let oi = if i < pos { i } else { i - 1 };
                        assert(out@[i] == old_out[oi]);
                        assert(bucket_is_sum(old_out[oi], pre));
                        assert(old_out[oi].bucket != b.bucket) by {
                            if oi < pos {
                                assert(old_out[oi].bucket < b.bucket);
                            } else {
                                assert(old_out[pos as int].bucket != b.bucket);
                                if oi > pos {
                                    assert(old_out[pos as int].bucket < old_out[oi].bucket);
                                }
                            }
                        }
                    }
                }
            }
        }
        n = n + 1;
    }
    assert(flat@.take(flat.len() as int) =~= flat@);
    out
}

/// A key that no bucket of `bs` has sums to zero.
proof fn lemma_bucket_sums_absent(bs: Seq<RealtimeBucket>, key: i64)
    requires
        !has_bucket(bs, key),
    ensures
        bucket_sums(bs, key) == (0int, 0int, 0int, 0int, 0int),
    decreases bs.len(),
{
    if bs.len() > 0 {
        let t = bs.drop_last();
        assert(!has_bucket(t, key)) by {
            if has_bucket(t, key) {
                let k = choose|k: int| 0 <= k < t.len() && (#[trigger] t[k]).bucket == key;
                assert(bs[k] == t[k]);
            }
        }
        lemma_bucket_sums_absent(t, key);
        assert(bs[bs.len() - 1] == bs.last());
    }
}

/// Some list of `lists` holds `x`.
pub open spec fn in_some_list(lists: Seq<Vec<String>>, x: Seq<char>) -> bool {
    exists|i: int, j: int| 0 <= i < lists.len() && 0 <= j < lists[i]@.len() && (#[trigger] lists[i]@[j])@ == x
}

/// The distinct model names of all sources, in increasing order.
pub fn union_models(results: Vec<Vec<String>>) -> (out: Vec<String>)
    ensures
        text::strictly_sorted(text::views(out@)),
        forall|x: Seq<char>| text::views(out@).contains(x) <==> in_some_list(results@, x),
{
    let mut all: Vec<String> = Vec::new();
    let mut i: usize = 0;
    while i < results.len()
        invariant
            i <= results.len(),
            forall|x: Seq<char>| text::views(all@).contains(x) <==> in_some_list(results@.take(i as int), x),
        decreases results.len() - i,
    {
        let list = &results[i];
        let ghost before = all@;
        let mut j: usize = 0;
        while j < list.len()
            invariant
                j <= list.len(),
                all@ == before + list@.take(j as int),
            decreases list.len() - j,
        {
            all.push(list[j].clone());
            assert(list@.take(j + 1) == list@.take(j as int).push(list@[j as int]));
            j = j + 1;
        }
        proof {
            assert(list@.take(list.len() as int) =~= list@);
            let pre = results@.take(i as int);
            let post = results@.take(i + 1);
            assert forall|x: Seq<char>| text::views(all@).contains(x) <==> in_some_list(post, x) by {
                assert(all@ == before + list@);
                if text::views(all@).contains(x) {
                    let k = choose|k: int| 0 <= k < text::views(all@).len() && text::views(all@)[k] == x;
                    if k < before.len() {
                        assert(text::views(before)[k] == x);
                        assert(text::views(before).contains(x));
                        assert(in_some_list(pre, x));
                        let (a, b) = choose|a: int, b: int| 0 <= a < pre.len() && 0 <= b < pre[a]@.len() && (#[trigger] pre[a]@[b])@ == x;
                        assert(post[a] == pre[a]);
                    } else {
                        assert(post[i as int] == list);
                        assert(post[i as int]@[k - before.len()]@ == x);
                    }
                }
                if in_some_list(post, x) {
                    let (a, b) = choose|a: int, b: int| 0 <= a < post.len() && 0 <= b < post[a]@.len() && (#[trigger] post[a]@[b])@ == x;
                    if a < i {
                        assert(pre[a] == post[a]);
                        assert(in_some_list(pre, x));
                        assert(text::views(before).contains(x));
                        let k = choose|k: int| 0 <= k < text::views(before).len() && text::views(before)[k] == x;
                        assert(text::views(all@)[k] == x);
                    } else {
                        assert(post[a] == list);
                        assert(text::views(all@)[before.len() + b] == x);
                    }
                }
            }
        }
        i = i + 1;
    }
    assert(results@.take(results.len() as int) =~= results@);
    text::sorted_unique(&all)
}

/// The least `min` of the ranges.
pub open spec fn least_min(rs: Seq<DateRange>) -> i64
    decreases rs.len(),
{
    if rs.len() <= 1 {
        if rs.len() == 1 { rs[0].min } else { 0 }
    } else {
        let m = least_min(rs.drop_last());
        if rs.last().min < m { rs.last().min } else { m }
    }
}

/// The greatest `max` of the ranges.
pub open spec fn greatest_max(rs: Seq<DateRange>) -> i64
    decreases rs.len(),
{
    if rs.len() <= 1 {
        if rs.len() == 1 { rs[0].max } else { 0 }
    } else {
        let m = greatest_max(rs.drop_last());
        if rs.last().max > m { rs.last().max } else { m }
    }
}

/// Law: the merged range reaches every range: its minimum is no later than
/// any range's minimum and its maximum no earlier than any range's maximum,
/// and each bound is one of the ranges' own.
pub proof fn lemma_merged_range_bounds(rs: Seq<DateRange>)
    ensures
        rs.len() > 0 ==> (forall|i: int| 0 <= i < rs.len() ==> least_min(rs) <= #[trigger] rs[i].min && rs[i].max <= greatest_max(rs)),
        rs.len() > 0 ==> (exists|i: int| 0 <= i < rs.len() && least_min(rs) == #[trigger] rs[i].min),
        rs.len() > 0 ==> (exists|i: int| 0 <= i < rs.len() && greatest_max(rs) == #[trigger] rs[i].max),
        rs.len() == 0 ==> least_min(rs) == 0 && greatest_max(rs) == 0,
    decreases rs.len(),
{
    if rs.len() > 1 {
        let d = rs.drop_last();
        lemma_merged_range_bounds(d);
        assert forall|i: int| 0 <= i < rs.len() implies least_min(rs) <= #[trigger] rs[i].min && rs[i].max <= greatest_max(rs) by {
            if i < d.len() {
                assert(rs[i] == d[i]);
            }
        }
        let a = choose|i: int| 0 <= i < d.len() && least_min(d) == #[trigger] d[i].min;
        let b = choose|i: int| 0 <= i < d.len() && greatest_max(d) == #[trigger] d[i].max;
        assert(rs[a] == d[a] && rs[b] == d[b]);
        if rs.last().min < least_min(d) {
            assert(least_min(rs) == rs[rs.len() - 1].min);
        } else {
            assert(least_min(rs) == rs[a].min);
        }
        if rs.last().max > greatest_max(d) {
            assert(greatest_max(rs) == rs[rs.len() - 1].max);
        } else {
            assert(greatest_max(rs) == rs[b].max);
        }
    } else if rs.len() == 1 {
        assert(least_min(rs) == rs[0].min);
        assert(greatest_max(rs) == rs[0].max);
    }
}

/// The range covering all ranges: least minimum and greatest maximum; 0 to
/// 0 when there is none.
pub fn merge_date_range(ranges: Vec<DateRange>) -> (r: DateRange)
    ensures
        r.min == least_min(ranges@),
        r.max == greatest_max(ranges@),
        ranges@.len() == 0 ==> r.min == 0 && r.max == 0,
        ranges@.len() > 0 ==> (forall|i: int| 0 <= i < ranges@.len() ==> r.min <= #[trigger] ranges@[i].min && ranges@[i].max <= r.max),
        ranges@.len() > 0 ==> (exists|i: int| 0 <= i < ranges@.len() && r.min == #[trigger] ranges@[i].min),
        ranges@.len() > 0 ==> (exists|i: int| 0 <= i < ranges@.len() && r.max == #[trigger] ranges@[i].max),
{
    proof {
        lemma_merged_range_bounds(ranges@);
    }
    if ranges.len() == 0 {
        return DateRange { min: 0, max: 0 };
    }
    let mut lo = ranges[0].min;
    let mut hi = ranges[0].max;
    let mut i: usize = 1;
    assert(ranges@.take(1)[0] == ranges@[0]);
    while i < ranges.len()
        invariant
            1 <= i <= ranges.len(),
            lo == least_min(ranges@.take(i as int)),
            hi == greatest_max(ranges@.take(i as int)),
        decreases ranges.len() - i,
    {
        proof {
            let t = ranges@.take(i + 1);
            assert(t.drop_last() =~= ranges@.take(i as int));
        }
        if ranges[i].min < lo {
            lo = ranges[i].min;
        }
        if ranges[i].max > hi {
            hi = ranges[i].max;
        }
        i = i + 1;
    }
    assert(ranges@.take(ranges.len() as int) =~= ranges@);
    DateRange { min: lo, max: hi }
}

/// The kinds offered as provider filters: the kinds of the enabled sources,
/// each once, in the order of their first enabled source.
pub open spec fn provider_kinds_spec(sources: Seq<(DbType, bool)>) -> Seq<DbType>
    decreases sources.len(),
{
    if sources.len() == 0 {
        Seq::empty()
    } else {
        let p = provider_kinds_spec(sources.drop_last());
        let s = sources.last();
        if s.1 && !p.contains(s.0) { p.push(s.0) } else { p }
    }
}

/// The provider filter options: the kinds of the enabled sources (given as
/// kind and enabled flag), each once (see `provider_kinds_spec`).
pub fn provider_kinds(sources: &Vec<(DbType, bool)>) -> (out: Vec<DbType>)
    ensures
        out@ == provider_kinds_spec(sources@),
{
    let mut out: Vec<DbType> = Vec::new();
    let mut i: usize = 0;
    while i < sources.len()
        invariant
            i <= sources.len(),
            out@ == provider_kinds_spec(sources@.take(i as int)),
        decreases sources.len() - i,
    {
        proof {
            let t = sources@.take(i + 1);
            assert(t.drop_last() =~= sources@.take(i as int));
            assert(t.last() == sources@[i as int]);
        }
        let (kind, enabled) = sources[i];
        if enabled {
            let mut seen = false;
            let mut j: usize = 0;
            while j < out.len()
                invariant
                    j <= out.len(),
                    seen == (exists|k: int| 0 <= k < j && out@[k] == kind),
                decreases out.len() - j,
            {
                if out[j] == kind {
                    seen = true;
                }
                j = j + 1;
            }
            if !seen {
                out.push(kind);
            }
        }
        i = i + 1;
    }
    assert(sources@.take(sources.len() as int) =~= sources@);
    out
}

} // verus!
