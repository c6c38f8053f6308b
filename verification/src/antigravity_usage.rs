//! What an Antigravity language server reports over RPC, read from the fields
//! of its protojson replies: one usage row per request (retries included,
//! each request once), and the earliest creation time of each request id.
use crate::antigravity::{div_toward_zero, ANTIGRAVITY_SOURCE};
use crate::dates;
pub use crate::json_field::JsonField;
use crate::json_field::{child_pointer, doc_has, field_i64, index_pointer, json_as_i64, json_at, json_parses, json_value_at, parse_json, present, JsonDoc};
use crate::text::{self, parse_i64, trim};
use vstd::prelude::*;

verus! {

/// The integer a protojson field holds: a string's trimmed decimal value, an
/// `i64` number; 0 for anything else.
pub open spec fn int_of(v: JsonField) -> i64 {
    match v {
        JsonField::Text(s) => match parse_i64(trim(s@)) {
            Some(n) => n,
            None => 0,
        },
        _ => match field_i64(v) {
            Some(n) => n,
            None => 0,
        },
    }
}

/// The integer a field holds (protojson encodes `int64` as a string; a plain
/// number is read too).
pub fn json_i64(value: &JsonField) -> (n: i64)
    ensures
        n == int_of(*value),
{
    match value {
        JsonField::Text(s) => {
            let t = text::trim_str(s.as_str());
            match text::parse_i64_str(t.as_str()) {
                Some(n) => n,
                None => 0,
            }
        },
        _ => match json_as_i64(value) {
            Some(n) => n,
            None => 0,
        },
    }
}

/// The trimmed string a field holds; empty for anything else.
pub open spec fn str_of(v: JsonField) -> Seq<char> {
    match v {
        JsonField::Text(s) => trim(s@),
        _ => Seq::empty(),
    }
}

/// The trimmed string a field holds, empty when it holds none.
pub fn json_str(value: &JsonField) -> (s: String)
    ensures
        s@ == str_of(*value),
{
    match value {
        JsonField::Text(s) => text::trim_str(s.as_str()),
        _ => String::new(),
    }
}

fn is_blank(s: &String) -> (b: bool)
    ensures
        b == (s@.len() == 0),
{
    text::chars_of(s.as_str()).len() == 0
}

/// The fields of a `usage` object.
#[derive(Debug)]
pub struct UsageJson {
    pub response_id: JsonField,
    pub message_id: JsonField,
    pub input_tokens: JsonField,
    pub output_tokens: JsonField,
    pub thinking_output_tokens: JsonField,
    pub response_output_tokens: JsonField,
    pub cache_read_tokens: JsonField,
}

/// One request's usage.
#[derive(Debug)]
pub struct UsageRow {
    /// The response id, else the message id.
    pub dedup_key: String,
    pub model: String,
    pub input_tokens: i64,
    /// Output including thinking.
    pub output_tokens: i64,
    pub cache_read: i64,
    pub latency: i64,
    pub first_token_latency: i64,
    pub response_id: String,
    pub message_id: String,
}

/// The output of a usage: `outputTokens` when positive, else thinking plus
/// response output.
pub open spec fn usage_output(u: UsageJson) -> int {
    if int_of(u.output_tokens) > 0 {
        int_of(u.output_tokens) as int
    } else {
        int_of(u.thinking_output_tokens) + int_of(u.response_output_tokens)
    }
}

/// The output of a usage fits in `i64`.
pub open spec fn usage_fits(u: UsageJson) -> bool {
    i64::MIN <= usage_output(u) <= i64::MAX
}

/// The key a usage is counted under: its response id, else its message id.
pub open spec fn usage_key(u: UsageJson) -> Option<Seq<char>> {
    if str_of(u.response_id).len() > 0 {
        Some(str_of(u.response_id))
    } else if str_of(u.message_id).len() > 0 {
        Some(str_of(u.message_id))
    } else {
        None
    }
}

/// A usage gives a row when it has a key and some tokens.
pub open spec fn yields_row(u: UsageJson) -> bool {
    &&& usage_key(u) is Some
    &&& !(int_of(u.input_tokens) == 0 && usage_output(u) == 0 && int_of(u.cache_read_tokens) == 0)
}

/// `row` is the row of usage `u` of a turn of `model`.
pub open spec fn row_is(row: UsageRow, u: UsageJson, model: Seq<char>, latency: i64, first_token: i64) -> bool {
    &&& usage_key(u) == Some(row.dedup_key@)
    &&& row.model@ == model
    &&& row.input_tokens == int_of(u.input_tokens)
    &&& row.output_tokens == usage_output(u)
    &&& row.cache_read == int_of(u.cache_read_tokens)
    &&& row.latency == latency
    &&& row.first_token_latency == first_token
    &&& row.response_id@ == str_of(u.response_id)
    &&& row.message_id@ == str_of(u.message_id)
}

/// The row of one usage object, if it gives one.
pub fn parse_usage(usage: &UsageJson, model: &str, latency: i64, first_token_latency: i64) -> (r: Option<UsageRow>)
    requires
        usage_fits(*usage),
    ensures
        r is Some <==> yields_row(*usage),
        r matches Some(row) ==> row_is(row, *usage, model@, latency, first_token_latency),
{
    let response_id = json_str(&usage.response_id);
    let message_id = json_str(&usage.message_id);
    let dedup_key = if !is_blank(&response_id) {
        response_id.clone()
    } else if !is_blank(&message_id) {
        message_id.clone()
    } else {
        return None;
    };
    let input_tokens = json_i64(&usage.input_tokens);
    let cache_read = json_i64(&usage.cache_read_tokens);
    let total = json_i64(&usage.output_tokens);
    let output_tokens = if total > 0 {
        total
    } else {
        json_i64(&usage.thinking_output_tokens) + json_i64(&usage.response_output_tokens)
    };
    if input_tokens == 0 && output_tokens == 0 && cache_read == 0 {
        return None;
    }
    Some(UsageRow {
        dedup_key,
        model: text::owned(model),
        input_tokens,
        output_tokens,
        cache_read,
        latency,
        first_token_latency,
        response_id,
        message_id,
    })
}

/// The `chatModel` of one `generatorMetadata` entry; the two durations are
/// already in milliseconds.
#[derive(Debug)]
pub struct ChatModelJson {
    pub model: JsonField,
    pub response_model: JsonField,
    pub streaming_ms: i64,
    pub first_token_ms: i64,
    pub usage: Option<UsageJson>,
    /// The `retryInfos` array, each retry with its `usage` if it has one.
    pub retry_infos: Option<Vec<Option<UsageJson>>>,
}

/// The model of a turn: `responseModel`, else `model` (a placeholder).
pub open spec fn chat_model_name(cm: ChatModelJson) -> Seq<char> {
    if str_of(cm.response_model).len() == 0 {
        str_of(cm.model)
    } else {
        str_of(cm.response_model)
    }
}

/// The latency of a turn: time to first token plus streaming.
pub open spec fn chat_latency(cm: ChatModelJson) -> int {
    cm.first_token_ms + cm.streaming_ms
}

/// The retries of a turn.
pub open spec fn retry_list(cm: ChatModelJson) -> Seq<Option<UsageJson>> {
    match cm.retry_infos {
        Some(v) => v@,
        None => Seq::empty(),
    }
}

/// The retry usages that give rows, in order.
pub open spec fn retry_usages(s: Seq<Option<UsageJson>>) -> Seq<UsageJson>
    decreases s.len(),
{
    if s.len() == 0 {
        Seq::empty()
    } else {
        let p = retry_usages(s.drop_last());
        match s.last() {
            Some(u) => if yields_row(u) {
                p.push(u)
            } else {
                p
            },
            None => p,
        }
    }
}

/// The usages a turn counts: those of its retries, else its final usage.
pub open spec fn collected_usages(cm: ChatModelJson) -> Seq<UsageJson> {
    let r = retry_usages(retry_list(cm));
    if r.len() > 0 {
        r
    } else {
        match cm.usage {
            Some(u) => if yields_row(u) {
                seq![u]
            } else {
                Seq::empty()
            },
            None => Seq::empty(),
        }
    }
}

/// Every sum the reading of a turn makes fits in `i64`.
pub open spec fn chat_fits(cm: ChatModelJson) -> bool {
    &&& i64::MIN <= chat_latency(cm) <= i64::MAX
    &&& forall|j: int| 0 <= j < retry_list(cm).len() && (#[trigger] retry_list(cm)[j]) is Some ==> usage_fits(retry_list(cm)[j]->Some_0)
    &&& (retry_usages(retry_list(cm)).len() == 0 && cm.usage is Some ==> usage_fits(cm.usage->Some_0))
}

/// Pairs a usage with its turn.
pub open spec fn with_turn(cm: ChatModelJson) -> spec_fn(UsageJson) -> (UsageJson, ChatModelJson) {
    |u: UsageJson| (u, cm)
}

/// The usages of all turns, in order, each with its turn (entries without a
/// `chatModel` are `None`).
pub open spec fn usage_stream(entries: Seq<Option<ChatModelJson>>) -> Seq<(UsageJson, ChatModelJson)>
    decreases entries.len(),
{
    if entries.len() == 0 {
        Seq::empty()
    } else {
        let p = usage_stream(entries.drop_last());
        match entries.last() {
            Some(cm) => p + collected_usages(cm).map_values(with_turn(cm)),
            None => p,
        }
    }
}

/// Some usage of `s` is counted under key `k`.
pub open spec fn key_seen(s: Seq<(UsageJson, ChatModelJson)>, k: Seq<char>) -> bool {
    exists|j: int| 0 <= j < s.len() && usage_key((#[trigger] s[j]).0) == Some(k)
}

/// The first usage of each key, in order.
pub open spec fn first_per_key(s: Seq<(UsageJson, ChatModelJson)>) -> Seq<(UsageJson, ChatModelJson)>
    decreases s.len(),
{
    if s.len() == 0 {
        Seq::empty()
    } else {
        let p = first_per_key(s.drop_last());
        if key_seen(s.drop_last(), usage_key(s.last().0)->Some_0) {
            p
        } else {
            p.push(s.last())
        }
    }
}

proof fn lemma_key_seen_push(s: Seq<(UsageJson, ChatModelJson)>, x: (UsageJson, ChatModelJson), k: Seq<char>)
    ensures
        key_seen(s.push(x), k) <==> key_seen(s, k) || usage_key(x.0) == Some(k),
{
    let t = s.push(x);
    if key_seen(t, k) {
        let j = choose|j: int| 0 <= j < t.len() && usage_key((#[trigger] t[j]).0) == Some(k);
        if j < s.len() {
            assert(s[j] == t[j]);
        }
    }
    if key_seen(s, k) {
        let j = choose|j: int| 0 <= j < s.len() && usage_key((#[trigger] s[j]).0) == Some(k);
        assert(t[j] == s[j]);
    }
    if usage_key(x.0) == Some(k) {
        assert(t[s.len() as int] == x);
    }
}

fn contains_key(seen: &Vec<String>, k: &String) -> (b: bool)
    ensures
        b == exists|m: int| 0 <= m < seen.len() && (#[trigger] seen@[m])@ == k@,
{
    let mut m: usize = 0;
    while m < seen.len()
        invariant
            m <= seen.len(),
            forall|q: int| 0 <= q < m ==> (#[trigger] seen@[q])@ != k@,
        decreases seen.len() - m,
    {
        if text::str_eq(seen[m].as_str(), k.as_str()) {
            return true;
        }
        m = m + 1;
    }
    false
}

/// The rows a turn counts, in order.
fn turn_rows(cm: &ChatModelJson, model: &str, latency: i64) -> (out: Vec<UsageRow>)
    requires
        chat_fits(*cm),
    ensures
        out.len() == collected_usages(*cm).len(),
        forall|m: int| 0 <= m < out.len() ==> row_is(#[trigger] out@[m], collected_usages(*cm)[m], model@, latency, cm.first_token_ms),
{
    let mut collected: Vec<UsageRow> = Vec::new();
    match &cm.retry_infos {
        Some(retries) => {
            let mut j: usize = 0;
            while j < retries.len()
                invariant
                    j <= retries.len(),
                    retry_list(*cm) == retries@,
                    chat_fits(*cm),
                    collected.len() == retry_usages(retries@.take(j as int)).len(),
                    forall|m: int| 0 <= m < collected.len() ==> row_is(#[trigger] collected@[m], retry_usages(retries@.take(j as int))[m], model@, latency, cm.first_token_ms),
                decreases retries.len() - j,
            {
                proof {
                    let t = retries@.take(j + 1);
                    assert(t.drop_last() =~= retries@.take(j as int));
                    assert(t.last() == retries@[j as int]);
                }
                match &retries[j] {
                    Some(u) => {
                        assert(retry_list(*cm)[j as int] is Some);
                        match parse_usage(u, model, latency, cm.first_token_ms) {
                            Some(row) => {
                                collected.push(row);
                            },
                            None => {},
                        }
                    },
                    None => {},
                }
                j = j + 1;
            }
            assert(retries@.take(retries.len() as int) =~= retries@);
        },
        None => {
            assert(retry_list(*cm) =~= Seq::<Option<UsageJson>>::empty());
        },
    }
    if collected.len() == 0 {
        match &cm.usage {
            Some(u) => {
                match parse_usage(u, model, latency, cm.first_token_ms) {
                    Some(row) => {
                        collected.push(row);
                    },
                    None => {},
                }
            },
            None => {},
        }
    }
    collected
}

/// The turns of a `generatorMetadata` reply can be read without overflow.
pub open spec fn metadata_fits(entries: Seq<Option<ChatModelJson>>) -> bool {
    forall|i: int| 0 <= i < entries.len() && (#[trigger] entries[i]) is Some ==> chat_fits(entries[i]->Some_0)
}

/// The usage rows of a `generatorMetadata` reply: each turn's retries (or,
/// without any, its final usage), and each request id once, the first time
/// it is seen.
pub fn parse_generator_metadata(entries: &Vec<Option<ChatModelJson>>) -> (out: Vec<UsageRow>)
    requires
        metadata_fits(entries@),
    ensures
        out.len() == first_per_key(usage_stream(entries@)).len(),
        forall|m: int| 0 <= m < out.len() ==> {
            let p = first_per_key(usage_stream(entries@))[m];
            row_is(#[trigger] out@[m], p.0, chat_model_name(p.1), chat_latency(p.1) as i64, p.1.first_token_ms)
        },
        forall|a: int, b: int| 0 <= a < b < out.len() ==> (#[trigger] out@[a]).dedup_key@ != (#[trigger] out@[b]).dedup_key@,
{
    let mut seen: Vec<String> = Vec::new();
    let mut out: Vec<UsageRow> = Vec::new();
    let ghost mut stream: Seq<(UsageJson, ChatModelJson)> = Seq::empty();
    let mut i: usize = 0;
    while i < entries.len()
        invariant
            i <= entries.len(),
            metadata_fits(entries@),
            stream == usage_stream(entries@.take(i as int)),
            out.len() == first_per_key(stream).len(),
            forall|m: int| 0 <= m < out.len() ==> {
                let p = first_per_key(stream)[m];
                row_is(#[trigger] out@[m], p.0, chat_model_name(p.1), chat_latency(p.1) as i64, p.1.first_token_ms)
            },
            forall|m: int| 0 <= m < out.len() ==> key_seen(stream, (#[trigger] out@[m]).dedup_key@),
            forall|a: int, b: int| 0 <= a < b < out.len() ==> (#[trigger] out@[a]).dedup_key@ != (#[trigger] out@[b]).dedup_key@,
            forall|k: Seq<char>| key_seen(stream, k) <==> exists|m: int| 0 <= m < seen.len() && (#[trigger] seen@[m])@ == k,
        decreases entries.len() - i,
    {
        proof {
            let t = entries@.take(i + 1);
            assert(t.drop_last() =~= entries@.take(i as int));
            assert(t.last() == entries@[i as int]);
        }
        match &entries[i] {
            Some(cm) => {
                assert(chat_fits(*cm));
                let response_model = json_str(&cm.response_model);
                let model = if is_blank(&response_model) {
                    json_str(&cm.model)
                } else {
                    response_model
                };
                let latency = cm.first_token_ms + cm.streaming_ms;
                let mut rows = turn_rows(cm, model.as_str(), latency);
                let ghost cu = collected_usages(*cm);
                let ghost base = stream;
                let ghost orig = rows@;
                let n = rows.len();
                let mut k: usize = 0;
                while k < n
                    invariant
                        k <= n,
                        n == cu.len(),
                        orig.len() == cu.len(),
                        rows@ == orig.subrange(k as int, n as int),
                        stream == base + cu.take(k as int).map_values(with_turn(*cm)),
                        out.len() == first_per_key(stream).len(),
                        forall|m: int| 0 <= m < orig.len() ==> row_is(#[trigger] orig[m], cu[m], model@, latency, cm.first_token_ms),
                        model@ == chat_model_name(*cm),
                        latency == chat_latency(*cm),
                        forall|m: int| 0 <= m < out.len() ==> {
                            let p = first_per_key(stream)[m];
                            row_is(#[trigger] out@[m], p.0, chat_model_name(p.1), chat_latency(p.1) as i64, p.1.first_token_ms)
                        },
                        forall|m: int| 0 <= m < out.len() ==> key_seen(stream, (#[trigger] out@[m]).dedup_key@),
                        forall|a: int, b: int| 0 <= a < b < out.len() ==> (#[trigger] out@[a]).dedup_key@ != (#[trigger] out@[b]).dedup_key@,
                        forall|kk: Seq<char>| key_seen(stream, kk) <==> exists|m: int| 0 <= m < seen.len() && (#[trigger] seen@[m])@ == kk,
                    decreases n - k,
                {
                    let row = rows.remove(0);
                    let ghost x = (cu[k as int], *cm);
                    let ghost before = stream;
                    proof {
                        assert(row == orig[k as int]);
                        assert(row_is(row, cu[k as int], model@, latency, cm.first_token_ms));
                        stream = stream.push(x);
                        assert(cu.take(k + 1).map_values(with_turn(*cm)) =~= cu.take(k as int).map_values(with_turn(*cm)).push(x));
                        assert(stream.drop_last() =~= before);
                        assert(stream.last() == x);
                        assert forall|kk: Seq<char>| #![auto] key_seen(stream, kk) <==> key_seen(before, kk) || usage_key(x.0) == Some(kk) by {
                            lemma_key_seen_push(before, x, kk);
                        }
                    }
                    let dup = contains_key(&seen, &row.dedup_key);
                    if !dup {
                        let ghost old_out = out@;
                        let ghost old_seen = seen@;
                        let ghost row_key = row.dedup_key@;
                        seen.push(row.dedup_key.clone());
                        out.push(row);
                        proof {
                            assert(first_per_key(stream) == first_per_key(before).push(x));
                            assert forall|a: int, b: int| 0 <= a < b < out.len() implies (#[trigger] out@[a]).dedup_key@ != (#[trigger] out@[b]).dedup_key@ by {
                                assert(out@[a] == old_out[a]);
                                if b < old_out.len() {
                                    assert(out@[b] == old_out[b]);
                                } else {
                                    assert(key_seen(before, old_out[a].dedup_key@));
                                }
                            }
                            assert forall|m: int| 0 <= m < out.len() implies key_seen(stream, (#[trigger] out@[m]).dedup_key@) by {
                                if m < old_out.len() {
                                    assert(out@[m] == old_out[m]);
                                }
                            }
                            assert forall|m: int| 0 <= m < out.len() implies {
                                let p = first_per_key(stream)[m];
                                row_is(#[trigger] out@[m], p.0, chat_model_name(p.1), chat_latency(p.1) as i64, p.1.first_token_ms)
                            } by {
                                if m < old_out.len() {
                                    assert(out@[m] == old_out[m]);
                                }
                            }
                            assert forall|kk: Seq<char>| key_seen(stream, kk) <==> exists|m: int| 0 <= m < seen.len() && (#[trigger] seen@[m])@ == kk by {
                                if key_seen(before, kk) {
                                    let m = choose|m: int| 0 <= m < old_seen.len() && (#[trigger] old_seen[m])@ == kk;
                                    assert(seen@[m] == old_seen[m]);
                                }
                                if usage_key(x.0) == Some(kk) {
                                    assert(seen@[old_seen.len() as int]@ == kk);
                                }
                                if exists|m: int| 0 <= m < seen.len() && (#[trigger] seen@[m])@ == kk {
                                    let m = choose|m: int| 0 <= m < seen.len() && (#[trigger] seen@[m])@ == kk;
                                    if m < old_seen.len() {
                                        assert(old_seen[m] == seen@[m]);
                                    } else {
                                        assert(seen@[m]@ == row_key);
                                    }
                                }
                            }
                        }
                    } else {
                        proof {
                            assert(key_seen(before, usage_key(x.0)->Some_0));
                            assert(first_per_key(stream) == first_per_key(before));
                        }
                    }
                    k = k + 1;
                    assert(rows@ =~= orig.subrange(k as int, n as int));
                }
                proof {
                    assert(k == cu.len());
                    assert(cu.take(cu.len() as int) =~= cu);
                    let t = entries@.take(i + 1);
                    assert(usage_stream(t) == usage_stream(t.drop_last()) + collected_usages(*cm).map_values(with_turn(*cm)));
                }
            },
            None => {},
        }
        i = i + 1;
    }
    assert(entries@.take(entries.len() as int) =~= entries@);
    out
}

/// The ids of the model usage a trajectory step names.
#[derive(Debug)]
pub struct ModelUsageIds {
    pub response_id: JsonField,
    pub message_id: JsonField,
}

/// The `metadata` of a trajectory step.
#[derive(Debug)]
pub struct StepMetadataJson {
    pub created_at: JsonField,
    pub model_usage: Option<ModelUsageIds>,
}

/// `m` with `e` as the time of id `k`, unless `k` is empty or already has a
/// time no later than `e`.
pub open spec fn add_earliest(m: Map<Seq<char>, i64>, k: Seq<char>, e: i64) -> Map<Seq<char>, i64> {
    if k.len() == 0 {
        m
    } else if m.contains_key(k) && m[k] <= e {
        m
    } else {
        m.insert(k, e)
    }
}

/// The creation time of a step: its `createdAt` read as RFC 3339.
pub open spec fn step_epoch(md: StepMetadataJson) -> Option<i64> {
    dates::rfc3339_secs(str_of(md.created_at))
}

/// The earliest creation time of each response id and message id named by
/// the steps (steps without metadata are `None`).
pub open spec fn earliest_times(steps: Seq<Option<StepMetadataJson>>) -> Map<Seq<char>, i64>
    decreases steps.len(),
{
    if steps.len() == 0 {
        Map::empty()
    } else {
        let m = earliest_times(steps.drop_last());
        match steps.last() {
            Some(md) => match (step_epoch(md), md.model_usage) {
                (Some(e), Some(mu)) => add_earliest(add_earliest(m, str_of(mu.response_id), e), str_of(mu.message_id), e),
                _ => m,
            },
            None => m,
        }
    }
}

/// The map view of an association list of times.
pub open spec fn times_map(v: Seq<(String, i64)>) -> Map<Seq<char>, i64> {
    Map::new(
        |k: Seq<char>| exists|i: int| 0 <= i < v.len() && (#[trigger] v[i]).0@ == k,
        |k: Seq<char>| v[choose|i: int| 0 <= i < v.len() && (#[trigger] v[i]).0@ == k].1,
    )
}

/// No id occurs twice.
pub open spec fn times_distinct(v: Seq<(String, i64)>) -> bool {
    forall|i: int, j: int| 0 <= i < j < v.len() ==> (#[trigger] v[i]).0@ != (#[trigger] v[j]).0@
}

/// Where id `k` stands in the list, if it does.
fn find_time(v: &Vec<(String, i64)>, k: &String) -> (r: Option<usize>)
    ensures
        r matches Some(i) ==> i < v.len() && v@[i as int].0@ == k@,
        r is None ==> forall|j: int| 0 <= j < v.len() ==> (#[trigger] v@[j]).0@ != k@,
{
    let mut i: usize = 0;
    while i < v.len()
        invariant
            i <= v.len(),
            forall|j: int| 0 <= j < i ==> (#[trigger] v@[j]).0@ != k@,
        decreases v.len() - i,
    {
        if text::str_eq(v[i].0.as_str(), k.as_str()) {
            return Some(i);
        }
        i = i + 1;
    }
    None
}

proof fn lemma_times_map_at(v: Seq<(String, i64)>, i: int)
    requires
        times_distinct(v),
        0 <= i < v.len(),
    ensures
        times_map(v).contains_key(v[i].0@),
        times_map(v)[v[i].0@] == v[i].1,
{
    let k = v[i].0@;
    assert(times_map(v).dom().contains(k));
    let a = choose|a: int| 0 <= a < v.len() && (#[trigger] v[a]).0@ == k;
    if a != i {
        if a < i {
            assert(v[a].0@ != v[i].0@);
        } else {
            assert(v[i].0@ != v[a].0@);
        }
    }
}

/// Keeps `e` as the time of `k` unless it already has one no later.
fn add_earliest_exec(v: &mut Vec<(String, i64)>, k: String, e: i64)
    requires
        times_distinct(old(v)@),
    ensures
        times_distinct(final(v)@),
        times_map(final(v)@) == add_earliest(times_map(old(v)@), k@, e),
{
    let ghost before = v@;
    let ghost kv = k@;
    if text::chars_of(k.as_str()).len() == 0 {
        return;
    }
    match find_time(v, &k) {
        Some(i) => {
            proof {
                lemma_times_map_at(before, i as int);
            }
            if v[i].1 <= e {
                return;
            }
            v.set(i, (k, e));
            proof {
                let s = v@;
                assert(s[i as int].0@ == kv);
                assert forall|a: int, b: int| 0 <= a < b < s.len() implies (#[trigger] s[a]).0@ != (#[trigger] s[b]).0@ by {
                    if a != i && b != i {
                        assert(s[a] == before[a] && s[b] == before[b]);
                    } else if a == i {
                        assert(s[b] == before[b]);
                        assert(before[i as int].0@ != before[b].0@);
                    } else {
                        assert(s[a] == before[a]);
                        assert(before[a].0@ != before[i as int].0@);
                    }
                }
                assert forall|key: Seq<char>| #[trigger] times_map(s).dom().contains(key) <==> times_map(before).insert(kv, e).dom().contains(key) by {
                    if times_map(before).dom().contains(key) {
                        let a = choose|a: int| 0 <= a < before.len() && (#[trigger] before[a]).0@ == key;
                        if a != i {
                            assert(s[a] == before[a]);
                        }
                    }
                    if times_map(s).dom().contains(key) {
                        let a = choose|a: int| 0 <= a < s.len() && (#[trigger] s[a]).0@ == key;
                        if a != i {
                            assert(s[a] == before[a]);
                        }
                    }
                    if key == kv {
                        assert(s[i as int].0@ == kv);
                    }
                }
                assert forall|key: Seq<char>| #[trigger] times_map(s).dom().contains(key) implies times_map(s)[key] == times_map(before).insert(kv, e)[key] by {
                    let a = choose|a: int| 0 <= a < s.len() && (#[trigger] s[a]).0@ == key;
                    if key == kv {
                        lemma_times_map_at(s, i as int);
                    } else {
                        assert(a != i);
                        assert(s[a] == before[a]);
                        lemma_times_map_at(before, a);
                        lemma_times_map_at(s, a);
                    }
                }
                assert(times_map(s) =~= times_map(before).insert(kv, e));
            }
        },
        None => {
            v.push((k, e));
            proof {
                let s = v@;
                assert(!times_map(before).dom().contains(kv)) by {
                    if times_map(before).dom().contains(kv) {
                        let a = choose|a: int| 0 <= a < before.len() && (#[trigger] before[a]).0@ == kv;
                        assert(before[a].0@ != kv);
                    }
                }
                assert forall|a: int, b: int| 0 <= a < b < s.len() implies (#[trigger] s[a]).0@ != (#[trigger] s[b]).0@ by {
                    if b < before.len() {
                        assert(s[a] == before[a] && s[b] == before[b]);
                    } else {
                        assert(s[a] == before[a]);
                    }
                }
                assert forall|key: Seq<char>| #[trigger] times_map(s).dom().contains(key) <==> times_map(before).insert(kv, e).dom().contains(key) by {
                    if times_map(before).dom().contains(key) {
                        let a = choose|a: int| 0 <= a < before.len() && (#[trigger] before[a]).0@ == key;
                        assert(s[a] == before[a]);
                    }
                    if times_map(s).dom().contains(key) {
                        let a = choose|a: int| 0 <= a < s.len() && (#[trigger] s[a]).0@ == key;
                        if a < before.len() {
                            assert(s[a] == before[a]);
                        }
                    }
                    if key == kv {
                        assert(s[before.len() as int].0@ == kv);
                    }
                }
                assert forall|key: Seq<char>| #[trigger] times_map(s).dom().contains(key) implies times_map(s)[key] == times_map(before).insert(kv, e)[key] by {
                    let a = choose|a: int| 0 <= a < s.len() && (#[trigger] s[a]).0@ == key;
                    lemma_times_map_at(s, a);
                    if a < before.len() {
                        assert(s[a] == before[a]);
                        lemma_times_map_at(before, a);
                    }
                }
                assert(times_map(s) =~= times_map(before).insert(kv, e));
            }
        },
    }
}

/// The earliest creation time of each response id and message id of a
/// `GetCascadeTrajectory` reply's steps (a forked trajectory can repeat a
/// step; its first time counts).
pub fn parse_trajectory_timestamps(steps: &Vec<Option<StepMetadataJson>>) -> (out: Vec<(String, i64)>)
    ensures
        times_distinct(out@),
        times_map(out@) == earliest_times(steps@),
{
    let mut out: Vec<(String, i64)> = Vec::new();
    proof {
        assert(times_map(out@) =~= Map::<Seq<char>, i64>::empty());
    }
    let mut i: usize = 0;
    while i < steps.len()
        invariant
            i <= steps.len(),
            times_distinct(out@),
            times_map(out@) == earliest_times(steps@.take(i as int)),
        decreases steps.len() - i,
    {
        proof {
            let t = steps@.take(i + 1);
            assert(t.drop_last() =~= steps@.take(i as int));
            assert(t.last() == steps@[i as int]);
        }
        match &steps[i] {
            Some(md) => {
                let created = json_str(&md.created_at);
                match dates::parse_rfc3339(created.as_str()) {
                    Some(e) => match &md.model_usage {
                        Some(mu) => {
                            let rid = json_str(&mu.response_id);
                            let mid = json_str(&mu.message_id);
                            add_earliest_exec(&mut out, rid, e);
                            add_earliest_exec(&mut out, mid, e);
                        },
                        None => {},
                    },
                    None => {},
                }
            },
            None => {},
        }
        i = i + 1;
    }
    assert(steps@.take(steps.len() as int) =~= steps@);
    out
}

/// The creation time of a row: the trajectory time of its response id, else
/// of its message id, else the whole seconds of the session file's mtime.
pub open spec fn row_time(times: Map<Seq<char>, i64>, row: UsageRow, mtime_nanos: i64) -> int {
    if times.contains_key(row.response_id@) {
        times[row.response_id@] as int
    } else if times.contains_key(row.message_id@) {
        times[row.message_id@] as int
    } else {
        div_toward_zero(mtime_nanos as int, 1_000_000_000)
    }
}

fn lookup_time(times: &Vec<(String, i64)>, k: &String) -> (r: Option<i64>)
    requires
        times_distinct(times@),
    ensures
        r == (if times_map(times@).contains_key(k@) { Some(times_map(times@)[k@]) } else { None }),
{
    match find_time(times, k) {
        Some(i) => {
            proof {
                lemma_times_map_at(times@, i as int);
            }
            Some(times[i].1)
        },
        None => {
            proof {
                if times_map(times@).contains_key(k@) {
                    let a = choose|a: int| 0 <= a < times@.len() && (#[trigger] times@[a]).0@ == k@;
                    assert(times@[a].0@ != k@);
                }
            }
            None
        },
    }
}

/// The id a row is stored under (`Antigravity:<key>`) and its creation time.
pub fn row_log_entry(row: &UsageRow, times: &Vec<(String, i64)>, mtime_nanos: i64) -> (r: (String, i64))
    requires
        times_distinct(times@),
    ensures
        r.0@ == ANTIGRAVITY_SOURCE@ + ":"@ + row.dedup_key@,
        r.1 == row_time(times_map(times@), *row, mtime_nanos),
{
    let created_at = match lookup_time(times, &row.response_id) {
        Some(t) => t,
        None => match lookup_time(times, &row.message_id) {
            Some(t) => t,
            None => {
                let m = mtime_nanos as i128;
                let secs: i128 = if m >= 0 { m / 1_000_000_000 } else { -((-m) / 1_000_000_000) };
                secs as i64
            },
        },
    };
    let mut id = String::new();
    text::push_str(&mut id, ANTIGRAVITY_SOURCE);
    text::push_str(&mut id, ":");
    text::push_str(&mut id, row.dedup_key.as_str());
    (id, created_at)
}

/// Whether a session is scanned, given its stored sync state (mtime and row
/// count of its last scan): when its file changed since, or it was never
/// scanned. The result is the row count of the last scan (0 if none).
pub fn pending_scan(state: Option<(i64, i64)>, mtime_nanos: i64) -> (r: Option<i64>)
    ensures
        r == match state {
            Some((last_modified, last_rows)) => if last_modified >= mtime_nanos {
                None
            } else {
                Some(last_rows)
            },
            None => Some(0i64),
        },
{
    match state {
        Some((last_modified, last_rows)) => if last_modified >= mtime_nanos {
            None
        } else {
            Some(last_rows)
        },
        None => Some(0),
    }
}

// ---------------------------------------------------------------------------
// Reading the trajectory reply
// ---------------------------------------------------------------------------

/// The pointer to the `metadata` of step `i` of a trajectory reply.
pub open spec fn step_metadata_pointer(i: nat) -> Seq<char> {
    "/trajectory/steps"@ + seq!['/'] + text::dec_digits(i) + "/metadata"@
}

/// `s` is what step `i` of the trajectory reply `t` holds: its metadata's
/// `createdAt` and `modelUsage` ids, `None` without metadata.
pub open spec fn step_is(s: Option<StepMetadataJson>, t: Seq<char>, i: nat) -> bool {
    let m = step_metadata_pointer(i);
    if present(t, m) {
        s matches Some(x) && x.created_at@ == json_at(t, m + "/createdAt"@) && (if present(t, m + "/modelUsage"@) {
            x.model_usage matches Some(u) && u.response_id@ == json_at(t, m + "/modelUsage/responseId"@)
                && u.message_id@ == json_at(t, m + "/modelUsage/messageId"@)
        } else {
            x.model_usage is None
        })
    } else {
        s is None
    }
}

/// The steps of a `GetCascadeTrajectory` reply text: one per element of
/// `trajectory.steps` (see `step_is`); none when the text is not JSON or
/// has no such array.
pub fn trajectory_steps_of_text(payload: &str) -> (r: Vec<Option<StepMetadataJson>>)
    ensures
        (json_parses(payload@) && json_at(payload@, "/trajectory/steps"@) is Array) ==> ({
            let n = json_at(payload@, "/trajectory/steps"@)->Array_0;
            &&& r@.len() == n
            &&& forall|i: int| 0 <= i < n ==> step_is(#[trigger] r@[i], payload@, i as nat)
        }),
        !(json_parses(payload@) && json_at(payload@, "/trajectory/steps"@) is Array) ==> r@.len() == 0,
{
    let mut r: Vec<Option<StepMetadataJson>> = Vec::new();
    let doc = match parse_json(payload) {
        Ok(d) => d,
        Err(_) => return r,
    };
    let n = match json_value_at(&doc, "/trajectory/steps") {
        JsonField::Array(n) => n,
        _ => return r,
    };
    let mut i: usize = 0;
    while i < n
        invariant
            i <= n,
            doc@ == payload@,
            r@.len() == i,
            forall|k: int| 0 <= k < i ==> step_is(#[trigger] r@[k], payload@, k as nat),
        decreases n - i,
    {
        proof {
            reveal_strlit("metadata");
            reveal_strlit("/metadata");
            reveal_strlit("createdAt");
            reveal_strlit("/createdAt");
            reveal_strlit("modelUsage");
            reveal_strlit("/modelUsage");
            reveal_strlit("responseId");
            reveal_strlit("messageId");
            reveal_strlit("/modelUsage/responseId");
            reveal_strlit("/modelUsage/messageId");
        }
        let step = index_pointer("/trajectory/steps", i);
        let m = child_pointer(step.as_str(), "metadata");
        assert(m@ =~= step_metadata_pointer(i as nat));
        if doc_has(&doc, m.as_str()) {
            let c = child_pointer(m.as_str(), "createdAt");
            let mu = child_pointer(m.as_str(), "modelUsage");
            assert(c@ =~= step_metadata_pointer(i as nat) + "/createdAt"@);
            assert(mu@ =~= step_metadata_pointer(i as nat) + "/modelUsage"@);
            let model_usage = if doc_has(&doc, mu.as_str()) {
                let pr = child_pointer(mu.as_str(), "responseId");
                let pm = child_pointer(mu.as_str(), "messageId");
                assert(pr@ =~= step_metadata_pointer(i as nat) + "/modelUsage/responseId"@);
                assert(pm@ =~= step_metadata_pointer(i as nat) + "/modelUsage/messageId"@);
                Some(ModelUsageIds { response_id: json_value_at(&doc, pr.as_str()), message_id: json_value_at(&doc, pm.as_str()) })
            } else {
                None
            };
            r.push(Some(StepMetadataJson { created_at: json_value_at(&doc, c.as_str()), model_usage }));
        } else {
            r.push(None);
        }
        i = i + 1;
    }
    r
}

// ---------------------------------------------------------------------------
// Reading the generator-metadata reply
// ---------------------------------------------------------------------------

/// `u` holds the usage object at `base` of the reply `t`.
pub open spec fn usage_is(u: UsageJson, t: Seq<char>, base: Seq<char>) -> bool {
    &&& u.response_id@ == json_at(t, base + "/responseId"@)
    &&& u.message_id@ == json_at(t, base + "/messageId"@)
    &&& u.input_tokens@ == json_at(t, base + "/inputTokens"@)
    &&& u.output_tokens@ == json_at(t, base + "/outputTokens"@)
    &&& u.thinking_output_tokens@ == json_at(t, base + "/thinkingOutputTokens"@)
    &&& u.response_output_tokens@ == json_at(t, base + "/responseOutputTokens"@)
    &&& u.cache_read_tokens@ == json_at(t, base + "/cacheReadTokens"@)
}

/// The usage object at `base`, if there is one.
pub open spec fn opt_usage_is(u: Option<UsageJson>, t: Seq<char>, base: Seq<char>) -> bool {
    if present(t, base) {
        u matches Some(x) && usage_is(x, t, base)
    } else {
        u is None
    }
}

fn member(base: &str, key: &str, lit: &str) -> (r: String)
    requires
        lit@ =~= seq!['/'] + key@,
    ensures
        r@ == base@ + lit@,
{
    let r = child_pointer(base, key);
    assert(r@ =~= base@ + lit@);
    r
}

fn usage_exec(doc: &JsonDoc, base: &str) -> (u: Option<UsageJson>)
    ensures
        opt_usage_is(u, doc@, base@),
{
    if !doc_has(doc, base) {
        return None;
    }
    proof {
        reveal_strlit("responseId");
        reveal_strlit("/responseId");
        reveal_strlit("messageId");
        reveal_strlit("/messageId");
        reveal_strlit("inputTokens");
        reveal_strlit("/inputTokens");
        reveal_strlit("outputTokens");
        reveal_strlit("/outputTokens");
        reveal_strlit("thinkingOutputTokens");
        reveal_strlit("/thinkingOutputTokens");
        reveal_strlit("responseOutputTokens");
        reveal_strlit("/responseOutputTokens");
        reveal_strlit("cacheReadTokens");
        reveal_strlit("/cacheReadTokens");
    }
    let p1 = member(base, "responseId", "/responseId");
    let p2 = member(base, "messageId", "/messageId");
    let p3 = member(base, "inputTokens", "/inputTokens");
    let p4 = member(base, "outputTokens", "/outputTokens");
    let p5 = member(base, "thinkingOutputTokens", "/thinkingOutputTokens");
    let p6 = member(base, "responseOutputTokens", "/responseOutputTokens");
    let p7 = member(base, "cacheReadTokens", "/cacheReadTokens");
    Some(UsageJson {
        response_id: json_value_at(doc, p1.as_str()),
        message_id: json_value_at(doc, p2.as_str()),
        input_tokens: json_value_at(doc, p3.as_str()),
        output_tokens: json_value_at(doc, p4.as_str()),
        thinking_output_tokens: json_value_at(doc, p5.as_str()),
        response_output_tokens: json_value_at(doc, p6.as_str()),
        cache_read_tokens: json_value_at(doc, p7.as_str()),
    })
}

/// The pointer to the `chatModel` of turn `i` of a generator-metadata reply.
pub open spec fn chat_model_pointer(i: nat) -> Seq<char> {
    "/generatorMetadata"@ + seq!['/'] + text::dec_digits(i) + "/chatModel"@
}

/// The pointer to the usage of retry `j` at the chat model `e`.
pub open spec fn retry_usage_pointer(e: Seq<char>, j: nat) -> Seq<char> {
    e + "/retryInfos"@ + seq!['/'] + text::dec_digits(j) + "/usage"@
}

/// `c` is what turn `i` of the reply `t` holds, with `durations` as its
/// streaming time and time to first token; `None` without a chat model.
pub open spec fn chat_model_is(c: Option<ChatModelJson>, t: Seq<char>, i: nat, durations: (i64, i64)) -> bool {
    let e = chat_model_pointer(i);
    if present(t, e) {
        c matches Some(x) && {
            &&& x.model@ == json_at(t, e + "/model"@)
            &&& x.response_model@ == json_at(t, e + "/responseModel"@)
            &&& x.streaming_ms == durations.0
            &&& x.first_token_ms == durations.1
            &&& opt_usage_is(x.usage, t, e + "/usage"@)
            &&& (if json_at(t, e + "/retryInfos"@) is Array {
                x.retry_infos matches Some(rs) && rs@.len() == json_at(t, e + "/retryInfos"@)->Array_0
                    && forall|j: int| 0 <= j < rs@.len() ==> opt_usage_is(#[trigger] rs@[j], t, retry_usage_pointer(e, j as nat))
            } else {
                x.retry_infos is None
            })
        }
    } else {
        c is None
    }
}

/// The durations given for turn `i`; zero for a turn with none given.
pub open spec fn durations_at(durations: Seq<(i64, i64)>, i: int) -> (i64, i64) {
    if 0 <= i < durations.len() { durations[i] } else { (0, 0) }
}

fn chat_model_exec(doc: &JsonDoc, i: usize, durations: (i64, i64)) -> (c: Option<ChatModelJson>)
    ensures
        chat_model_is(c, doc@, i as nat, durations),
{
    proof {
        reveal_strlit("chatModel");
        reveal_strlit("/chatModel");
        reveal_strlit("model");
        reveal_strlit("/model");
        reveal_strlit("responseModel");
        reveal_strlit("/responseModel");
        reveal_strlit("usage");
        reveal_strlit("/usage");
        reveal_strlit("retryInfos");
        reveal_strlit("/retryInfos");
    }
    let turn = index_pointer("/generatorMetadata", i);
    let e = member(turn.as_str(), "chatModel", "/chatModel");
    assert(e@ =~= chat_model_pointer(i as nat));
    if !doc_has(doc, e.as_str()) {
        return None;
    }
    let pm = member(e.as_str(), "model", "/model");
    let prm = member(e.as_str(), "responseModel", "/responseModel");
    let pu = member(e.as_str(), "usage", "/usage");
    let pr = member(e.as_str(), "retryInfos", "/retryInfos");
    let retry_infos = match json_value_at(doc, pr.as_str()) {
        JsonField::Array(m) => {
            let mut rs: Vec<Option<UsageJson>> = Vec::new();
            let mut j: usize = 0;
            while j < m
                invariant
                    j <= m,
                    pr@ == e@ + "/retryInfos"@,
                    e@ == chat_model_pointer(i as nat),
                    rs@.len() == j,
                    forall|k: int| 0 <= k < j ==> opt_usage_is(#[trigger] rs@[k], doc@, retry_usage_pointer(e@, k as nat)),
                decreases m - j,
            {
                proof {
                    reveal_strlit("usage");
                    reveal_strlit("/usage");
                }
                let item = index_pointer(pr.as_str(), j);
                let p = member(item.as_str(), "usage", "/usage");
                assert(p@ =~= retry_usage_pointer(e@, j as nat));
                rs.push(usage_exec(doc, p.as_str()));
                j = j + 1;
            }
            Some(rs)
        },
        _ => None,
    };
    Some(ChatModelJson {
        model: json_value_at(doc, pm.as_str()),
        response_model: json_value_at(doc, prm.as_str()),
        streaming_ms: durations.0,
        first_token_ms: durations.1,
        usage: usage_exec(doc, pu.as_str()),
        retry_infos,
    })
}

/// The turns of a `GetCascadeTrajectoryGeneratorMetadata` reply text: one
/// per element of `generatorMetadata` (see `chat_model_is`); none when the
/// text is not JSON or has no such array. `durations[i]` holds the streaming
/// time and time to first token of turn `i`, which are read as decimals
/// elsewhere.
pub fn generator_entries_of_text(payload: &str, durations: &Vec<(i64, i64)>) -> (r: Vec<Option<ChatModelJson>>)
    ensures
        (json_parses(payload@) && json_at(payload@, "/generatorMetadata"@) is Array) ==> ({
            let n = json_at(payload@, "/generatorMetadata"@)->Array_0;
            &&& r@.len() == n
            &&& forall|i: int| 0 <= i < n ==> chat_model_is(#[trigger] r@[i], payload@, i as nat, durations_at(durations@, i))
        }),
        !(json_parses(payload@) && json_at(payload@, "/generatorMetadata"@) is Array) ==> r@.len() == 0,
{
    let mut r: Vec<Option<ChatModelJson>> = Vec::new();
    let doc = match parse_json(payload) {
        Ok(d) => d,
        Err(_) => return r,
    };
    let n = match json_value_at(&doc, "/generatorMetadata") {
        JsonField::Array(n) => n,
        _ => return r,
    };
    let mut i: usize = 0;
    while i < n
        invariant
            i <= n,
            doc@ == payload@,
            r@.len() == i,
            forall|k: int| 0 <= k < i ==> chat_model_is(#[trigger] r@[k], payload@, k as nat, durations_at(durations@, k)),
        decreases n - i,
    {
        let d: (i64, i64) = if i < durations.len() { durations[i] } else { (0, 0) };
        r.push(chat_model_exec(&doc, i, d));
        i = i + 1;
    }
    r
}

} // verus!
