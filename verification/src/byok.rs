//! The Cursor-BYOK source: `usage.json` events of a history directory mapped
//! to request records, with the conversation and model of each request
//! taken from the session files.
use crate::cursor_csv::{matches_params, max_created, record_matches_params};
use crate::dates;
use crate::models::{FilterParams, RawRecord};
use crate::text::{self, find, strip_end};
use vstd::prelude::*;

verus! {

/// The provider of every BYOK record.
pub const BYOK_PROVIDER_ID: &'static str = "cursor-byok";

pub const BYOK_PROVIDER_NAME: &'static str = "Cursor-BYOK";

/// One event of `usage.json` (missing fields read as empty, 0 or false).
#[derive(Debug)]
pub struct ByokUsageEvent {
    pub event_id: String,
    pub kind: String,
    pub at: String,
    pub input_tokens: i64,
    pub output_tokens: i64,
    pub cache_read_tokens: i64,
    pub cache_write_tokens: i64,
    pub usage_present: bool,
}

/// The value stored for a key in an association list: its first entry's.
pub open spec fn assoc_get<V>(list: Seq<(String, V)>, k: Seq<char>) -> Option<V>
    decreases list.len(),
{
    if list.len() == 0 {
        None
    } else if list[0].0@ == k {
        Some(list[0].1)
    } else {
        assoc_get(list.drop_first(), k)
    }
}

fn assoc_get_exec<'a, V>(list: &'a Vec<(String, V)>, k: &str) -> (r: Option<&'a V>)
    ensures
        match assoc_get(list@, k@) {
            Some(v) => r matches Some(x) && *x == v,
            None => r is None,
        },
{
    let mut i: usize = 0;
    assert(list@.skip(0) =~= list@);
    while i < list.len()
        invariant
            i <= list.len(),
            assoc_get(list@, k@) == assoc_get(list@.skip(i as int), k@),
        decreases list.len() - i,
    {
        proof {
            let t = list@.skip(i as int);
            assert(t[0] == list@[i as int]);
            assert(t.drop_first() =~= list@.skip(i + 1));
        }
        if text::str_eq(list[i].0.as_str(), k) {
            return Some(&list[i].1);
        }
        i = i + 1;
    }
    None
}

/// The Unix second of a UTC ISO 8601 time: the text before the first `.`,
/// without trailing `Z`s, read as `%Y-%m-%dT%H:%M:%S`; 0 when unreadable.
pub open spec fn iso_secs(s: Seq<char>) -> i64 {
    let head = match find(s, "."@) {
        Some(i) => s.take(i),
        None => s,
    };
    match dates::naive_datetime_utc_secs(strip_end(head, 'Z'), "%Y-%m-%dT%H:%M:%S"@) {
        Some(t) => t,
        None => 0,
    }
}

/// Reads a UTC ISO 8601 time (any fraction, trailing `Z`) as Unix seconds.
pub fn parse_iso_to_epoch(s: &str) -> (t: i64)
    ensures
        t == iso_secs(s@),
{
    let v = text::chars_of(s);
    let dot = text::chars_of(".");
    let end = match text::find_exec(&v, &dot) {
        Some(i) => i,
        None => v.len(),
    };
    let mut e = end;
    while e > 0 && v[e - 1] == 'Z'
        invariant
            e <= end <= v.len(),
            strip_end(v@.take(end as int), 'Z') == strip_end(v@.take(e as int), 'Z'),
        decreases e,
    {
        assert(v@.take(e as int).drop_last() =~= v@.take(e - 1));
        assert(v@.take(e as int).last() == v@[e - 1]);
        e = e - 1;
    }
    proof {
        if e > 0 {
            assert(v@.take(e as int).last() == v@[e - 1]);
        }
        match find(v@, "."@) {
            Some(i) => {},
            None => {
                assert(v@.take(v.len() as int) =~= v@);
            },
        }
    }
    let head = text::string_from_range(&v, 0, e);
    assert(v@.subrange(0, e as int) =~= v@.take(e as int));
    match dates::parse_naive_datetime_utc(head.as_str(), "%Y-%m-%dT%H:%M:%S") {
        Some(t) => t,
        None => 0,
    }
}

/// The request id of an event id: the text before its first `::`.
pub open spec fn request_id_of(event_id: Seq<char>) -> Seq<char> {
    match find(event_id, "::"@) {
        Some(i) => event_id.take(i),
        None => event_id,
    }
}

/// `max(v, 0)`.
pub open spec fn at_least_zero(v: i64) -> i64 {
    if v < 0 {
        0
    } else {
        v
    }
}

/// An event makes a record when it is a provider call with usage and a
/// readable time after the epoch.
pub open spec fn makes_record(e: ByokUsageEvent) -> bool {
    e.kind@ == "provider_call"@ && e.usage_present && iso_secs(e.at@) > 0
}

/// `r` is the record of event `e`: its conversation and model come from the
/// request index (`request id -> (conversation, model)`), else the
/// conversation is `unknown-<request id>` and the model comes from the
/// fallback index, else `unknown`.
pub open spec fn byok_record_is(r: RawRecord, e: ByokUsageEvent, index: Seq<(String, (String, String))>, fallback: Seq<(String, String)>) -> bool {
    let rid = request_id_of(e.event_id@);
    let conv_model: (Seq<char>, Seq<char>) = match assoc_get(index, rid) {
        Some(cm) => (cm.0@, cm.1@),
        None => (
            "unknown-"@ + rid,
            match assoc_get(fallback, rid) {
                Some(m) => m@,
                None => "unknown"@,
            },
        ),
    };
    &&& r.session_id@ == "byok-"@ + conv_model.0
    &&& r.model@ == conv_model.1
    &&& r.provider_id@ == BYOK_PROVIDER_ID@
    &&& r.created_at == iso_secs(e.at@)
    &&& r.input_tokens == at_least_zero(e.input_tokens)
    &&& r.output_tokens == at_least_zero(e.output_tokens)
    &&& r.cache_read == at_least_zero(e.cache_read_tokens)
    &&& r.cache_creation == at_least_zero(e.cache_write_tokens)
    &&& r.latency == 0
    &&& !r.is_codex
}

fn at_least_zero_exec(v: i64) -> (r: i64)
    ensures
        r == at_least_zero(v),
{
    if v < 0 {
        0
    } else {
        v
    }
}

/// The record of one usage event, if it makes one.
pub fn byok_event_record(e: &ByokUsageEvent, index: &Vec<(String, (String, String))>, fallback: &Vec<(String, String)>) -> (r: Option<RawRecord>)
    ensures
        makes_record(*e) <==> r is Some,
        r matches Some(rec) ==> byok_record_is(rec, *e, index@, fallback@),
{
    if !text::str_eq(e.kind.as_str(), "provider_call") || !e.usage_present {
        return None;
    }
    let created_at = parse_iso_to_epoch(e.at.as_str());
    if created_at <= 0 {
        return None;
    }
    let v = text::chars_of(e.event_id.as_str());
    let sep = text::chars_of("::");
    let end = match text::find_exec(&v, &sep) {
        Some(i) => {
            assert(text::occurs_at(v@, sep@, i as int));
            i
        },
        None => v.len(),
    };
    let rid = text::string_from_range(&v, 0, end);
    assert(v@.subrange(0, end as int) =~= v@.take(end as int));
    assert(rid@ == request_id_of(e.event_id@)) by {
        if find(v@, "::"@) is None {
            assert(v@.take(v.len() as int) =~= v@);
        }
    }
    let (conv, model) = match assoc_get_exec(index, rid.as_str()) {
        Some(cm) => {
            let mut c = String::new();
            text::push_str(&mut c, cm.0.as_str());
            (c, text::owned(cm.1.as_str()))
        },
        None => {
            let mut c = String::new();
            text::push_str(&mut c, "unknown-");
            text::push_str(&mut c, rid.as_str());
            let m = match assoc_get_exec(fallback, rid.as_str()) {
                Some(m) => text::owned(m.as_str()),
                None => text::owned("unknown"),
            };
            (c, m)
        },
    };
    let mut sid = String::new();
    text::push_str(&mut sid, "byok-");
    text::push_str(&mut sid, conv.as_str());
    Some(RawRecord {
        session_id: sid,
        model,
        provider_id: text::owned(BYOK_PROVIDER_ID),
        created_at,
        input_tokens: at_least_zero_exec(e.input_tokens),
        output_tokens: at_least_zero_exec(e.output_tokens),
        cache_read: at_least_zero_exec(e.cache_read_tokens),
        cache_creation: at_least_zero_exec(e.cache_write_tokens),
        latency: 0,
        is_codex: false,
    })
}

/// The Cursor-BYOK source of one history directory.
pub struct CursorByokDbService {
    history_dir: String,
    records: Vec<RawRecord>,
    latest_timestamp: Option<i64>,
}

impl CursorByokDbService {
    pub closed spec fn spec_history_dir(&self) -> Seq<char> {
        self.history_dir@
    }

    pub closed spec fn spec_records(&self) -> Seq<RawRecord> {
        self.records@
    }

    pub closed spec fn spec_latest(&self) -> Option<i64> {
        self.latest_timestamp
    }

    /// A closed, empty source.
    pub fn new() -> (s: Self)
        ensures
            s.spec_history_dir().len() == 0,
            s.spec_records().len() == 0,
            s.spec_latest() is None,
    {
        CursorByokDbService { history_dir: String::new(), records: Vec::new(), latest_timestamp: None }
    }

    /// Loads the events of `<dir_path>/usage.json` with the request indexes
    /// built from the session files: one record per event that makes one, in
    /// order.
    pub fn open(&mut self, dir_path: &str, events: &Vec<ByokUsageEvent>, index: &Vec<(String, (String, String))>, fallback: &Vec<(String, String)>)
        ensures
            final(self).spec_history_dir() == dir_path@,
            final(self).spec_records().len() == events@.filter(|e: ByokUsageEvent| makes_record(e)).len(),
            forall|i: int| 0 <= i < final(self).spec_records().len() ==> byok_record_is(#[trigger] final(self).spec_records()[i], events@.filter(|e: ByokUsageEvent| makes_record(e))[i], index@, fallback@),
            final(self).spec_latest() == max_created(final(self).spec_records()),
    {
        let ghost f = |e: ByokUsageEvent| makes_record(e);
        let mut records: Vec<RawRecord> = Vec::new();
        let mut latest: Option<i64> = None;
        let mut i: usize = 0;
        while i < events.len()
            invariant
                i <= events.len(),
                f == (|e: ByokUsageEvent| makes_record(e)),
                records.len() == events@.take(i as int).filter(f).len(),
                forall|k: int| 0 <= k < records.len() ==> byok_record_is(#[trigger] records@[k], events@.take(i as int).filter(f)[k], index@, fallback@),
                latest == max_created(records@),
            decreases events.len() - i,
        {
            proof {
                let t = events@.take(i + 1);
                assert(t.drop_last() =~= events@.take(i as int));
                assert(t.last() == events@[i as int]);
                reveal_with_fuel(Seq::<_>::filter, 1);
            }
            match byok_event_record(&events[i], index, fallback) {
                Some(rec) => {
                    let c = rec.created_at;
                    let ghost before = records@;
                    records.push(rec);
                    proof {
                        assert(records@.drop_last() =~= before);
                    }
                    latest = match latest {
                        Some(x) => Some(if x >= c { x } else { c }),
                        None => Some(c),
                    };
                },
                None => {},
            }
            i = i + 1;
        }
        assert(events@.take(events.len() as int) =~= events@);
        self.records = records;
        self.latest_timestamp = latest;
        self.history_dir = text::owned(dir_path);
    }

    /// Closes the source: no directory, no records.
    pub fn close(&mut self)
        ensures
            final(self).spec_history_dir().len() == 0,
            final(self).spec_records().len() == 0,
            final(self).spec_latest() is None,
    {
        self.history_dir = String::new();
        self.records = Vec::new();
        self.latest_timestamp = None;
    }

    /// A source is open once a directory has been loaded.
    pub fn is_open(&self) -> (b: bool)
        ensures
            b == (self.spec_history_dir().len() > 0),
    {
        text::chars_of(self.history_dir.as_str()).len() > 0
    }

    /// The number of records.
    pub fn get_record_count(&self) -> (n: usize)
        ensures
            n == self.spec_records().len(),
    {
        self.records.len()
    }

    /// The latest record time.
    pub fn get_latest_timestamp(&self) -> (t: Option<i64>)
        ensures
            t == self.spec_latest(),
    {
        self.latest_timestamp
    }

    /// The records that pass a query, in order.
    pub open spec fn spec_filtered(&self, params: FilterParams) -> Seq<RawRecord> {
        self.spec_records().filter(|r: RawRecord| matches_params(r, params))
    }

    /// The records of the source.
    pub fn records_read(&self) -> (r: &[RawRecord])
        ensures
            r@ == self.spec_records(),
    {
        self.records.as_slice()
    }

    /// The records that pass a query, in order.
    pub fn filter_records(&self, params: &FilterParams) -> (out: Vec<RawRecord>)
        ensures
            out@ == self.spec_filtered(*params),
    {
        let ghost f = |r: RawRecord| matches_params(r, *params);
        let mut out: Vec<RawRecord> = Vec::new();
        let mut i: usize = 0;
        while i < self.records.len()
            invariant
                i <= self.records.len(),
                f == (|r: RawRecord| matches_params(r, *params)),
                out@ == self.records@.take(i as int).filter(f),
            decreases self.records.len() - i,
        {
            proof {
                let t = self.records@.take(i + 1);
                assert(t.drop_last() =~= self.records@.take(i as int));
                assert(t.last() == self.records@[i as int]);
                reveal_with_fuel(Seq::<_>::filter, 1);
            }
            if record_matches_params(&self.records[i], params) {
                out.push(self.records[i].clone());
            }
            i = i + 1;
        }
        assert(self.records@.take(self.records.len() as int) =~= self.records@);
        out
    }
}

/// The model that a `context.json` item gives its request: only a
/// `metadata` item with a request id, whose payload is a `run_request` with a
/// non-empty `value.model_name`, gives one.
pub fn run_request_model(kind: &str, request_id: &str, payload_type: Option<&str>, model_name: Option<&str>) -> (r: Option<String>)
    ensures
        r is Some <==> (kind@ == "metadata"@ && request_id@.len() > 0 && (payload_type matches Some(t) && t@ == "run_request"@)
            && (model_name matches Some(m) && m@.len() > 0)),
        r matches Some(m) ==> (model_name matches Some(n) && m@ == n@),
{
    if !text::str_eq(kind, "metadata") || text::chars_of(request_id).len() == 0 {
        return None;
    }
    let is_run = match payload_type {
        Some(t) => text::str_eq(t, "run_request"),
        None => false,
    };
    if !is_run {
        return None;
    }
    match model_name {
        Some(m) => if text::chars_of(m).len() > 0 { Some(text::owned(m)) } else { None },
        None => None,
    }
}

/// A `state.json` call names a request's model when both its request id and
/// its model are non-empty.
pub fn state_call_counts(request_id: &str, model: &str) -> (b: bool)
    ensures
        b == (request_id@.len() > 0 && model@.len() > 0),
{
    text::chars_of(request_id).len() > 0 && text::chars_of(model).len() > 0
}

} // verus!
