//! Usage rows from the JSON-lines logs of local agents: DSH session logs,
//! the DSH plugin's usage files, and Kimi's `wire.jsonl`. Each line arrives as
//! the fields the reading looks at.
use crate::json_field::{child_pointer, doc_has, present, field_i64, field_str, field_u64, json_as_i64, json_as_str, json_as_u64, json_at, json_parses, json_value_at, parse_json, JsonDoc, JsonField};
use crate::hooks::opt_view;
use crate::text::{self, dec_i64, trim};
use vstd::prelude::*;

verus! {

/// The provider id and source of DSH rows.
pub const DSH_SOURCE: &'static str = "dsh";

/// The four token counts of a `usage` object.
#[derive(Debug)]
pub struct TokenFields {
    pub input_tokens: JsonField,
    pub output_tokens: JsonField,
    pub cache_read_tokens: JsonField,
    pub cache_write_tokens: JsonField,
}

/// A count read as `as_u64` and cast to `i64`; 0 when absent.
pub open spec fn count_of(f: JsonField) -> i64 {
    match field_u64(f) {
        Some(n) => n as i64,
        None => 0,
    }
}

fn count_exec(f: &JsonField) -> (n: i64)
    ensures
        n == count_of(*f),
{
    match json_as_u64(f) {
        Some(v) => v as i64,
        None => 0,
    }
}

/// A millisecond `time` field as whole seconds; 0 when absent.
pub open spec fn secs_of_ms(f: JsonField) -> i64 {
    match field_u64(f) {
        Some(t) => (t / 1000) as i64,
        None => 0,
    }
}

fn secs_of_ms_exec(f: &JsonField) -> (n: i64)
    ensures
        n == secs_of_ms(*f),
{
    match json_as_u64(f) {
        Some(t) => (t / 1000) as i64,
        None => 0,
    }
}

/// A string field, empty when it is not a string.
pub open spec fn str_or_empty(f: JsonField) -> Seq<char> {
    match field_str(f) {
        Some(s) => s,
        None => Seq::empty(),
    }
}

fn opt_string(f: &JsonField) -> (r: Option<String>)
    ensures
        match r {
            Some(s) => field_str(*f) == Some(s@),
            None => field_str(*f) is None,
        },
{
    match json_as_str(f) {
        Some(s) => Some(text::owned(s)),
        None => None,
    }
}

fn str_is(f: &JsonField, t: &str) -> (b: bool)
    ensures
        b == (str_or_empty(*f) == t@),
{
    match json_as_str(f) {
        Some(s) => text::str_eq(s, t),
        None => {
            let n = text::chars_of(t).len();
            proof {
                if n == 0 {
                    assert(t@ =~= Seq::<char>::empty());
                }
            }
            n == 0
        },
    }
}

// ---------------------------------------------------------------------------
// DSH session logs
// ---------------------------------------------------------------------------

/// The `message` of an `assistant/message` event.
#[derive(Debug)]
pub struct DshMessageFields {
    pub id: JsonField,
    /// `source.model`.
    pub source_model: JsonField,
    pub model: JsonField,
}

/// One line of a DSH session log.
#[derive(Debug)]
pub enum DshLine {
    /// Blank, or not JSON.
    Invalid,
    /// An event: its `type`, its `data.id`, `data.message`, `data.usage` and
    /// `time`.
    Event { kind: JsonField, data_id: JsonField, message: Option<DshMessageFields>, usage: Option<TokenFields>, time: JsonField },
}

/// One assistant message's usage.
#[derive(Debug)]
pub struct DshMessage {
    pub message_id: String,
    pub session_id: Option<String>,
    pub model: String,
    pub input_tokens: i64,
    pub output_tokens: i64,
    pub cache_read: i64,
    pub cache_creation: i64,
    pub created_at: i64,
}

/// The session id after a line: a `session` event with a string `data.id`
/// sets it.
pub open spec fn dsh_session_after(line: DshLine, current: Option<Seq<char>>) -> Option<Seq<char>> {
    match line {
        DshLine::Event { kind, data_id, .. } => if str_or_empty(kind) == "session"@ && field_str(data_id) is Some {
            field_str(data_id)
        } else {
            current
        },
        DshLine::Invalid => current,
    }
}

/// An `assistant/message` event with a message, an id and a usage gives a
/// row (chunk snapshots and other events do not).
pub open spec fn dsh_yields(line: DshLine) -> bool {
    match line {
        DshLine::Event { kind, message, usage, .. } => {
            &&& str_or_empty(kind) == "assistant/message"@
            &&& message is Some
            &&& usage is Some
            &&& field_str(message->Some_0.id) is Some
        },
        DshLine::Invalid => false,
    }
}

/// The model of a message: `source.model`, else `model`, else `unknown`.
pub open spec fn dsh_model(m: DshMessageFields) -> Seq<char> {
    match field_str(m.source_model) {
        Some(s) => s,
        None => match field_str(m.model) {
            Some(s) => s,
            None => "unknown"@,
        },
    }
}

/// `r` is the row of a yielding line read in session `current`.
pub open spec fn dsh_row_is(r: DshMessage, line: DshLine, current: Option<Seq<char>>) -> bool {
    match line {
        DshLine::Event { message, usage, time, .. } => {
            let m = message->Some_0;
            let u = usage->Some_0;
            &&& field_str(m.id) == Some(r.message_id@)
            &&& (match r.session_id {
                Some(s) => current == Some(s@),
                None => current is None,
            })
            &&& r.model@ == dsh_model(m)
            &&& r.input_tokens == count_of(u.input_tokens)
            &&& r.output_tokens == count_of(u.output_tokens)
            &&& r.cache_read == count_of(u.cache_read_tokens)
            &&& r.cache_creation == count_of(u.cache_write_tokens)
            &&& r.created_at == secs_of_ms(time)
        },
        DshLine::Invalid => false,
    }
}

fn opt_view_of(o: &Option<String>) -> (r: Option<String>)
    ensures
        match r {
            Some(s) => *o matches Some(t) && s@ == t@,
            None => o is None,
        },
{
    match o {
        Some(s) => Some(s.clone()),
        None => None,
    }
}

/// Reads one line of a DSH session log: a `session` event records its id
/// in `current_session_id`; an assistant message gives its row, tagged with
/// the current session.
pub fn parse_dsh_line(line: &DshLine, current_session_id: &mut Option<String>) -> (r: Option<DshMessage>)
    ensures
        ({
            let before = match *old(current_session_id) { Some(s) => Some(s@), None => None };
            let after = match *final(current_session_id) { Some(s) => Some(s@), None => None };
            &&& after == dsh_session_after(*line, before)
            &&& (r is Some <==> dsh_yields(*line))
            &&& (r matches Some(row) ==> dsh_row_is(row, *line, before))
        }),
{
    match line {
        DshLine::Invalid => None,
        DshLine::Event { kind, data_id, message, usage, time } => {
            if str_is(kind, "session") {
                match opt_string(data_id) {
                    Some(id) => {
                        *current_session_id = Some(id);
                    },
                    None => {},
                }
                proof {
                    reveal_strlit("session");
                    reveal_strlit("assistant/message");
                    assert("session"@.len() != "assistant/message"@.len());
                    assert(!dsh_yields(*line));
                }
                return None;
            }
            if !str_is(kind, "assistant/message") {
                return None;
            }
            let m = match message {
                Some(m) => m,
                None => return None,
            };
            let u = match usage {
                Some(u) => u,
                None => return None,
            };
            let message_id = match opt_string(&m.id) {
                Some(id) => id,
                None => return None,
            };
            let model = match json_as_str(&m.source_model) {
                Some(s) => text::owned(s),
                None => match json_as_str(&m.model) {
                    Some(s) => text::owned(s),
                    None => text::owned("unknown"),
                },
            };
            Some(DshMessage {
                message_id,
                session_id: opt_view_of(current_session_id),
                model,
                input_tokens: count_exec(&u.input_tokens),
                output_tokens: count_exec(&u.output_tokens),
                cache_read: count_exec(&u.cache_read_tokens),
                cache_creation: count_exec(&u.cache_write_tokens),
                created_at: secs_of_ms_exec(time),
            })
        },
    }
}

// ---------------------------------------------------------------------------
// DSH plugin usage files
// ---------------------------------------------------------------------------

/// One line of a plugin usage file.
#[derive(Debug)]
pub enum PluginLine {
    /// Blank, or not JSON.
    Invalid,
    Record { request_id: JsonField, usage: Option<TokenFields>, model: JsonField, session_id: JsonField, time: JsonField },
}

/// One billed request of the plugin.
#[derive(Debug)]
pub struct PluginRow {
    pub request_id: String,
    pub session_id: Option<String>,
    pub model: String,
    pub input_tokens: i64,
    pub output_tokens: i64,
    pub cache_read: i64,
    pub cache_creation: i64,
    pub created_at: i64,
}

/// A plugin line is billed when it has a non-empty `requestId` and a usage
/// with integer input and output counts.
pub open spec fn plugin_yields(line: PluginLine) -> bool {
    match line {
        PluginLine::Record { request_id, usage, .. } => {
            &&& field_str(request_id) matches Some(r) && r.len() > 0
            &&& usage is Some
            &&& field_u64(usage->Some_0.input_tokens) is Some
            &&& field_u64(usage->Some_0.output_tokens) is Some
        },
        PluginLine::Invalid => false,
    }
}

/// The model of a plugin line: the trimmed `model`, `unknown` when blank.
pub open spec fn plugin_model(f: JsonField) -> Seq<char> {
    match field_str(f) {
        Some(s) => if trim(s).len() > 0 {
            trim(s)
        } else {
            "unknown"@
        },
        None => "unknown"@,
    }
}

/// `r` is the row of a billed plugin line.
pub open spec fn plugin_row_is(r: PluginRow, line: PluginLine) -> bool {
    match line {
        PluginLine::Record { request_id, usage, model, session_id, time } => {
            let u = usage->Some_0;
            &&& field_str(request_id) == Some(r.request_id@)
            &&& (match r.session_id {
                Some(s) => field_str(session_id) == Some(s@),
                None => field_str(session_id) is None,
            })
            &&& r.model@ == plugin_model(model)
            &&& r.input_tokens == (field_u64(u.input_tokens)->Some_0) as i64
            &&& r.output_tokens == (field_u64(u.output_tokens)->Some_0) as i64
            &&& r.cache_read == count_of(u.cache_read_tokens)
            &&& r.cache_creation == count_of(u.cache_write_tokens)
            &&& r.created_at == secs_of_ms(time)
        },
        PluginLine::Invalid => false,
    }
}

/// Reads one plugin line: its row when it is billed.
pub fn parse_plugin_line(line: &PluginLine) -> (r: Option<PluginRow>)
    ensures
        r is Some <==> plugin_yields(*line),
        r matches Some(row) ==> plugin_row_is(row, *line),
{
    match line {
        PluginLine::Invalid => None,
        PluginLine::Record { request_id, usage, model, session_id, time } => {
            let rid = match opt_string(request_id) {
                Some(r) => r,
                None => return None,
            };
            if text::chars_of(rid.as_str()).len() == 0 {
                return None;
            }
            let u = match usage {
                Some(u) => u,
                None => return None,
            };
            let input = match json_as_u64(&u.input_tokens) {
                Some(n) => n as i64,
                None => return None,
            };
            let output = match json_as_u64(&u.output_tokens) {
                Some(n) => n as i64,
                None => return None,
            };
            let model_name = match json_as_str(model) {
                Some(s) => {
                    let t = text::trim_str(s);
                    if text::chars_of(t.as_str()).len() > 0 {
                        t
                    } else {
                        text::owned("unknown")
                    }
                },
                None => text::owned("unknown"),
            };
            Some(PluginRow {
                request_id: rid,
                session_id: opt_string(session_id),
                model: model_name,
                input_tokens: input,
                output_tokens: output,
                cache_read: count_exec(&u.cache_read_tokens),
                cache_creation: count_exec(&u.cache_write_tokens),
                created_at: secs_of_ms_exec(time),
            })
        },
    }
}

// ---------------------------------------------------------------------------
// Kimi wire logs
// ---------------------------------------------------------------------------

/// The `usage` of a Kimi `usage.record`.
#[derive(Debug)]
pub struct KimiUsageFields {
    pub input_other: JsonField,
    pub output: JsonField,
    pub input_cache_read: JsonField,
    pub input_cache_creation: JsonField,
}

/// One line of a Kimi `wire.jsonl`.
#[derive(Debug)]
pub enum KimiLine {
    /// Blank, or not JSON.
    Invalid,
    Record { kind: JsonField, usage: Option<KimiUsageFields>, model: JsonField, time: JsonField },
}

/// One Kimi request.
#[derive(Debug)]
pub struct KimiRow {
    pub request_id: String,
    pub session_id: Option<String>,
    pub model: String,
    pub input_tokens: i64,
    pub output_tokens: i64,
    pub cache_read: i64,
    pub cache_creation: i64,
    pub created_at: i64,
    pub project: String,
    pub latency: i64,
}

/// A Kimi count: `as_i64`, 0 when absent.
pub open spec fn kimi_count(f: JsonField) -> i64 {
    match field_i64(f) {
        Some(n) => n,
        None => 0,
    }
}

fn kimi_count_exec(f: &JsonField) -> (n: i64)
    ensures
        n == kimi_count(*f),
{
    match json_as_i64(f) {
        Some(v) => v,
        None => 0,
    }
}

/// A `usage.record` with some tokens gives a row.
pub open spec fn kimi_yields(line: KimiLine) -> bool {
    match line {
        KimiLine::Record { kind, usage, .. } => {
            &&& field_str(kind) == Some("usage.record"@)
            &&& usage is Some
            &&& !(kimi_count(usage->Some_0.input_other) == 0 && kimi_count(usage->Some_0.output) == 0
                && kimi_count(usage->Some_0.input_cache_read) == 0 && kimi_count(usage->Some_0.input_cache_creation) == 0)
        },
        KimiLine::Invalid => false,
    }
}

/// The time of a Kimi record in seconds: milliseconds when above 10^10.
pub open spec fn kimi_time(f: JsonField) -> i64 {
    let t = kimi_count(f);
    if t > 10_000_000_000 {
        (t / 1000) as i64
    } else {
        t
    }
}

/// `r` is the row of a yielding line: its id is `session:agent:line`.
pub open spec fn kimi_row_is(r: KimiRow, line: KimiLine, session_id: Seq<char>, project_dir: Seq<char>, agent_name: Seq<char>, line_number: i64) -> bool {
    match line {
        KimiLine::Record { usage, model, time, .. } => {
            let u = usage->Some_0;
            &&& r.request_id@ == session_id + ":"@ + agent_name + ":"@ + dec_i64(line_number)
            &&& r.session_id matches Some(s) && s@ == session_id
            &&& r.model@ == (match field_str(model) {
                Some(m) => m,
                None => "kimi"@,
            })
            &&& r.input_tokens == kimi_count(u.input_other)
            &&& r.output_tokens == kimi_count(u.output)
            &&& r.cache_read == kimi_count(u.input_cache_read)
            &&& r.cache_creation == kimi_count(u.input_cache_creation)
            &&& r.created_at == kimi_time(time)
            &&& r.project@ == project_dir
            &&& r.latency == 0
        },
        KimiLine::Invalid => false,
    }
}

/// Reads one line of a Kimi `wire.jsonl`: the row of a `usage.record` with
/// tokens, identified by session, agent and line number.
pub fn parse_kimi_line(line: &KimiLine, session_id: &str, project_dir: &str, agent_name: &str, line_number: i64) -> (r: Option<KimiRow>)
    ensures
        r is Some <==> kimi_yields(*line),
        r matches Some(row) ==> kimi_row_is(row, *line, session_id@, project_dir@, agent_name@, line_number),
{
    match line {
        KimiLine::Invalid => None,
        KimiLine::Record { kind, usage, model, time } => {
            let is_usage = match json_as_str(kind) {
                Some(k) => text::str_eq(k, "usage.record"),
                None => false,
            };
            if !is_usage {
                return None;
            }
            let u = match usage {
                Some(u) => u,
                None => return None,
            };
            let input_tokens = kimi_count_exec(&u.input_other);
            let output_tokens = kimi_count_exec(&u.output);
            let cache_read = kimi_count_exec(&u.input_cache_read);
            let cache_creation = kimi_count_exec(&u.input_cache_creation);
            if input_tokens == 0 && output_tokens == 0 && cache_read == 0 && cache_creation == 0 {
                return None;
            }
            let model_name = match json_as_str(model) {
                Some(m) => text::owned(m),
                None => text::owned("kimi"),
            };
            let time_raw = kimi_count_exec(time);
            let created_at = if time_raw > 10_000_000_000 {
                time_raw / 1000
            } else {
                time_raw
            };
            let mut request_id = String::new();
            text::push_str(&mut request_id, session_id);
            text::push_str(&mut request_id, ":");
            text::push_str(&mut request_id, agent_name);
            text::push_str(&mut request_id, ":");
            text::push_dec_i64(&mut request_id, line_number);
            Some(KimiRow {
                request_id,
                session_id: Some(text::owned(session_id)),
                model: model_name,
                input_tokens,
                output_tokens,
                cache_read,
                cache_creation,
                created_at,
                project: text::owned(project_dir),
                latency: 0,
            })
        },
    }
}

// ---------------------------------------------------------------------------
// Reading only what was added since the last scan
// ---------------------------------------------------------------------------

/// Where reading resumes: after the first `last_offset` lines (clamped to
/// the log).
pub open spec fn resume_at(len: nat, last_offset: i64) -> int {
    if last_offset <= 0 {
        0
    } else if last_offset >= len {
        len as int
    } else {
        last_offset as int
    }
}

fn resume_at_exec(len: usize, last_offset: i64) -> (r: usize)
    ensures
        r == resume_at(len as nat, last_offset),
{
    if last_offset <= 0 {
        0
    } else if last_offset as i128 >= len as i128 {
        len
    } else {
        last_offset as usize
    }
}

/// The session id after the lines of a DSH log.
pub open spec fn dsh_session_at(lines: Seq<DshLine>) -> Option<Seq<char>>
    decreases lines.len(),
{
    if lines.len() == 0 {
        None
    } else {
        dsh_session_after(lines.last(), dsh_session_at(lines.drop_last()))
    }
}

/// The lines of a DSH log that give rows, each with the session current
/// before it.
pub open spec fn dsh_yield_lines(lines: Seq<DshLine>) -> Seq<(DshLine, Option<Seq<char>>)>
    decreases lines.len(),
{
    if lines.len() == 0 {
        Seq::empty()
    } else {
        let p = dsh_yield_lines(lines.drop_last());
        if dsh_yields(lines.last()) {
            p.push((lines.last(), dsh_session_at(lines.drop_last())))
        } else {
            p
        }
    }
}

/// A yielding DSH line bills some tokens.
pub open spec fn dsh_billable(line: DshLine) -> bool {
    match line {
        DshLine::Event { usage, .. } => match usage {
            Some(u) => count_of(u.input_tokens) > 0 || count_of(u.output_tokens) > 0 || count_of(u.cache_read_tokens) > 0 || count_of(u.cache_write_tokens) > 0,
            None => false,
        },
        DshLine::Invalid => false,
    }
}

/// The billable messages of the lines after `last_offset`.
pub open spec fn dsh_new_lines(lines: Seq<DshLine>, last_offset: i64) -> Seq<(DshLine, Option<Seq<char>>)> {
    dsh_yield_lines(lines.skip(resume_at(lines.len(), last_offset))).filter(|p: (DshLine, Option<Seq<char>>)| dsh_billable(p.0))
}

/// The billable assistant messages a DSH log added after the first
/// `last_offset` lines (sessions are tracked from the first of the new
/// lines), and the offset to resume from next time: the number of lines.
pub fn dsh_new_messages(lines: &Vec<DshLine>, last_offset: i64) -> (r: (Vec<DshMessage>, i64))
    requires
        lines.len() <= i64::MAX,
    ensures
        r.1 == lines.len(),
        r.0.len() == dsh_new_lines(lines@, last_offset).len(),
        forall|k: int| 0 <= k < r.0.len() ==> dsh_row_is(#[trigger] r.0@[k], dsh_new_lines(lines@, last_offset)[k].0, dsh_new_lines(lines@, last_offset)[k].1),
{
    let start = resume_at_exec(lines.len(), last_offset);
    let ghost rest = lines@.skip(start as int);
    let ghost f = |p: (DshLine, Option<Seq<char>>)| dsh_billable(p.0);
    let mut current: Option<String> = None;
    let mut out: Vec<DshMessage> = Vec::new();
    let mut i: usize = start;
    while i < lines.len()
        invariant
            start <= i <= lines.len(),
            rest == lines@.skip(start as int),
            f == (|p: (DshLine, Option<Seq<char>>)| dsh_billable(p.0)),
            opt_view(current) == dsh_session_at(rest.take(i - start)),
            out.len() == dsh_yield_lines(rest.take(i - start)).filter(f).len(),
            forall|k: int| 0 <= k < out.len() ==> dsh_row_is(#[trigger] out@[k], dsh_yield_lines(rest.take(i - start)).filter(f)[k].0, dsh_yield_lines(rest.take(i - start)).filter(f)[k].1),
        decreases lines.len() - i,
    {
        let ghost j = i - start;
        proof {
            let t = rest.take(j + 1);
            assert(t.drop_last() =~= rest.take(j));
            assert(t.last() == lines@[i as int]);
            reveal_with_fuel(Seq::<_>::filter, 1);
        }
        let ghost before = opt_view(current);
        match parse_dsh_line(&lines[i], &mut current) {
            Some(m) => {
                let bill = m.input_tokens > 0 || m.output_tokens > 0 || m.cache_read > 0 || m.cache_creation > 0;
                proof {
                    let y = dsh_yield_lines(rest.take(j + 1));
                    assert(y == dsh_yield_lines(rest.take(j)).push((lines@[i as int], before)));
                    assert(y.drop_last() =~= dsh_yield_lines(rest.take(j)));
                    assert(y.last() == (lines@[i as int], before));
                    reveal_with_fuel(Seq::<_>::filter, 1);
                    assert(bill == dsh_billable(lines@[i as int]));
                    assert(y.filter(f) == if f((lines@[i as int], before)) { dsh_yield_lines(rest.take(j)).filter(f).push((lines@[i as int], before)) } else { dsh_yield_lines(rest.take(j)).filter(f) });
                }
                if bill {
                    out.push(m);
                }
            },
            None => {},
        }
        i = i + 1;
    }
    assert(rest.take(lines.len() - start) =~= rest);
    (out, lines.len() as i64)
}

/// The lines of a Kimi log after `last_offset` that give rows, by index.
pub open spec fn kimi_new_indices(lines: Seq<KimiLine>, last_offset: i64) -> Seq<int> {
    let start = resume_at(lines.len(), last_offset);
    Seq::new((lines.len() - start) as nat, |j: int| start + j).filter(|i: int| kimi_yields(lines[i]))
}

/// The rows a Kimi log added after the first `last_offset` lines (each
/// identified by its line number, from 1), and the offset to resume from
/// next time: the number of lines.
pub fn kimi_new_rows(lines: &Vec<KimiLine>, last_offset: i64, session_id: &str, project_dir: &str, agent_name: &str) -> (r: (Vec<KimiRow>, i64))
    requires
        lines.len() < i64::MAX,
    ensures
        r.1 == lines.len(),
        r.0.len() == kimi_new_indices(lines@, last_offset).len(),
        forall|k: int| 0 <= k < r.0.len() ==> {
            let i = kimi_new_indices(lines@, last_offset)[k];
            kimi_row_is(#[trigger] r.0@[k], lines@[i], session_id@, project_dir@, agent_name@, (i + 1) as i64)
        },
{
    let start = resume_at_exec(lines.len(), last_offset);
    let ghost all = Seq::new((lines.len() - start) as nat, |j: int| start + j);
    let ghost f = |i: int| kimi_yields(lines@[i]);
    let mut out: Vec<KimiRow> = Vec::new();
    let mut i: usize = start;
    while i < lines.len()
        invariant
            start <= i <= lines.len(),
            lines.len() < i64::MAX,
            all == Seq::new((lines.len() - start) as nat, |j: int| start + j),
            f == (|i: int| kimi_yields(lines@[i])),
            out.len() == all.take(i - start).filter(f).len(),
            forall|k: int| 0 <= k < out.len() ==> {
                let x = all.take(i - start).filter(f)[k];
                kimi_row_is(#[trigger] out@[k], lines@[x], session_id@, project_dir@, agent_name@, (x + 1) as i64)
            },
        decreases lines.len() - i,
    {
        let ghost j = i - start;
        proof {
            let t = all.take(j + 1);
            assert(t.drop_last() =~= all.take(j));
            assert(t.last() == i as int);
            reveal_with_fuel(Seq::<_>::filter, 1);
        }
        let n: i64 = (i + 1) as i64;
        match parse_kimi_line(&lines[i], session_id, project_dir, agent_name, n) {
            Some(row) => {
                out.push(row);
            },
            None => {},
        }
        i = i + 1;
    }
    assert(all.take(lines.len() - start) =~= all);
    (out, lines.len() as i64)
}


/// What zstd's `decode_all` makes of a zstd stream; `None` when it fails.
pub uninterp spec fn zstd_decoded(data: Seq<u8>) -> Option<Seq<u8>>;

/// zstd's `stream::decode_all` on the bytes. The contract names the decoded
/// bytes; on failure it hands on the error's text, of which nothing is stated.
#[verifier::external_body]
fn zstd_decode_all(data: &[u8]) -> (r: Result<Vec<u8>, String>)
    ensures
        r matches Ok(v) ==> zstd_decoded(data@) == Some(v@),
        r is Err <==> zstd_decoded(data@) is None,
{
    zstd::decode_all(data).map_err(|e| e.to_string())
}

/// Whether the bytes open with zstd's frame magic `28 b5 2f fd`.
pub open spec fn has_zstd_magic(bytes: Seq<u8>) -> bool {
    bytes.len() >= 4 && bytes[0] == 0x28u8 && bytes[1] == 0xb5u8 && bytes[2] == 0x2fu8 && bytes[3] == 0xfdu8
}

/// The prefix of the error for a DSH session log that zstd cannot decode.
pub const ZSTD_ERROR_PREFIX: &'static str = "zstd 解压失败: ";

/// The text bytes of a DSH session log: decoded by zstd when the file opens
/// with zstd's magic bytes, the bytes themselves otherwise.
pub fn dsh_log_payload(bytes: &[u8]) -> (r: Result<Vec<u8>, String>)
    ensures
        !has_zstd_magic(bytes@) ==> (r matches Ok(v) && v@ == bytes@),
        has_zstd_magic(bytes@) ==> (r matches Ok(v) ==> zstd_decoded(bytes@) == Some(v@)),
        has_zstd_magic(bytes@) ==> (r is Err <==> zstd_decoded(bytes@) is None),
        r matches Err(e) ==> ZSTD_ERROR_PREFIX@.is_prefix_of(e@),
{
    let is_zstd = bytes.len() >= 4 && bytes[0] == 0x28u8 && bytes[1] == 0xb5u8 && bytes[2] == 0x2fu8 && bytes[3] == 0xfdu8;
    if is_zstd {
        match zstd_decode_all(bytes) {
            Ok(v) => Ok(v),
            Err(e) => {
                let mut msg = text::owned(ZSTD_ERROR_PREFIX);
                text::push_str(&mut msg, e.as_str());
                assert(msg@ == ZSTD_ERROR_PREFIX@ + e@);
                assert(ZSTD_ERROR_PREFIX@ =~= msg@.subrange(0, ZSTD_ERROR_PREFIX@.len() as int));
                Err(msg)
            },
        }
    } else {
        Ok(vstd::slice::slice_to_vec(bytes))
    }
}

// ---------------------------------------------------------------------------
// Reading the JSON lines
// ---------------------------------------------------------------------------

/// `f` holds the four counts of the usage object at `base`.
pub open spec fn token_fields_at(f: TokenFields, t: Seq<char>, base: Seq<char>) -> bool {
    &&& f.input_tokens@ == json_at(t, base + "/inputTokens"@)
    &&& f.output_tokens@ == json_at(t, base + "/outputTokens"@)
    &&& f.cache_read_tokens@ == json_at(t, base + "/cacheReadTokens"@)
    &&& f.cache_write_tokens@ == json_at(t, base + "/cacheWriteTokens"@)
}

fn token_fields_exec(doc: &JsonDoc, base: &str) -> (f: TokenFields)
    ensures
        token_fields_at(f, doc@, base@),
{
    let p1 = child_pointer(base, "inputTokens");
    let p2 = child_pointer(base, "outputTokens");
    let p3 = child_pointer(base, "cacheReadTokens");
    let p4 = child_pointer(base, "cacheWriteTokens");
    proof {
        reveal_strlit("inputTokens");
        reveal_strlit("outputTokens");
        reveal_strlit("cacheReadTokens");
        reveal_strlit("cacheWriteTokens");
        reveal_strlit("/inputTokens");
        reveal_strlit("/outputTokens");
        reveal_strlit("/cacheReadTokens");
        reveal_strlit("/cacheWriteTokens");
        assert(p1@ =~= base@ + "/inputTokens"@);
        assert(p2@ =~= base@ + "/outputTokens"@);
        assert(p3@ =~= base@ + "/cacheReadTokens"@);
        assert(p4@ =~= base@ + "/cacheWriteTokens"@);
    }
    TokenFields {
        input_tokens: json_value_at(doc, p1.as_str()),
        output_tokens: json_value_at(doc, p2.as_str()),
        cache_read_tokens: json_value_at(doc, p3.as_str()),
        cache_write_tokens: json_value_at(doc, p4.as_str()),
    }
}

/// `l` is what the DSH log line `line` holds (read trimmed).
pub open spec fn dsh_line_is(l: DshLine, line: Seq<char>) -> bool {
    let t = trim(line);
    if !json_parses(t) {
        l is Invalid
    } else {
        l matches DshLine::Event { kind, data_id, message, usage, time } && {
            &&& kind@ == json_at(t, "/type"@)
            &&& data_id@ == json_at(t, "/data/id"@)
            &&& time@ == json_at(t, "/time"@)
            &&& (if present(t, "/data/message"@) {
                message matches Some(m) && m.id@ == json_at(t, "/data/message/id"@)
                    && m.source_model@ == json_at(t, "/data/message/source/model"@) && m.model@ == json_at(t, "/data/message/model"@)
            } else {
                message is None
            })
            &&& (if present(t, "/data/usage"@) {
                usage matches Some(u) && token_fields_at(u, t, "/data/usage"@)
            } else {
                usage is None
            })
        }
    }
}

/// One line of a DSH session log.
pub fn dsh_line(line: &str) -> (l: DshLine)
    ensures
        dsh_line_is(l, line@),
{
    let t = text::trim_str(line);
    let doc = match parse_json(t.as_str()) {
        Ok(d) => d,
        Err(_) => return DshLine::Invalid,
    };
    let message = if doc_has(&doc, "/data/message") {
        Some(DshMessageFields {
            id: json_value_at(&doc, "/data/message/id"),
            source_model: json_value_at(&doc, "/data/message/source/model"),
            model: json_value_at(&doc, "/data/message/model"),
        })
    } else {
        None
    };
    let usage = if doc_has(&doc, "/data/usage") {
        Some(token_fields_exec(&doc, "/data/usage"))
    } else {
        None
    };
    DshLine::Event {
        kind: json_value_at(&doc, "/type"),
        data_id: json_value_at(&doc, "/data/id"),
        message,
        usage,
        time: json_value_at(&doc, "/time"),
    }
}

/// `l` is what the plugin usage line `line` holds (read trimmed).
pub open spec fn plugin_line_is(l: PluginLine, line: Seq<char>) -> bool {
    let t = trim(line);
    if !json_parses(t) {
        l is Invalid
    } else {
        l matches PluginLine::Record { request_id, usage, model, session_id, time } && {
            &&& request_id@ == json_at(t, "/requestId"@)
            &&& model@ == json_at(t, "/model"@)
            &&& session_id@ == json_at(t, "/sessionId"@)
            &&& time@ == json_at(t, "/time"@)
            &&& (if present(t, "/usage"@) {
                usage matches Some(u) && token_fields_at(u, t, "/usage"@)
            } else {
                usage is None
            })
        }
    }
}

/// One line of a DSH plugin usage file.
pub fn plugin_line(line: &str) -> (l: PluginLine)
    ensures
        plugin_line_is(l, line@),
{
    let t = text::trim_str(line);
    let doc = match parse_json(t.as_str()) {
        Ok(d) => d,
        Err(_) => return PluginLine::Invalid,
    };
    let usage = if doc_has(&doc, "/usage") {
        Some(token_fields_exec(&doc, "/usage"))
    } else {
        None
    };
    PluginLine::Record {
        request_id: json_value_at(&doc, "/requestId"),
        usage,
        model: json_value_at(&doc, "/model"),
        session_id: json_value_at(&doc, "/sessionId"),
        time: json_value_at(&doc, "/time"),
    }
}

/// `l` is what the Kimi wire line `line` holds (read trimmed).
pub open spec fn kimi_line_is(l: KimiLine, line: Seq<char>) -> bool {
    let t = trim(line);
    if !json_parses(t) {
        l is Invalid
    } else {
        l matches KimiLine::Record { kind, usage, model, time } && {
            &&& kind@ == json_at(t, "/type"@)
            &&& model@ == json_at(t, "/model"@)
            &&& time@ == json_at(t, "/time"@)
            &&& (if present(t, "/usage"@) {
                usage matches Some(u) && u.input_other@ == json_at(t, "/usage/inputOther"@) && u.output@ == json_at(t, "/usage/output"@)
                    && u.input_cache_read@ == json_at(t, "/usage/inputCacheRead"@)
                    && u.input_cache_creation@ == json_at(t, "/usage/inputCacheCreation"@)
            } else {
                usage is None
            })
        }
    }
}

/// One line of a Kimi `wire.jsonl`.
pub fn kimi_line(line: &str) -> (l: KimiLine)
    ensures
        kimi_line_is(l, line@),
{
    let t = text::trim_str(line);
    let doc = match parse_json(t.as_str()) {
        Ok(d) => d,
        Err(_) => return KimiLine::Invalid,
    };
    let usage = if doc_has(&doc, "/usage") {
        Some(KimiUsageFields {
            input_other: json_value_at(&doc, "/usage/inputOther"),
            output: json_value_at(&doc, "/usage/output"),
            input_cache_read: json_value_at(&doc, "/usage/inputCacheRead"),
            input_cache_creation: json_value_at(&doc, "/usage/inputCacheCreation"),
        })
    } else {
        None
    };
    KimiLine::Record {
        kind: json_value_at(&doc, "/type"),
        usage,
        model: json_value_at(&doc, "/model"),
        time: json_value_at(&doc, "/time"),
    }
}

} // verus!
