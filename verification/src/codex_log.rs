//! Reading a Codex session log (`rollout-*.jsonl`) line by line: its session
//! id, project directory and title, and the times of its events. Each line
//! arrives as the fields the reading looks at.
use crate::json_field::{child_pointer, doc_str, field_i64, index_pointer, json_as_i64, json_at, json_parses, json_value_at, parse_json, str_at, JsonDoc, JsonField, JsonScalar};
use crate::sync::join_lines;
use crate::codex::{extract_uuid_from_filename, is_title_candidate, is_title_message, session_title, session_title_of, uuid_in};
use crate::dates;
use crate::hooks::opt_view;
use crate::text::{self, trim};
use vstd::prelude::*;

verus! {

/// What one line of a Codex log says.
#[derive(Debug)]
pub enum CodexLine {
    /// The line is not JSON.
    Invalid,
    /// A `session_meta` line with its payload's `id` and `cwd`; `subagent`
    /// when its `source` names a subagent.
    SessionMeta { subagent: bool, id: Option<String>, cwd: Option<String> },
    /// A user `message` response item, with the text of its content.
    UserMessage(String),
    /// Any other line.
    Other,
}

/// A line of a Codex log with its `timestamp` field.
#[derive(Debug)]
pub struct CodexLogLine {
    pub timestamp: JsonField,
    pub line: CodexLine,
}

/// What has been read so far: session id, project directory, first user
/// message (trimmed).
pub type LogState = (Option<Seq<char>>, Option<Seq<char>>, Option<Seq<char>>);

pub open spec fn first_some(a: Option<Seq<char>>, b: Option<Seq<char>>) -> Option<Seq<char>> {
    if a is Some {
        a
    } else {
        b
    }
}

/// The state after one more line; `None` ends the reading without a session
/// (a subagent's log, or, when `strict`, a line that is not JSON).
pub open spec fn absorb(st: LogState, line: CodexLine, strict: bool) -> Option<LogState> {
    match line {
        CodexLine::Invalid => if strict {
            None
        } else {
            Some(st)
        },
        CodexLine::SessionMeta { subagent, id, cwd } => if subagent {
            None
        } else {
            Some((first_some(st.0, opt_view(id)), first_some(st.1, opt_view(cwd)), st.2))
        },
        CodexLine::UserMessage(t) => if st.2 is None && is_title_message(t@) {
            Some((st.0, st.1, Some(trim(t@))))
        } else {
            Some(st)
        },
        CodexLine::Other => Some(st),
    }
}

/// All three things are known.
pub open spec fn complete(st: LogState) -> bool {
    st.0 is Some && st.1 is Some && st.2 is Some
}

/// The state after the head lines of a log; reading stops once complete.
pub open spec fn head_state(lines: Seq<CodexLine>) -> Option<LogState>
    decreases lines.len(),
{
    if lines.len() == 0 {
        Some((None, None, None))
    } else {
        match head_state(lines.drop_last()) {
            None => None,
            Some(st) => if complete(st) {
                Some(st)
            } else {
                absorb(st, lines.last(), true)
            },
        }
    }
}

/// The state after every line of a log; lines that are not JSON are skipped.
pub open spec fn full_state(lines: Seq<CodexLogLine>) -> Option<LogState>
    decreases lines.len(),
{
    if lines.len() == 0 {
        Some((None, None, None))
    } else {
        match full_state(lines.drop_last()) {
            None => None,
            Some(st) => absorb(st, lines.last().line, false),
        }
    }
}

/// The epoch second of a `timestamp` field: an `i64` integer (milliseconds
/// when above 10^12), or an RFC 3339 string.
pub open spec fn ts_of(v: JsonField) -> Option<i64> {
    match field_i64(v) {
        Some(n) => Some(if n > 1_000_000_000_000 { (n / 1000) as i64 } else { n }),
        None => match v {
            JsonField::Text(s) => dates::rfc3339_secs(s@),
            _ => None,
        },
    }
}

/// The event times of a log's lines, in order.
pub open spec fn log_times(lines: Seq<CodexLogLine>) -> Seq<i64>
    decreases lines.len(),
{
    if lines.len() == 0 {
        Seq::empty()
    } else {
        match ts_of(lines.last().timestamp) {
            Some(t) => log_times(lines.drop_last()).push(t),
            None => log_times(lines.drop_last()),
        }
    }
}

/// The event time of a `timestamp` field.
pub fn parse_ts_to_epoch(value: &JsonField) -> (r: Option<i64>)
    ensures
        r == ts_of(*value),
{
    match json_as_i64(value) {
        Some(n) => Some(if n > 1_000_000_000_000 { n / 1000 } else { n }),
        None => match value {
            JsonField::Text(s) => dates::parse_rfc3339(s.as_str()),
            _ => None,
        },
    }
}

proof fn lemma_head_settled(lines: Seq<CodexLine>, j: int, k: int)
    requires
        0 <= j <= k <= lines.len(),
    ensures
        head_state(lines.take(j)) is None ==> head_state(lines.take(k)) is None,
        (head_state(lines.take(j)) matches Some(st) && complete(st)) ==> head_state(lines.take(k)) == head_state(lines.take(j)),
    decreases k - j,
{
    if j < k {
        lemma_head_settled(lines, j, k - 1);
        let t = lines.take(k);
        assert(t.drop_last() =~= lines.take(k - 1));
    }
}

proof fn lemma_full_stays_none(lines: Seq<CodexLogLine>, j: int, k: int)
    requires
        0 <= j <= k <= lines.len(),
        full_state(lines.take(j)) is None,
    ensures
        full_state(lines.take(k)) is None,
    decreases k - j,
{
    if j < k {
        lemma_full_stays_none(lines, j, k - 1);
        let t = lines.take(k);
        assert(t.drop_last() =~= lines.take(k - 1));
    }
}

fn opt_clone(o: &Option<String>) -> (r: Option<String>)
    ensures
        opt_view(r) == opt_view(*o),
{
    match o {
        Some(s) => Some(s.clone()),
        None => None,
    }
}

/// One line read into the state (`id`, `cwd`, `msg`); false ends the reading
/// without a session.
fn absorb_exec(id: &mut Option<String>, cwd: &mut Option<String>, msg: &mut Option<String>, line: &CodexLine, strict: bool) -> (go: bool)
    ensures
        go <==> absorb((opt_view(*old(id)), opt_view(*old(cwd)), opt_view(*old(msg))), *line, strict) is Some,
        go ==> absorb((opt_view(*old(id)), opt_view(*old(cwd)), opt_view(*old(msg))), *line, strict)
            == Some((opt_view(*final(id)), opt_view(*final(cwd)), opt_view(*final(msg)))),
{
    match line {
        CodexLine::Invalid => !strict,
        CodexLine::SessionMeta { subagent, id: mid, cwd: mcwd } => {
            if *subagent {
                return false;
            }
            if id.is_none() {
                *id = opt_clone(mid);
            }
            if cwd.is_none() {
                *cwd = opt_clone(mcwd);
            }
            true
        },
        CodexLine::UserMessage(t) => {
            if msg.is_none() && is_title_candidate(t.as_str()) {
                *msg = Some(text::trim_str(t.as_str()));
            }
            true
        },
        CodexLine::Other => true,
    }
}

fn opt_str(o: &Option<String>) -> (r: Option<&str>)
    ensures
        match r {
            Some(s) => opt_view(*o) == Some(s@),
            None => o is None,
        },
{
    match o {
        Some(s) => Some(s.as_str()),
        None => None,
    }
}

/// The session of a log's head lines: its id (from the log, else from the
/// file name), its title and its project directory; `None` for a subagent's
/// log, a head line that is not JSON, or no id at all.
pub fn parse_codex_session(lines: &Vec<CodexLine>, file_name: &str) -> (r: Option<(String, String, String)>)
    ensures
        match head_state(lines@) {
            None => r is None,
            Some(st) => match first_some(st.0, uuid_in(file_name@)) {
                None => r is None,
                Some(sid) => r matches Some(t) && t.0@ == sid && t.1@ == session_title_of(st.2, st.1)
                    && t.2@ == (match st.1 { Some(p) => p, None => Seq::empty() }),
            },
        },
{
    let mut id: Option<String> = None;
    let mut cwd: Option<String> = None;
    let mut msg: Option<String> = None;
    let mut i: usize = 0;
    assert(lines@.take(lines.len() as int) =~= lines@);
    while i < lines.len()
        invariant_except_break
            head_state(lines@.take(i as int)) == Some((opt_view(id), opt_view(cwd), opt_view(msg))),
        invariant
            i <= lines.len(),
            lines@.take(lines.len() as int) == lines@,
        ensures
            head_state(lines@) == Some((opt_view(id), opt_view(cwd), opt_view(msg))),
        decreases lines.len() - i,
    {
        if id.is_some() && cwd.is_some() && msg.is_some() {
            proof {
                lemma_head_settled(lines@, i as int, lines.len() as int);
                assert(lines@.take(lines.len() as int) =~= lines@);
            }
            break;
        }
        proof {
            let t = lines@.take(i + 1);
            assert(t.drop_last() =~= lines@.take(i as int));
            assert(t.last() == lines@[i as int]);
        }
        let go = absorb_exec(&mut id, &mut cwd, &mut msg, &lines[i], true);
        if !go {
            proof {
                lemma_head_settled(lines@, i + 1, lines.len() as int);
                assert(lines@.take(lines.len() as int) =~= lines@);
            }
            return None;
        }
        i = i + 1;
    }
    proof {
        if i == lines.len() {
            assert(lines@.take(lines.len() as int) =~= lines@);
        }
    }
    let sid = match id {
        Some(s) => s,
        None => match extract_uuid_from_filename(file_name) {
            Some(u) => u,
            None => return None,
        },
    };
    let title = session_title(opt_str(&msg), opt_str(&cwd));
    let project = match cwd {
        Some(p) => p,
        None => String::new(),
    };
    Some((sid, title, project))
}

/// The session of a whole log: its title, its project directory and the
/// times of its events; `None` for a subagent's log or one without an id
/// (in the log or the file name). Lines that are not JSON are skipped.
pub fn scan_codex_log(lines: &Vec<CodexLogLine>, file_name: &str) -> (r: Option<(String, String, Vec<i64>)>)
    ensures
        match full_state(lines@) {
            None => r is None,
            Some(st) => match first_some(st.0, uuid_in(file_name@)) {
                None => r is None,
                Some(sid) => r matches Some(t) && t.0@ == session_title_of(st.2, st.1)
                    && t.1@ == (match st.1 { Some(p) => p, None => Seq::empty() })
                    && t.2@ == log_times(lines@),
            },
        },
{
    let mut id: Option<String> = None;
    let mut cwd: Option<String> = None;
    let mut msg: Option<String> = None;
    let mut times: Vec<i64> = Vec::new();
    let mut i: usize = 0;
    while i < lines.len()
        invariant
            i <= lines.len(),
            full_state(lines@.take(i as int)) == Some((opt_view(id), opt_view(cwd), opt_view(msg))),
            times@ == log_times(lines@.take(i as int)),
        decreases lines.len() - i,
    {
        proof {
            let t = lines@.take(i + 1);
            assert(t.drop_last() =~= lines@.take(i as int));
            assert(t.last() == lines@[i as int]);
        }
        match parse_ts_to_epoch(&lines[i].timestamp) {
            Some(t) => {
                times.push(t);
            },
            None => {},
        }
        let go = absorb_exec(&mut id, &mut cwd, &mut msg, &lines[i].line, false);
        if !go {
            proof {
                lemma_full_stays_none(lines@, i + 1, lines.len() as int);
                assert(lines@.take(lines.len() as int) =~= lines@);
            }
            return None;
        }
        i = i + 1;
    }
    assert(lines@.take(lines.len() as int) =~= lines@);
    if id.is_none() {
        match extract_uuid_from_filename(file_name) {
            Some(_) => {},
            None => return None,
        }
    }
    let title = session_title(opt_str(&msg), opt_str(&cwd));
    let project = match cwd {
        Some(p) => p,
        None => String::new(),
    };
    Some((title, project, times))
}

/// What reading a log for its time range has found so far: session id,
/// first and last event times.
pub type RangeState = (Option<Seq<char>>, Option<i64>, i64);

/// The state after one more line: a line that is not JSON is skipped; any
/// other records its time; the first `session_meta` with an id (its own,
/// else the file name's) names the session, and a subagent's ends the
/// reading without a range.
pub open spec fn range_step(st: RangeState, l: CodexLogLine, file_name: Seq<char>) -> Option<RangeState> {
    match l.line {
        CodexLine::Invalid => Some(st),
        _ => {
            let (first, last) = match ts_of(l.timestamp) {
                Some(t) => (if st.1 is Some { st.1 } else { Some(t) }, t),
                None => (st.1, st.2),
            };
            match l.line {
                CodexLine::SessionMeta { subagent, id, .. } => if st.0 is None {
                    if subagent {
                        None
                    } else {
                        Some((first_some(opt_view(id), uuid_in(file_name)), first, last))
                    }
                } else {
                    Some((st.0, first, last))
                },
                _ => Some((st.0, first, last)),
            }
        },
    }
}

/// The state after the lines of a log.
pub open spec fn range_state(lines: Seq<CodexLogLine>, file_name: Seq<char>) -> Option<RangeState>
    decreases lines.len(),
{
    if lines.len() == 0 {
        Some((None, None, 0))
    } else {
        match range_state(lines.drop_last(), file_name) {
            None => None,
            Some(st) => range_step(st, lines.last(), file_name),
        }
    }
}

proof fn lemma_range_stays_none(lines: Seq<CodexLogLine>, file_name: Seq<char>, j: int, k: int)
    requires
        0 <= j <= k <= lines.len(),
        range_state(lines.take(j), file_name) is None,
    ensures
        range_state(lines.take(k), file_name) is None,
    decreases k - j,
{
    if j < k {
        lemma_range_stays_none(lines, file_name, j, k - 1);
        let t = lines.take(k);
        assert(t.drop_last() =~= lines.take(k - 1));
    }
}

/// The time range of a Codex log: its session id and its first and last
/// event times; `None` for a subagent's log, a log without a session id, or
/// one whose first event time is not after the epoch.
pub fn codex_time_range(lines: &Vec<CodexLogLine>, file_name: &str) -> (r: Option<(String, i64, i64)>)
    ensures
        match range_state(lines@, file_name@) {
            Some((Some(sid), first, last)) => {
                let f: i64 = match first { Some(t) => t, None => 0 };
                if f > 0 {
                    r matches Some(t) && t.0@ == sid && t.1 == f && t.2 == last
                } else {
                    r is None
                }
            },
            _ => r is None,
        },
{
    let mut sid: Option<String> = None;
    let mut first: Option<i64> = None;
    let mut last: i64 = 0;
    let mut i: usize = 0;
    while i < lines.len()
        invariant
            i <= lines.len(),
            range_state(lines@.take(i as int), file_name@) == Some((opt_view(sid), first, last)),
        decreases lines.len() - i,
    {
        proof {
            let t = lines@.take(i + 1);
            assert(t.drop_last() =~= lines@.take(i as int));
            assert(t.last() == lines@[i as int]);
        }
        let l = &lines[i];
        match &l.line {
            CodexLine::Invalid => {},
            _ => {
                match parse_ts_to_epoch(&l.timestamp) {
                    Some(t) => {
                        if first.is_none() {
                            first = Some(t);
                        }
                        last = t;
                    },
                    None => {},
                }
                match &l.line {
                    CodexLine::SessionMeta { subagent, id, .. } => {
                        if sid.is_none() {
                            if *subagent {
                                proof {
                                    lemma_range_stays_none(lines@, file_name@, i + 1, lines.len() as int);
                                    assert(lines@.take(lines.len() as int) =~= lines@);
                                }
                                return None;
                            }
                            sid = match id {
                                Some(x) => Some(x.clone()),
                                None => extract_uuid_from_filename(file_name),
                            };
                        }
                    },
                    _ => {},
                }
            },
        }
        i = i + 1;
    }
    assert(lines@.take(lines.len() as int) =~= lines@);
    let f: i64 = match first {
        Some(t) => t,
        None => 0,
    };
    match sid {
        Some(s) => if f > 0 {
            Some((s, f, last))
        } else {
            None
        },
        None => None,
    }
}

// ---------------------------------------------------------------------------
// Reading log lines
// ---------------------------------------------------------------------------

/// The text of part `i` of the content array at `ptr`: its first string
/// among `text`, `output_text` and `input_text`.
pub open spec fn part_text(t: Seq<char>, ptr: Seq<char>, i: nat) -> Option<Seq<char>> {
    let base = ptr + seq!['/'] + text::dec_digits(i);
    if str_at(t, base + "/text"@) is Some {
        str_at(t, base + "/text"@)
    } else if str_at(t, base + "/output_text"@) is Some {
        str_at(t, base + "/output_text"@)
    } else {
        str_at(t, base + "/input_text"@)
    }
}

/// The non-blank part texts of the first `n` parts.
pub open spec fn part_texts(t: Seq<char>, ptr: Seq<char>, n: nat) -> Seq<Seq<char>>
    decreases n,
{
    if n == 0 {
        Seq::empty()
    } else {
        let p = part_texts(t, ptr, (n - 1) as nat);
        match part_text(t, ptr, (n - 1) as nat) {
            Some(s) => if trim(s).len() > 0 { p.push(s) } else { p },
            None => p,
        }
    }
}

/// The text of a message's content at `ptr`: a string as it is, an array's
/// non-blank part texts joined by newlines, anything else empty.
pub open spec fn content_text(t: Seq<char>, ptr: Seq<char>) -> Seq<char> {
    match json_at(t, ptr) {
        JsonScalar::Text(s) => s,
        JsonScalar::Array(n) => join_lines(part_texts(t, ptr, n as nat)),
        _ => Seq::empty(),
    }
}

fn part_text_exec(doc: &JsonDoc, ptr: &str, i: usize) -> (r: Option<String>)
    ensures
        opt_view(r) == part_text(doc@, ptr@, i as nat),
{
    let base = index_pointer(ptr, i);
    let p1 = child_pointer(base.as_str(), "text");
    let p2 = child_pointer(base.as_str(), "output_text");
    let p3 = child_pointer(base.as_str(), "input_text");
    proof {
        reveal_strlit("text");
        reveal_strlit("output_text");
        reveal_strlit("input_text");
        reveal_strlit("/text");
        reveal_strlit("/output_text");
        reveal_strlit("/input_text");
        assert(p1@ =~= ptr@ + seq!['/'] + text::dec_digits(i as nat) + "/text"@);
        assert(p2@ =~= ptr@ + seq!['/'] + text::dec_digits(i as nat) + "/output_text"@);
        assert(p3@ =~= ptr@ + seq!['/'] + text::dec_digits(i as nat) + "/input_text"@);
    }
    match doc_str(doc, p1.as_str()) {
        Some(s) => Some(s),
        None => match doc_str(doc, p2.as_str()) {
            Some(s) => Some(s),
            None => doc_str(doc, p3.as_str()),
        },
    }
}

/// The text of a message's content (see `content_text`).
pub fn extract_text(doc: &JsonDoc, ptr: &str) -> (r: String)
    ensures
        r@ == content_text(doc@, ptr@),
{
    match json_value_at(doc, ptr) {
        JsonField::Text(s) => s,
        JsonField::Array(n) => {
            let mut out = String::new();
            let mut count: usize = 0;
            let mut i: usize = 0;
            while i < n
                invariant
                    i <= n,
                    json_at(doc@, ptr@) == JsonScalar::Array(n),
                    count as nat == part_texts(doc@, ptr@, i as nat).len(),
                    count <= i,
                    out@ == join_lines(part_texts(doc@, ptr@, i as nat)),
                decreases n - i,
            {
                let ghost before = part_texts(doc@, ptr@, i as nat);
                match part_text_exec(doc, ptr, i) {
                    Some(s) => {
                        let sv = text::chars_of(s.as_str());
                        let tv = text::trim_vec(&sv);
                        if tv.len() > 0 {
                            if count > 0 {
                                text::push_str(&mut out, "\n");
                            }
                            text::push_str(&mut out, s.as_str());
                            proof {
                                let now = before.push(s@);
                                assert(now.drop_last() =~= before);
                                if before.len() == 0 {
                                    assert(out@ =~= s@);
                                } else {
                                    assert(out@ =~= join_lines(before) + "\n"@ + s@);
                                }
                            }
                            count = count + 1;
                        }
                    },
                    None => {},
                }
                i = i + 1;
            }
            out
        },
        _ => String::new(),
    }
}

/// `l` is what the Codex log line `t` (JSON) says.
pub open spec fn codex_line_is(l: CodexLine, t: Seq<char>) -> bool {
    let kind = str_at(t, "/type"@);
    let has_payload = !(json_at(t, "/payload"@) is Absent);
    if kind == Some("session_meta"@) && has_payload {
        l matches CodexLine::SessionMeta { subagent, id, cwd } && subagent == !(json_at(t, "/payload/source/subagent"@) is Absent)
            && opt_view(id) == str_at(t, "/payload/id"@) && opt_view(cwd) == str_at(t, "/payload/cwd"@)
    } else if kind == Some("response_item"@) && has_payload && str_at(t, "/payload/type"@) == Some("message"@)
        && str_at(t, "/payload/role"@) == Some("user"@) {
        l matches CodexLine::UserMessage(s) && s@ == content_text(t, "/payload/content"@)
    } else {
        l is Other
    }
}

fn str_is(o: &Option<String>, lit: &str) -> (b: bool)
    ensures
        b == (opt_view(*o) == Some(lit@)),
{
    match o {
        Some(s) => text::str_eq(s.as_str(), lit),
        None => false,
    }
}

/// A Codex log line: `Invalid` when it is not JSON, else its `timestamp`
/// field and what it says (see `codex_line_is`).
pub fn codex_log_line(line: &str) -> (r: CodexLogLine)
    ensures
        !json_parses(line@) ==> r.timestamp is Absent && r.line is Invalid,
        json_parses(line@) ==> r.timestamp@ == json_at(line@, "/timestamp"@) && codex_line_is(r.line, line@),
{
    let doc = match parse_json(line) {
        Ok(d) => d,
        Err(_) => return CodexLogLine { timestamp: JsonField::Absent, line: CodexLine::Invalid },
    };
    let timestamp = json_value_at(&doc, "/timestamp");
    let kind = doc_str(&doc, "/type");
    let has_payload = match json_value_at(&doc, "/payload") {
        JsonField::Absent => false,
        _ => true,
    };
    if str_is(&kind, "session_meta") && has_payload {
        let subagent = match json_value_at(&doc, "/payload/source/subagent") {
            JsonField::Absent => false,
            _ => true,
        };
        let id = doc_str(&doc, "/payload/id");
        let cwd = doc_str(&doc, "/payload/cwd");
        return CodexLogLine { timestamp, line: CodexLine::SessionMeta { subagent, id, cwd } };
    }
    if str_is(&kind, "response_item") && has_payload && str_is(&doc_str(&doc, "/payload/type"), "message")
        && str_is(&doc_str(&doc, "/payload/role"), "user") {
        let content = extract_text(&doc, "/payload/content");
        return CodexLogLine { timestamp, line: CodexLine::UserMessage(content) };
    }
    CodexLogLine { timestamp, line: CodexLine::Other }
}

} // verus!
