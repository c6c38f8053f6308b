//! Cursor's local hook log (`requests.jsonl`): which events the hook records,
//! how a log row yields a model, a time and an attribution event, the health
//! alert, tidying the log after a backup, and the backup policy.
use crate::attribution::{model_family, normalize_model_family, LocalHookEvent};
use crate::cursor_csv::DEFAULT_ATTRIBUTION_FILTER_START;
use crate::dates;
use crate::dedup::sat_sub;
use crate::json_field::{bool_at, child_pointer, doc_bool, doc_str, index_pointer, json_at, json_parses, json_value_at, parse_json, str_at, JsonField, JsonScalar};
use crate::text::{self, contains, trim};
use vstd::prelude::*;

verus! {

/// The text that marks a hook command as ours.
pub const HOOK_MARKER: &'static str = "local-usage/run_log.ps1";

/// The events the hook is installed on: the agent's lifecycle, subagents,
/// compaction, tool calls, file reads and edits, and Tab.
pub open spec fn hook_event_names() -> Seq<Seq<char>> {
    seq![
        "sessionStart"@,
        "sessionEnd"@,
        "beforeSubmitPrompt"@,
        "afterAgentThought"@,
        "afterAgentResponse"@,
        "stop"@,
        "subagentStart"@,
        "subagentStop"@,
        "preCompact"@,
        "preToolUse"@,
        "postToolUse"@,
        "postToolUseFailure"@,
        "beforeReadFile"@,
        "afterFileEdit"@,
        "beforeTabFileRead"@,
        "afterTabFileEdit"@,
    ]
}

/// The events that count for attribution (they carry a model).
pub open spec fn attribution_event_names() -> Seq<Seq<char>> {
    seq![
        "beforeSubmitPrompt"@,
        "afterAgentThought"@,
        "afterAgentResponse"@,
        "stop"@,
        "subagentStart"@,
        "subagentStop"@,
        "preCompact"@,
        "sessionStart"@,
        "preToolUse"@,
        "postToolUse"@,
        "postToolUseFailure"@,
        "beforeReadFile"@,
        "afterFileEdit"@,
        "beforeTabFileRead"@,
    ]
}

/// The views of a list of names.
pub open spec fn name_views(v: Seq<&'static str>) -> Seq<Seq<char>> {
    v.map_values(|s: &'static str| s@)
}

/// The events the hook is installed on.
pub fn hook_events() -> (v: Vec<&'static str>)
    ensures
        name_views(v@) == hook_event_names(),
{
    let v = vec![
        "sessionStart",
        "sessionEnd",
        "beforeSubmitPrompt",
        "afterAgentThought",
        "afterAgentResponse",
        "stop",
        "subagentStart",
        "subagentStop",
        "preCompact",
        "preToolUse",
        "postToolUse",
        "postToolUseFailure",
        "beforeReadFile",
        "afterFileEdit",
        "beforeTabFileRead",
        "afterTabFileEdit",
    ];
    assert(name_views(v@) =~= hook_event_names());
    v
}

/// The events that count for attribution.
pub fn attribution_hook_events() -> (v: Vec<&'static str>)
    ensures
        name_views(v@) == attribution_event_names(),
{
    let v = vec![
        "beforeSubmitPrompt",
        "afterAgentThought",
        "afterAgentResponse",
        "stop",
        "subagentStart",
        "subagentStop",
        "preCompact",
        "sessionStart",
        "preToolUse",
        "postToolUse",
        "postToolUseFailure",
        "beforeReadFile",
        "afterFileEdit",
        "beforeTabFileRead",
    ];
    assert(name_views(v@) =~= attribution_event_names());
    v
}

/// Whether an event of this name counts for attribution.
pub fn is_attribution_event(event_name: &str) -> (b: bool)
    ensures
        b == attribution_event_names().contains(event_name@),
{
    let names = attribution_hook_events();
    let mut i: usize = 0;
    while i < names.len()
        invariant
            i <= names.len(),
            name_views(names@) == attribution_event_names(),
            forall|k: int| 0 <= k < i ==> attribution_event_names()[k] != event_name@,
        decreases names.len() - i,
    {
        assert(name_views(names@)[i as int] == names@[i as int]@);
        if text::str_eq(names[i], event_name) {
            assert(attribution_event_names()[i as int] == event_name@);
            return true;
        }
        i = i + 1;
    }
    proof {
        if attribution_event_names().contains(event_name@) {
            let k = choose|k: int| 0 <= k < attribution_event_names().len() && attribution_event_names()[k] == event_name@;
            assert(attribution_event_names()[k] == event_name@);
        }
    }
    false
}

/// `s` with every backslash turned into a slash.
pub open spec fn forward_slashes(s: Seq<char>) -> Seq<char> {
    s.map_values(|c: char| if c == '\\' { '/' } else { c })
}

fn forward_slashes_exec(s: &str) -> (r: Vec<char>)
    ensures
        r@ == forward_slashes(s@),
{
    let v = text::chars_of(s);
    let mut r: Vec<char> = Vec::new();
    let mut i: usize = 0;
    while i < v.len()
        invariant
            i <= v.len(),
            r@ == forward_slashes(v@.take(i as int)),
        decreases v.len() - i,
    {
        let c = v[i];
        r.push(if c == '\\' { '/' } else { c });
        assert(forward_slashes(v@.take(i + 1)) =~= forward_slashes(v@.take(i as int)).push(if c == '\\' { '/' } else { c }));
        i = i + 1;
    }
    assert(v@.take(v.len() as int) =~= v@);
    r
}

/// A hook command is ours when, with backslashes read as slashes, it runs
/// our script.
pub fn is_our_hook_command(cmd: &str) -> (b: bool)
    ensures
        b == contains(forward_slashes(cmd@), HOOK_MARKER@),
{
    let norm = forward_slashes_exec(cmd);
    let marker = text::chars_of(HOOK_MARKER);
    text::contains_exec(&norm, &marker)
}

/// A `hooks.json` entry stays when it has no string `command` or runs
/// another program than ours.
pub open spec fn foreign_entry(command: Option<String>) -> bool {
    match command {
        Some(c) => !contains(forward_slashes(c@), HOOK_MARKER@),
        None => true,
    }
}

/// The pointer to the entry array of `event` in `hooks.json`.
pub open spec fn event_pointer(event: Seq<char>) -> Seq<char> {
    "/hooks"@ + seq!['/'] + event
}

/// The `command` strings of the entries of `event` in the `hooks.json` text
/// `content`, one per entry (`None` for an entry without one); none when the
/// text is not JSON or the event has no entry array.
pub fn hook_entry_commands(content: &str, event: &str) -> (r: Vec<Option<String>>)
    ensures
        (json_parses(content@) && json_at(content@, event_pointer(event@)) is Array) ==> ({
            let n = json_at(content@, event_pointer(event@))->Array_0;
            &&& r@.len() == n
            &&& forall|i: int| 0 <= i < n ==> opt_view(#[trigger] r@[i]) == str_at(
                content@,
                event_pointer(event@) + seq!['/'] + text::dec_digits(i as nat) + "/command"@,
            )
        }),
        !(json_parses(content@) && json_at(content@, event_pointer(event@)) is Array) ==> r@.len() == 0,
{
    let mut r: Vec<Option<String>> = Vec::new();
    let doc = match parse_json(content) {
        Ok(d) => d,
        Err(_) => return r,
    };
    let base = child_pointer("/hooks", event);
    let n = match json_value_at(&doc, base.as_str()) {
        JsonField::Array(n) => n,
        _ => return r,
    };
    let mut i: usize = 0;
    while i < n
        invariant
            i <= n,
            base@ == event_pointer(event@),
            json_at(content@, event_pointer(event@)) == JsonScalar::Array(n),
            doc@ == content@,
            r@.len() == i,
            forall|k: int| 0 <= k < i ==> opt_view(#[trigger] r@[k]) == str_at(
                content@,
                event_pointer(event@) + seq!['/'] + text::dec_digits(k as nat) + "/command"@,
            ),
        decreases n - i,
    {
        let item = index_pointer(base.as_str(), i);
        let p = child_pointer(item.as_str(), "command");
        proof {
            reveal_strlit("command");
            reveal_strlit("/command");
            assert(p@ =~= event_pointer(event@) + seq!['/'] + text::dec_digits(i as nat) + "/command"@);
        }
        r.push(doc_str(&doc, p.as_str()));
        i = i + 1;
    }
    r
}

/// The positions of an event's `hooks.json` entries that are not ours (each
/// entry given by its `command` string, if it has one), in order; installing
/// appends our entry after them, and an event left with none is removed.
pub fn foreign_hook_entries(commands: &Vec<Option<String>>) -> (out: Vec<usize>)
    ensures
        out@ == Seq::new(commands.len() as nat, |i: int| i as usize).filter(|i: usize| foreign_entry(commands@[i as int])),
{
    let ghost f = |i: usize| foreign_entry(commands@[i as int]);
    let ghost all = Seq::new(commands.len() as nat, |i: int| i as usize);
    let mut out: Vec<usize> = Vec::new();
    let mut i: usize = 0;
    while i < commands.len()
        invariant
            i <= commands.len(),
            f == (|i: usize| foreign_entry(commands@[i as int])),
            all == Seq::new(commands.len() as nat, |i: int| i as usize),
            out@ == all.take(i as int).filter(f),
        decreases commands.len() - i,
    {
        proof {
            let t = all.take(i + 1);
            assert(t.drop_last() =~= all.take(i as int));
            assert(t.last() == i);
            reveal_with_fuel(Seq::<_>::filter, 1);
        }
        let keep = match &commands[i] {
            Some(c) => !is_our_hook_command(c.as_str()),
            None => true,
        };
        if keep {
            out.push(i);
        }
        i = i + 1;
    }
    assert(all.take(commands.len() as int) =~= all);
    out
}

/// The PowerShell command that runs the hook script at `script_path`, with
/// slashes for backslashes.
pub fn hook_command_for(script_path: &str) -> (c: String)
    ensures
        c@ == "C:/WINDOWS/System32/WindowsPowerShell/v1.0/powershell.exe -NoProfile -ExecutionPolicy Bypass -File "@ + forward_slashes(script_path@),
{
    let mut c = String::new();
    text::push_str(&mut c, "C:/WINDOWS/System32/WindowsPowerShell/v1.0/powershell.exe -NoProfile -ExecutionPolicy Bypass -File ");
    let p = forward_slashes_exec(script_path);
    text::push_seq(&mut c, &p);
    c
}

// ---------------------------------------------------------------------------
// Settings
// ---------------------------------------------------------------------------

/// Local attribution is on when its setting is stored as `1`.
pub fn is_attribution_enabled(stored: Option<&str>) -> (b: bool)
    ensures
        b == (stored matches Some(v) && v@ == "1"@),
{
    match stored {
        Some(v) => text::str_eq(v, "1"),
        None => false,
    }
}

/// The stored value of the local attribution switch: `1` for on, `0` for
/// off.
pub open spec fn attribution_setting(enabled: bool) -> Seq<char> {
    if enabled { "1"@ } else { "0"@ }
}

/// The value to store for the local attribution switch.
pub fn attribution_setting_value(enabled: bool) -> (v: &'static str)
    ensures
        v@ == attribution_setting(enabled),
{
    if enabled { "1" } else { "0" }
}

/// Law: the switch reads back as it was stored.
pub proof fn lemma_attribution_setting_reads_back(enabled: bool)
    ensures
        (attribution_setting(enabled) == "1"@) == enabled,
{
    reveal_strlit("1");
    reveal_strlit("0");
    if !enabled {
        assert("0"@[0] != "1"@[0]);
    }
}

/// The stored start of local attribution: the trimmed setting as a positive
/// integer, else the default start.
pub open spec fn filter_start_of(stored: Option<Seq<char>>) -> i64 {
    match stored {
        Some(v) => match text::parse_i64(trim(v)) {
            Some(n) => if n > 0 {
                n
            } else {
                DEFAULT_ATTRIBUTION_FILTER_START
            },
            None => DEFAULT_ATTRIBUTION_FILTER_START,
        },
        None => DEFAULT_ATTRIBUTION_FILTER_START,
    }
}

/// The start of local attribution (Unix seconds) from its stored setting.
pub fn get_attribution_filter_start(stored: Option<&str>) -> (t: i64)
    ensures
        t == filter_start_of(
            match stored {
                Some(v) => Some(v@),
                None => None,
            },
        ),
{
    match stored {
        Some(v) => {
            let t = text::trim_str(v);
            match text::parse_i64_str(t.as_str()) {
                Some(n) => if n > 0 {
                    n
                } else {
                    crate::cursor_csv::default_attribution_filter_start_epoch()
                },
                None => crate::cursor_csv::default_attribution_filter_start_epoch(),
            }
        },
        None => crate::cursor_csv::default_attribution_filter_start_epoch(),
    }
}

/// A new start of local attribution must be positive; the error says so.
pub fn check_attribution_filter_start(epoch: i64) -> (r: Result<i64, String>)
    ensures
        epoch <= 0 <==> r is Err,
        r matches Ok(v) ==> v == epoch,
        r matches Err(e) ==> e@ == "归因起始时间无效"@,
{
    if epoch <= 0 {
        return Err(text::owned("归因起始时间无效"));
    }
    Ok(epoch)
}

/// The value to store for the start of local attribution: its decimal
/// text (as `i64`'s `to_string` writes it).
pub fn attribution_filter_start_value(epoch: i64) -> (v: String)
    ensures
        v@ == text::dec_i64(epoch),
{
    let mut v = String::new();
    text::push_dec_i64(&mut v, epoch);
    assert(v@ =~= text::dec_i64(epoch));
    v
}

proof fn lemma_dec_digits_parse(n: nat)
    ensures
        text::dec_digits(n).len() > 0,
        text::all_digits(text::dec_digits(n)),
        text::digits_value(text::dec_digits(n)) == n,
    decreases n,
{
    if n < 10 {
        let d = text::dec_digits(n);
        assert(d == seq![text::digit_char(n)]);
        assert(d.drop_last() =~= Seq::<char>::empty());
        assert((text::digit_char(n) as u32) == 48 + n);
        assert(d.last() == text::digit_char(n));
        assert(text::digits_value(d) == text::digits_value(d.drop_last()) * 10 + ((d.last() as u32) - 48) as nat);
    } else {
        lemma_dec_digits_parse(n / 10);
        let d = text::dec_digits(n);
        let q = text::dec_digits(n / 10);
        assert(d == q.push(text::digit_char(n % 10)));
        assert(d.drop_last() =~= q);
        assert((text::digit_char(n % 10) as u32) == 48 + n % 10);
        assert forall|k: int| 0 <= k < d.len() implies text::is_digit(#[trigger] d[k]) by {
            if k < q.len() {
                assert(d[k] == q[k]);
            }
        }
        assert(d.last() == text::digit_char(n % 10));
        assert(text::digits_value(d) == text::digits_value(q) * 10 + ((d.last() as u32) - 48) as nat);
        vstd::arithmetic::div_mod::lemma_fundamental_div_mod(n as int, 10);
        assert(n == (n / 10) * 10 + n % 10);
    }
}

/// Law: a positive start, stored as its decimal text, reads back as itself.
pub proof fn lemma_filter_start_reads_back(epoch: i64)
    requires
        epoch > 0,
    ensures
        filter_start_of(Some(text::dec_i64(epoch))) == epoch,
{
    let s = text::dec_i64(epoch);
    lemma_dec_digits_parse(epoch as nat);
    assert(s == text::dec_digits(epoch as nat));
    assert(text::is_digit(s[0]));
    assert(text::is_digit(s.last()));
    text::lemma_trim_plain(s);
    assert(s.skip(0) =~= s);
    assert(text::sign_len(s) == 0);
}

// ---------------------------------------------------------------------------
// Health
// ---------------------------------------------------------------------------

/// What the hook script last wrote about itself.
#[derive(Debug)]
pub struct HookHeartbeat {
    pub version: u32,
    pub last_ok_at: Option<i64>,
    pub last_event: Option<String>,
    pub write_ok: bool,
    pub last_error: Option<String>,
    pub last_error_at: Option<i64>,
}

/// An alert about the hook.
#[derive(Debug)]
pub struct HookAlert {
    pub level: String,
    pub message: String,
}

/// The message of a failed hook write: the trimmed error cut to 80
/// characters (with `...` when cut).
pub open spec fn write_failure_message(last_error: Option<Seq<char>>) -> Seq<char> {
    match last_error {
        Some(e) => {
            let t = trim(e);
            if t.len() > 80 {
                "Hook 写入失败: "@ + t.take(80) + "..."@
            } else {
                "Hook 写入失败: "@ + t
            }
        },
        None => "Hook 写入失败"@,
    }
}

/// The alert to show: the hook missing while attribution is on, else a
/// failed last write; none otherwise.
pub fn hook_alert(enabled: bool, installed: bool, heartbeat: Option<&HookHeartbeat>) -> (a: Option<HookAlert>)
    ensures
        enabled && !installed ==> (a matches Some(x) && x.level@ == "error"@ && x.message@ == "Cursor Hook 未安装"@),
        !(enabled && !installed) ==> match heartbeat {
            Some(hb) => if !hb.write_ok {
                a matches Some(x) && x.level@ == "error"@ && x.message@ == write_failure_message(
                    match hb.last_error {
                        Some(e) => Some(e@),
                        None => None,
                    },
                )
            } else {
                a is None
            },
            None => a is None,
        },
{
    if enabled && !installed {
        return Some(HookAlert { level: text::owned("error"), message: text::owned("Cursor Hook 未安装") });
    }
    match heartbeat {
        Some(hb) => {
            if !hb.write_ok {
                let msg = match &hb.last_error {
                    Some(e) => {
                        let t = text::trim_vec(&text::chars_of(e.as_str()));
                        let mut m = String::new();
                        text::push_str(&mut m, "Hook 写入失败: ");
                        if t.len() > 80 {
                            let mut short: Vec<char> = Vec::new();
                            let mut i: usize = 0;
                            while i < 80
                                invariant
                                    i <= 80 < t.len(),
                                    short@ == t@.take(i as int),
                                decreases 80 - i,
                            {
                                short.push(t[i]);
                                assert(t@.take(i + 1) =~= t@.take(i as int).push(t@[i as int]));
                                i = i + 1;
                            }
                            text::push_seq(&mut m, &short);
                            text::push_str(&mut m, "...");
                        } else {
                            text::push_seq(&mut m, &t);
                        }
                        m
                    },
                    None => text::owned("Hook 写入失败"),
                };
                Some(HookAlert { level: text::owned("error"), message: msg })
            } else {
                None
            }
        },
        None => None,
    }
}

/// The hint under the attribution switch: what is counted, how many local
/// events there are, whether the hook is installed (hooks are installed on
/// Windows only) and whether writing is paused.
pub fn attribution_hint(enabled: bool, event_count: usize, installed: bool, writing_enabled: bool, on_windows: bool) -> (h: String)
    ensures
        !enabled ==> h@ == "关闭时统计账号全量 CSV；开启后按本机 Hook 日志过滤"@,
        enabled ==> h@ == (if on_windows {
            if installed {
                "已装 Hook · "@ + text::dec_digits(event_count as nat) + " 条本机事件（分钟±5 + 模型家族）"@
            } else {
                "已启用但 Hook 未检测到 · "@ + text::dec_digits(event_count as nat) + " 条本机事件"@
            }
        } else {
            "已启用过滤 · "@ + text::dec_digits(event_count as nat) + " 条本机事件（自动装 Hook 仅 Windows）"@
        }) + (if writing_enabled { ""@ } else { "（已暂停写入，仅用已有记录）"@ }),
{
    if !enabled {
        return text::owned("关闭时统计账号全量 CSV；开启后按本机 Hook 日志过滤");
    }
    let mut h = String::new();
    if on_windows {
        if installed {
            text::push_str(&mut h, "已装 Hook · ");
            text::push_dec_u64(&mut h, event_count as u64);
            text::push_str(&mut h, " 条本机事件（分钟±5 + 模型家族）");
        } else {
            text::push_str(&mut h, "已启用但 Hook 未检测到 · ");
            text::push_dec_u64(&mut h, event_count as u64);
            text::push_str(&mut h, " 条本机事件");
        }
    } else {
        text::push_str(&mut h, "已启用过滤 · ");
        text::push_dec_u64(&mut h, event_count as u64);
        text::push_str(&mut h, " 条本机事件（自动装 Hook 仅 Windows）");
    }
    if !writing_enabled {
        text::push_str(&mut h, "（已暂停写入，仅用已有记录）");
    } else {
        proof {
            reveal_strlit("");
        }
        assert(h@ + ""@ =~= h@);
    }
    h
}

// ---------------------------------------------------------------------------
// Log rows
// ---------------------------------------------------------------------------

/// The fields of one hook log row that the logic reads; each is `Some` only
/// when the row has it as a string (or a boolean, for the flags).
#[derive(Debug)]
pub struct HookRow {
    pub ts_utc: Option<String>,
    pub ts: Option<String>,
    pub hook_event_name: Option<String>,
    pub model: Option<String>,
    pub subagent_model: Option<String>,
    pub model_id: Option<String>,
    pub parse_error: Option<bool>,
    pub empty_stdin: Option<bool>,
    /// The row has an `_empty_stdin` field, of any type.
    pub has_empty_stdin: bool,
    pub parse_msg: Option<String>,
}

/// The view of an optional string.
pub open spec fn opt_view(o: Option<String>) -> Option<Seq<char>> {
    match o {
        Some(s) => Some(s@),
        None => None,
    }
}

/// A field's trimmed text when it is not blank.
pub open spec fn filled(o: Option<String>) -> Option<Seq<char>> {
    match o {
        Some(s) => if trim(s@).len() > 0 {
            Some(trim(s@))
        } else {
            None
        },
        None => None,
    }
}

/// The model of a row: `model`, else `subagent_model`, else `model_id`
/// (the first that is not blank, trimmed); empty when none is.
pub open spec fn row_model(r: HookRow) -> Seq<char> {
    if filled(r.model) is Some {
        filled(r.model)->Some_0
    } else if filled(r.subagent_model) is Some {
        filled(r.subagent_model)->Some_0
    } else if filled(r.model_id) is Some {
        filled(r.model_id)->Some_0
    } else {
        Seq::empty()
    }
}

fn filled_exec(o: &Option<String>) -> (r: Option<Vec<char>>)
    ensures
        match filled(*o) {
            Some(t) => r matches Some(v) && v@ == t,
            None => r is None,
        },
{
    match o {
        Some(s) => {
            let t = text::trim_vec(&text::chars_of(s.as_str()));
            if t.len() > 0 {
                Some(t)
            } else {
                None
            }
        },
        None => None,
    }
}

/// The model a hook row names.
pub fn extract_model(row: &HookRow) -> (m: String)
    ensures
        m@ == row_model(*row),
{
    if let Some(v) = filled_exec(&row.model) {
        return text::string_from_chars(&v);
    }
    if let Some(v) = filled_exec(&row.subagent_model) {
        return text::string_from_chars(&v);
    }
    if let Some(v) = filled_exec(&row.model_id) {
        return text::string_from_chars(&v);
    }
    String::new()
}

/// The time of a `ts_utc` field: RFC 3339, else a `+hhmm` offset.
pub open spec fn ts_utc_secs(s: Seq<char>) -> Option<i64> {
    if dates::rfc3339_secs(s) is Some {
        dates::rfc3339_secs(s)
    } else {
        dates::offset_datetime_secs(s, "%Y-%m-%dT%H:%M:%S%z"@)
    }
}

/// The time of a legacy `ts` field: RFC 3339, else with fractional seconds
/// and an offset, else a bare local time taken at UTC+8.
pub open spec fn legacy_ts_secs(s: Seq<char>) -> Option<i64> {
    if dates::rfc3339_secs(s) is Some {
        dates::rfc3339_secs(s)
    } else if dates::offset_datetime_secs(s, "%Y-%m-%dT%H:%M:%S%.f%z"@) is Some {
        dates::offset_datetime_secs(s, "%Y-%m-%dT%H:%M:%S%.f%z"@)
    } else {
        dates::naive_at_offset_secs(s, "%Y-%m-%dT%H:%M:%S"@, 28800)
    }
}

/// The time of a row (Unix seconds): its `ts_utc` when that reads as a time,
/// else its `ts`.
pub open spec fn row_ts(r: HookRow) -> Option<i64> {
    let from_utc = match r.ts_utc {
        Some(s) => ts_utc_secs(s@),
        None => None,
    };
    if from_utc is Some {
        from_utc
    } else {
        match r.ts {
            Some(s) => legacy_ts_secs(s@),
            None => None,
        }
    }
}

/// The time of a hook row, if it has one.
pub fn parse_event_ts(row: &HookRow) -> (t: Option<i64>)
    ensures
        t == row_ts(*row),
{
    if let Some(s) = &row.ts_utc {
        if let Some(t) = dates::parse_rfc3339(s.as_str()) {
            return Some(t);
        }
        if let Some(t) = dates::parse_offset_datetime(s.as_str(), "%Y-%m-%dT%H:%M:%S%z") {
            return Some(t);
        }
    }
    if let Some(s) = &row.ts {
        if let Some(t) = dates::parse_rfc3339(s.as_str()) {
            return Some(t);
        }
        if let Some(t) = dates::parse_offset_datetime(s.as_str(), "%Y-%m-%dT%H:%M:%S%.f%z") {
            return Some(t);
        }
        return dates::parse_naive_at_offset(s.as_str(), "%Y-%m-%dT%H:%M:%S", 28800);
    }
    None
}

/// The event name of a row; empty when it has none.
pub open spec fn row_event(r: HookRow) -> Seq<char> {
    match r.hook_event_name {
        Some(n) => n@,
        None => Seq::empty(),
    }
}

/// A row yields an attribution event: its event counts, it names a model
/// and it has a time.
pub open spec fn yields_event(r: HookRow) -> bool {
    attribution_event_names().contains(row_event(r)) && row_model(r).len() > 0 && row_ts(r) is Some
}

/// `e` is the attribution event of row `r`.
pub open spec fn event_of(e: LocalHookEvent, r: HookRow) -> bool {
    &&& e.ts_epoch == row_ts(r)->Some_0
    &&& e.model@ == row_model(r)
    &&& e.family@ == model_family(row_model(r))
    &&& e.hook_event_name@ == row_event(r)
}

/// The attribution event of a row, if it yields one.
pub fn local_event_of(row: &HookRow) -> (e: Option<LocalHookEvent>)
    ensures
        yields_event(*row) <==> e is Some,
        e matches Some(ev) ==> event_of(ev, *row),
{
    let name = match &row.hook_event_name {
        Some(n) => text::owned(n.as_str()),
        None => String::new(),
    };
    if !is_attribution_event(name.as_str()) {
        return None;
    }
    let model = extract_model(row);
    if text::chars_of(model.as_str()).len() == 0 {
        return None;
    }
    let ts = match parse_event_ts(row) {
        Some(t) => t,
        None => {
            return None;
        },
    };
    let family = normalize_model_family(model.as_str());
    Some(LocalHookEvent { ts_epoch: ts, model, family, hook_event_name: name })
}

/// The attribution events of the rows that yield one, in order.
pub fn local_events_from_rows(rows: &Vec<HookRow>) -> (out: Vec<LocalHookEvent>)
    ensures
        out.len() == rows@.filter(|r: HookRow| yields_event(r)).len(),
        forall|i: int| 0 <= i < out.len() ==> event_of(#[trigger] out@[i], rows@.filter(|r: HookRow| yields_event(r))[i]),
{
    let ghost f = |r: HookRow| yields_event(r);
    let mut out: Vec<LocalHookEvent> = Vec::new();
    let mut i: usize = 0;
    while i < rows.len()
        invariant
            i <= rows.len(),
            f == (|r: HookRow| yields_event(r)),
            out.len() == rows@.take(i as int).filter(f).len(),
            forall|k: int| 0 <= k < out.len() ==> event_of(#[trigger] out@[k], rows@.take(i as int).filter(f)[k]),
        decreases rows.len() - i,
    {
        proof {
            let t = rows@.take(i + 1);
            assert(t.drop_last() =~= rows@.take(i as int));
            assert(t.last() == rows@[i as int]);
            reveal_with_fuel(Seq::<_>::filter, 1);
        }
        match local_event_of(&rows[i]) {
            Some(e) => {
                out.push(e);
            },
            None => {},
        }
        i = i + 1;
    }
    assert(rows@.take(rows.len() as int) =~= rows@);
    out
}

// ---------------------------------------------------------------------------
// Tidying the log after a backup
// ---------------------------------------------------------------------------

/// Collapsible events of one model within this many seconds of the first
/// count as one burst; only the first is kept.
pub const MERGE_COLLAPSE_SECS: i64 = 10;

/// The outcome of tidying the log.
#[derive(Debug)]
pub struct HookMergeResult {
    pub merged: bool,
    pub rows_before: usize,
    pub rows_after: usize,
    pub message: String,
}

/// The events that can be collapsed into a burst; all others anchor.
pub open spec fn collapsible_names() -> Seq<Seq<char>> {
    seq![
        "preToolUse"@,
        "postToolUse"@,
        "postToolUseFailure"@,
        "beforeReadFile"@,
        "afterFileEdit"@,
        "afterAgentThought"@,
        "beforeTabFileRead"@,
    ]
}

/// Whether events of this name can be collapsed into a burst.
pub fn is_collapsible_event(name: &str) -> (b: bool)
    ensures
        b == collapsible_names().contains(name@),
{
    let names: Vec<&'static str> = vec![
        "preToolUse",
        "postToolUse",
        "postToolUseFailure",
        "beforeReadFile",
        "afterFileEdit",
        "afterAgentThought",
        "beforeTabFileRead",
    ];
    assert(name_views(names@) =~= collapsible_names());
    let mut i: usize = 0;
    while i < names.len()
        invariant
            i <= names.len(),
            name_views(names@) == collapsible_names(),
            forall|k: int| 0 <= k < i ==> collapsible_names()[k] != name@,
        decreases names.len() - i,
    {
        assert(name_views(names@)[i as int] == names@[i as int]@);
        if text::str_eq(names[i], name) {
            assert(collapsible_names()[i as int] == name@);
            return true;
        }
        i = i + 1;
    }
    proof {
        if collapsible_names().contains(name@) {
            let k = choose|k: int| 0 <= k < collapsible_names().len() && collapsible_names()[k] == name@;
            assert(collapsible_names()[k] == name@);
        }
    }
    false
}

/// Which rows the tidy keeps, and the burst open after them (its model
/// family and first time). A row that anchors, or has no model or time,
/// is kept and closes the burst; a collapsible row of the open burst's
/// family within [`MERGE_COLLAPSE_SECS`] of its first time is dropped; any
/// other collapsible row is kept and opens a burst.
pub open spec fn collapse_run(rows: Seq<HookRow>) -> (Seq<bool>, Option<(Seq<char>, i64)>)
    decreases rows.len(),
{
    if rows.len() == 0 {
        (Seq::empty(), None)
    } else {
        let p = collapse_run(rows.drop_last());
        let r = rows.last();
        if !collapsible_names().contains(row_event(r)) || row_model(r).len() == 0 || row_ts(r) is None {
            (p.0.push(true), None)
        } else {
            let fam = model_family(row_model(r));
            let ts = row_ts(r)->Some_0;
            let skip = p.1 matches Some(st) && st.0 == fam && sat_sub(ts, st.1) <= MERGE_COLLAPSE_SECS;
            if skip {
                (p.0.push(false), p.1)
            } else {
                (p.0.push(true), Some((fam, ts)))
            }
        }
    }
}

/// For each row, whether the tidy keeps it.
pub fn collapse_keep(rows: &Vec<HookRow>) -> (keep: Vec<bool>)
    ensures
        keep@ == collapse_run(rows@).0,
{
    let mut keep: Vec<bool> = Vec::new();
    let mut state: Option<(String, i64)> = None;
    let mut i: usize = 0;
    while i < rows.len()
        invariant
            i <= rows.len(),
            keep@ == collapse_run(rows@.take(i as int)).0,
            match collapse_run(rows@.take(i as int)).1 {
                Some(st) => state matches Some(s) && s.0@ == st.0 && s.1 == st.1,
                None => state is None,
            },
        decreases rows.len() - i,
    {
        proof {
            let t = rows@.take(i + 1);
            assert(t.drop_last() =~= rows@.take(i as int));
            assert(t.last() == rows@[i as int]);
        }
        let r = &rows[i];
        let name = match &r.hook_event_name {
            Some(n) => text::owned(n.as_str()),
            None => String::new(),
        };
        let model = extract_model(r);
        let ts = parse_event_ts(r);
        if !is_collapsible_event(name.as_str()) || text::chars_of(model.as_str()).len() == 0 || ts.is_none() {
            keep.push(true);
            state = None;
        } else {
            let t = ts.unwrap();
            let fam = normalize_model_family(model.as_str());
            let skip = match &state {
                Some(st) => text::str_eq(st.0.as_str(), fam.as_str()) && crate::dedup::saturating_sub_i64(t, st.1) <= MERGE_COLLAPSE_SECS,
                None => false,
            };
            if skip {
                keep.push(false);
            } else {
                keep.push(true);
                state = Some((fam, t));
            }
        }
        i = i + 1;
    }
    assert(rows@.take(rows.len() as int) =~= rows@);
    keep
}

/// A row as the tidy writes it: the minimal fields.
#[derive(Debug)]
pub struct NormalizedRow {
    pub ts_utc: Option<String>,
    pub hook_event_name: Option<String>,
    pub model: Option<String>,
    pub model_id: Option<String>,
    pub parse_error: bool,
    pub parse_msg: Option<String>,
}

/// `n` keeps just the minimal fields of `r`: the time text (`ts_utc`, else
/// `ts`), the event, the model and a differing `model_id` (trimmed, when not
/// blank), and the parse-error flag with its message.
pub open spec fn normalized_from(n: NormalizedRow, r: HookRow) -> bool {
    let ts = match r.ts_utc {
        Some(s) => filled(Some(s)),
        None => filled(r.ts),
    };
    let model = row_model(r);
    let flagged = r.parse_error == Some(true) || r.empty_stdin == Some(true);
    &&& opt_view(n.ts_utc) == ts
    &&& opt_view(n.hook_event_name) == filled(r.hook_event_name)
    &&& opt_view(n.model) == (if model.len() > 0 { Some(model) } else { None })
    &&& opt_view(n.model_id) == (if filled(r.model_id) is Some && filled(r.model_id)->Some_0 != model { filled(r.model_id) } else { None })
    &&& n.parse_error == flagged
    &&& opt_view(n.parse_msg) == (if !flagged {
        None
    } else if r.parse_msg is Some {
        opt_view(r.parse_msg)
    } else if r.has_empty_stdin {
        Some("empty stdin"@)
    } else {
        None
    })
}

fn opt_string(v: Option<Vec<char>>) -> (r: Option<String>)
    ensures
        match v {
            Some(x) => r matches Some(s) && s@ == x@,
            None => r is None,
        },
{
    match v {
        Some(x) => Some(text::string_from_chars(&x)),
        None => None,
    }
}

/// The minimal form of a log row.
pub fn normalize_row(row: &HookRow) -> (n: NormalizedRow)
    ensures
        normalized_from(n, *row),
{
    let ts_utc = match &row.ts_utc {
        Some(_) => opt_string(filled_exec(&row.ts_utc)),
        None => opt_string(filled_exec(&row.ts)),
    };
    let hook_event_name = opt_string(filled_exec(&row.hook_event_name));
    let m = extract_model(row);
    let mv = text::chars_of(m.as_str());
    let model = if mv.len() > 0 {
        Some(text::owned(m.as_str()))
    } else {
        None
    };
    let model_id = match filled_exec(&row.model_id) {
        Some(mid) => if text::seq_eq(&mid, &mv) {
            None
        } else {
            Some(text::string_from_chars(&mid))
        },
        None => None,
    };
    let flagged = row.parse_error == Some(true) || row.empty_stdin == Some(true);
    let parse_msg = if !flagged {
        None
    } else {
        match &row.parse_msg {
            Some(m) => Some(text::owned(m.as_str())),
            None => if row.has_empty_stdin {
                Some(text::owned("empty stdin"))
            } else {
                None
            },
        }
    };
    NormalizedRow { ts_utc, hook_event_name, model, model_id, parse_error: flagged, parse_msg }
}

/// The row that stands for a log line that is not JSON.
pub fn invalid_line_row() -> (n: NormalizedRow)
    ensures
        n.ts_utc is None && n.hook_event_name is None && n.model is None && n.model_id is None,
        n.parse_error,
        n.parse_msg matches Some(m) && m@ == "invalid json line"@,
{
    NormalizedRow {
        ts_utc: None,
        hook_event_name: None,
        model: None,
        model_id: None,
        parse_error: true,
        parse_msg: Some(text::owned("invalid json line")),
    }
}

/// A written row read back: the fields that the tidy and attribution read.
pub fn normalized_as_row(n: &NormalizedRow) -> (r: HookRow)
    ensures
        opt_view(r.ts_utc) == opt_view(n.ts_utc),
        r.ts is None,
        opt_view(r.hook_event_name) == opt_view(n.hook_event_name),
        opt_view(r.model) == opt_view(n.model),
        r.subagent_model is None,
        opt_view(r.model_id) == opt_view(n.model_id),
        r.parse_error == (if n.parse_error { Some(true) } else { None }),
        r.empty_stdin is None,
        !r.has_empty_stdin,
        opt_view(r.parse_msg) == opt_view(n.parse_msg),
{
    let copy = |o: &Option<String>| -> (c: Option<String>)
        ensures
            opt_view(c) == opt_view(*o),
        {
            match o {
                Some(s) => Some(text::owned(s.as_str())),
                None => None,
            }
        };
    HookRow {
        ts_utc: copy(&n.ts_utc),
        ts: None,
        hook_event_name: copy(&n.hook_event_name),
        model: copy(&n.model),
        subagent_model: None,
        model_id: copy(&n.model_id),
        parse_error: if n.parse_error { Some(true) } else { None },
        empty_stdin: None,
        has_empty_stdin: false,
        parse_msg: copy(&n.parse_msg),
    }
}

// ---------------------------------------------------------------------------
// Reading and tidying the log text
// ---------------------------------------------------------------------------

/// `r` holds the fields of the JSON log line `line` that the code reads.
pub open spec fn hook_row_is(r: HookRow, line: Seq<char>) -> bool {
    &&& opt_view(r.ts_utc) == str_at(line, "/ts_utc"@)
    &&& opt_view(r.ts) == str_at(line, "/ts"@)
    &&& opt_view(r.hook_event_name) == str_at(line, "/hook_event_name"@)
    &&& opt_view(r.model) == str_at(line, "/model"@)
    &&& opt_view(r.subagent_model) == str_at(line, "/subagent_model"@)
    &&& opt_view(r.model_id) == str_at(line, "/model_id"@)
    &&& r.parse_error == bool_at(line, "/_parse_error"@)
    &&& r.empty_stdin == bool_at(line, "/_empty_stdin"@)
    &&& r.has_empty_stdin == !(json_at(line, "/_empty_stdin"@) is Absent)
    &&& opt_view(r.parse_msg) == str_at(line, "/_parse_msg"@)
}

/// A log line as a row: `None` when it is not JSON.
pub fn parse_hook_line(line: &str) -> (r: Option<HookRow>)
    ensures
        r is None <==> !json_parses(line@),
        r matches Some(row) ==> hook_row_is(row, line@),
{
    let doc = match parse_json(line) {
        Ok(d) => d,
        Err(_) => return None,
    };
    let has_empty_stdin = match json_value_at(&doc, "/_empty_stdin") {
        JsonField::Absent => false,
        _ => true,
    };
    Some(HookRow {
        ts_utc: doc_str(&doc, "/ts_utc"),
        ts: doc_str(&doc, "/ts"),
        hook_event_name: doc_str(&doc, "/hook_event_name"),
        model: doc_str(&doc, "/model"),
        subagent_model: doc_str(&doc, "/subagent_model"),
        model_id: doc_str(&doc, "/model_id"),
        parse_error: doc_bool(&doc, "/_parse_error"),
        empty_stdin: doc_bool(&doc, "/_empty_stdin"),
        has_empty_stdin,
        parse_msg: doc_str(&doc, "/_parse_msg"),
    })
}

/// The non-blank lines of a log, trimmed, in order.
pub open spec fn entries_of(ls: Seq<Seq<char>>) -> Seq<Seq<char>>
    decreases ls.len(),
{
    if ls.len() == 0 {
        Seq::empty()
    } else if trim(ls.last()).len() > 0 {
        entries_of(ls.drop_last()).push(trim(ls.last()))
    } else {
        entries_of(ls.drop_last())
    }
}

/// The entries of a log text: its non-blank lines, trimmed.
pub open spec fn log_entries(log: Seq<char>) -> Seq<Seq<char>> {
    entries_of(text::lines(log))
}

/// The log lines that are JSON, in order.
pub open spec fn json_entries(es: Seq<Seq<char>>) -> Seq<Seq<char>> {
    es.filter(|l: Seq<char>| json_parses(l))
}

/// The rows of a log text that attribution reads: its non-blank lines that
/// are JSON, in order.
pub fn hook_rows_of_text(log: &str) -> (rows: Vec<HookRow>)
    ensures
        rows@.len() == json_entries(log_entries(log@)).len(),
        forall|k: int| 0 <= k < rows@.len() ==> hook_row_is(#[trigger] rows@[k], json_entries(log_entries(log@))[k]),
{
    let v = text::chars_of(log);
    let ls = text::split_lines(&v);
    let ghost all = text::lines(log@);
    let ghost f = |l: Seq<char>| json_parses(l);
    let mut rows: Vec<HookRow> = Vec::new();
    let mut i: usize = 0;
    while i < ls.len()
        invariant
            i <= ls.len(),
            text::vv_view(ls@) == all,
            f == (|l: Seq<char>| json_parses(l)),
            rows@.len() == entries_of(all.take(i as int)).filter(f).len(),
            forall|k: int| 0 <= k < rows@.len() ==> hook_row_is(#[trigger] rows@[k], entries_of(all.take(i as int)).filter(f)[k]),
        decreases ls.len() - i,
    {
        let ghost before = entries_of(all.take(i as int));
        proof {
            let t = all.take(i + 1);
            assert(t.drop_last() =~= all.take(i as int));
            assert(t.last() == ls@[i as int]@);
            reveal_with_fuel(Seq::<_>::filter, 1);
        }
        let t = text::trim_vec(&ls[i]);
        if t.len() > 0 {
            let line = text::string_from_chars(&t);
            proof {
                let e = entries_of(all.take(i + 1));
                assert(e == before.push(t@));
                assert(e.drop_last() =~= before);
                assert(e.last() == t@);
            }
            match parse_hook_line(line.as_str()) {
                Some(row) => {
                    rows.push(row);
                },
                None => {},
            }
        } else {
            assert(entries_of(all.take(i + 1)) == before);
        }
        i = i + 1;
    }
    assert(all.take(ls.len() as int) =~= all);
    rows
}

/// `n` is the row that the tidy makes of log entry `line`: the normalised
/// row when it is JSON, the invalid-line row otherwise.
pub open spec fn tidy_row_is(n: NormalizedRow, line: Seq<char>) -> bool {
    if json_parses(line) {
        exists|r: HookRow| hook_row_is(r, line) && normalized_from(n, r)
    } else {
        &&& n.ts_utc is None && n.hook_event_name is None && n.model is None && n.model_id is None
        &&& n.parse_error
        &&& opt_view(n.parse_msg) == Some("invalid json line"@)
    }
}

/// `r` is what a written row reads back as (see `normalized_as_row`).
pub open spec fn read_back(r: HookRow, n: NormalizedRow) -> bool {
    &&& opt_view(r.ts_utc) == opt_view(n.ts_utc)
    &&& r.ts is None
    &&& opt_view(r.hook_event_name) == opt_view(n.hook_event_name)
    &&& opt_view(r.model) == opt_view(n.model)
    &&& r.subagent_model is None
    &&& opt_view(r.model_id) == opt_view(n.model_id)
    &&& r.parse_error == (if n.parse_error { Some(true) } else { None })
    &&& r.empty_stdin is None
    &&& !r.has_empty_stdin
    &&& opt_view(r.parse_msg) == opt_view(n.parse_msg)
}

/// A normalised row by its field values.
pub open spec fn norm_view(n: NormalizedRow) -> (Option<Seq<char>>, Option<Seq<char>>, Option<Seq<char>>, Option<Seq<char>>, bool, Option<Seq<char>>) {
    (opt_view(n.ts_utc), opt_view(n.hook_event_name), opt_view(n.model), opt_view(n.model_id), n.parse_error, opt_view(n.parse_msg))
}

/// The elements of `s` whose mask entry is set, in order.
pub open spec fn kept<T>(s: Seq<T>, mask: Seq<bool>) -> Seq<T>
    decreases s.len(),
{
    if s.len() == 0 || mask.len() != s.len() {
        Seq::empty()
    } else if mask.last() {
        kept(s.drop_last(), mask.drop_last()).push(s.last())
    } else {
        kept(s.drop_last(), mask.drop_last())
    }
}

fn copy_opt(o: &Option<String>) -> (c: Option<String>)
    ensures
        opt_view(c) == opt_view(*o),
{
    match o {
        Some(s) => Some(text::owned(s.as_str())),
        None => None,
    }
}

fn copy_normalized(n: &NormalizedRow) -> (c: NormalizedRow)
    ensures
        norm_view(c) == norm_view(*n),
{
    NormalizedRow {
        ts_utc: copy_opt(&n.ts_utc),
        hook_event_name: copy_opt(&n.hook_event_name),
        model: copy_opt(&n.model),
        model_id: copy_opt(&n.model_id),
        parse_error: n.parse_error,
        parse_msg: copy_opt(&n.parse_msg),
    }
}

/// `out` and `want` hold the same rows, field by field.
pub open spec fn same_rows(out: Seq<NormalizedRow>, want: Seq<NormalizedRow>) -> bool {
    out.len() == want.len() && forall|k: int| 0 <= k < out.len() ==> norm_view(#[trigger] out[k]) == norm_view(want[k])
}

/// Tidies the text of the hook log: every non-blank line (trimmed) becomes
/// its minimal row, or the invalid-line row when it is not JSON; the rows
/// that `collapse_run` keeps (judged on the rows as they read back) are the
/// rows to write, in order; the result counts the rows before and after.
pub fn tidy_log_text(log: &str) -> (r: (Vec<NormalizedRow>, HookMergeResult))
    ensures
        ({
            let es = log_entries(log@);
            &&& r.1.rows_before == es.len()
            &&& r.1.rows_after == r.0@.len()
            &&& r.1.merged == (es.len() > r.0@.len())
            &&& r.1.message@ == merge_message(es.len(), r.0@.len() as nat)
            &&& exists|all: Seq<NormalizedRow>, back: Seq<HookRow>| {
                &&& all.len() == es.len()
                &&& (forall|k: int| 0 <= k < es.len() ==> tidy_row_is(#[trigger] all[k], es[k]))
                &&& back.len() == all.len()
                &&& (forall|k: int| 0 <= k < all.len() ==> read_back(#[trigger] back[k], all[k]))
                &&& same_rows(r.0@, kept(all, collapse_run(back).0))
            }
        }),
{
    let v = text::chars_of(log);
    let ls = text::split_lines(&v);
    let ghost lsv = text::lines(log@);
    let mut rows: Vec<NormalizedRow> = Vec::new();
    let mut i: usize = 0;
    while i < ls.len()
        invariant
            i <= ls.len(),
            text::vv_view(ls@) == lsv,
            rows@.len() == entries_of(lsv.take(i as int)).len(),
            forall|k: int| 0 <= k < rows@.len() ==> tidy_row_is(#[trigger] rows@[k], entries_of(lsv.take(i as int))[k]),
        decreases ls.len() - i,
    {
        proof {
            let t = lsv.take(i + 1);
            assert(t.drop_last() =~= lsv.take(i as int));
            assert(t.last() == ls@[i as int]@);
        }
        let t = text::trim_vec(&ls[i]);
        if t.len() > 0 {
            let line = text::string_from_chars(&t);
            let n = match parse_hook_line(line.as_str()) {
                Some(row) => normalize_row(&row),
                None => invalid_line_row(),
            };
            rows.push(n);
        }
        i = i + 1;
    }
    assert(lsv.take(ls.len() as int) =~= lsv);
    let mut back: Vec<HookRow> = Vec::new();
    let mut j: usize = 0;
    while j < rows.len()
        invariant
            j <= rows.len(),
            back@.len() == j,
            forall|k: int| 0 <= k < j ==> read_back(#[trigger] back@[k], rows@[k]),
        decreases rows.len() - j,
    {
        back.push(normalized_as_row(&rows[j]));
        j = j + 1;
    }
    let keep = collapse_keep(&back);
    let ghost mask = collapse_run(back@).0;
    proof {
        lemma_collapse_run_len(back@);
    }
    let mut out: Vec<NormalizedRow> = Vec::new();
    let mut m: usize = 0;
    while m < rows.len()
        invariant
            m <= rows.len(),
            keep@ == mask,
            mask.len() == rows@.len(),
            same_rows(out@, kept(rows@.take(m as int), mask.take(m as int))),
        decreases rows.len() - m,
    {
        proof {
            let t = rows@.take(m + 1);
            let u = mask.take(m + 1);
            assert(t.drop_last() =~= rows@.take(m as int));
            assert(u.drop_last() =~= mask.take(m as int));
            assert(t.last() == rows@[m as int]);
            assert(u.last() == mask[m as int]);
        }
        if keep[m] {
            let c = copy_normalized(&rows[m]);
            out.push(c);
        }
        m = m + 1;
    }
    assert(rows@.take(rows.len() as int) =~= rows@);
    assert(mask.take(rows.len() as int) =~= mask);
    let result = merge_result(rows.len(), out.len());
    (out, result)
}

/// The keep mask has one entry per row.
proof fn lemma_collapse_run_len(rows: Seq<HookRow>)
    ensures
        collapse_run(rows).0.len() == rows.len(),
    decreases rows.len(),
{
    if rows.len() > 0 {
        lemma_collapse_run_len(rows.drop_last());
    }
}

/// Row `r` can join a burst of model family `fam`: a collapsible event with
/// a model of that family and a readable time.
pub open spec fn bursts_in(r: HookRow, fam: Seq<char>) -> bool {
    collapsible_names().contains(row_event(r)) && row_model(r).len() > 0 && row_ts(r) is Some && model_family(row_model(r)) == fam
}

/// The keep mask of a prefix is the prefix of the keep mask.
proof fn lemma_collapse_prefix(rows: Seq<HookRow>, n: int)
    requires
        0 <= n <= rows.len(),
    ensures
        collapse_run(rows).0.take(n) == collapse_run(rows.take(n)).0,
    decreases rows.len(),
{
    lemma_collapse_run_len(rows);
    if n == rows.len() {
        assert(rows.take(n) =~= rows);
        assert(collapse_run(rows).0.take(n) =~= collapse_run(rows).0);
    } else {
        let d = rows.drop_last();
        lemma_collapse_prefix(d, n);
        lemma_collapse_run_len(d);
        assert(d.take(n) =~= rows.take(n));
        assert(collapse_run(rows).0.take(n) =~= collapse_run(d).0.take(n));
    }
}

/// After a non-collapsible row at `i`, the open burst is never of family
/// `fam` until a row of that family joins one.
proof fn lemma_state_after_anchor(rows: Seq<HookRow>, i: int, n: int, fam: Seq<char>)
    requires
        0 <= i < n <= rows.len(),
        !collapsible_names().contains(row_event(rows[i])),
        forall|k: int| i < k < n ==> !bursts_in(#[trigger] rows[k], fam),
    ensures
        collapse_run(rows.take(n)).1 matches Some(st) ==> st.0 != fam,
    decreases n - i,
{
    let t = rows.take(n);
    assert(t.drop_last() =~= rows.take(n - 1));
    assert(t.last() == rows[n - 1]);
    if n - 1 > i {
        lemma_state_after_anchor(rows, i, n - 1, fam);
        assert(!bursts_in(rows[n - 1], fam));
    }
}

/// Law: the tidy keeps every row whose event is not collapsible, and a
/// collapsible row that follows such a row is kept unless a row of its own
/// model family joined a burst in between: a new prompt, a stop or any
/// other anchor ends the burst before it.
pub proof fn lemma_anchor_ends_burst(rows: Seq<HookRow>, i: int, j: int)
    requires
        0 <= i < j < rows.len(),
        !collapsible_names().contains(row_event(rows[i])),
        forall|k: int| i < k < j ==> !bursts_in(#[trigger] rows[k], model_family(row_model(rows[j]))),
    ensures
        collapse_run(rows).0.len() == rows.len(),
        collapse_run(rows).0[j],
{
    lemma_collapse_run_len(rows);
    let fam = model_family(row_model(rows[j]));
    lemma_state_after_anchor(rows, i, j, fam);
    lemma_anchor_kept(rows, j);
    lemma_collapse_prefix(rows, j + 1);
    let t = rows.take(j + 1);
    assert(t.drop_last() =~= rows.take(j));
    assert(t.last() == rows[j]);
    lemma_collapse_run_len(t);
    assert(collapse_run(rows).0[j] == collapse_run(rows).0.take(j + 1)[j]);
}

/// Law: a row whose event is not collapsible, or that has no model or no
/// readable time, is always kept.
pub proof fn lemma_anchor_kept(rows: Seq<HookRow>, j: int)
    requires
        0 <= j < rows.len(),
    ensures
        collapse_run(rows).0.len() == rows.len(),
        (!collapsible_names().contains(row_event(rows[j])) || row_model(rows[j]).len() == 0 || row_ts(rows[j]) is None)
            ==> collapse_run(rows).0[j],
{
    lemma_collapse_prefix(rows, j + 1);
    let t = rows.take(j + 1);
    assert(t.drop_last() =~= rows.take(j));
    assert(t.last() == rows[j]);
    lemma_collapse_run_len(t);
    lemma_collapse_run_len(rows);
    assert(collapse_run(rows).0[j] == collapse_run(rows).0.take(j + 1)[j]);
}

/// The open burst after a prefix was opened by a row of that prefix: of its
/// family and at its time.
proof fn lemma_state_origin(rows: Seq<HookRow>, n: int)
    requires
        0 <= n <= rows.len(),
    ensures
        collapse_run(rows.take(n)).1 matches Some(st) ==> exists|k: int|
            0 <= k < n && bursts_in(#[trigger] rows[k], st.0) && row_ts(rows[k]) == Some(st.1),
    decreases n,
{
    if n > 0 {
        let t = rows.take(n);
        assert(t.drop_last() =~= rows.take(n - 1));
        assert(t.last() == rows[n - 1]);
        lemma_state_origin(rows, n - 1);
        let p = collapse_run(rows.take(n - 1));
        if p.1 is Some {
            let st = p.1->Some_0;
            let k = choose|k: int| 0 <= k < n - 1 && bursts_in(#[trigger] rows[k], st.0) && row_ts(rows[k]) == Some(st.1);
            assert(bursts_in(rows[k], st.0));
        }
        if collapse_run(t).1 is Some && collapse_run(t).1 != p.1 {
            assert(bursts_in(rows[n - 1], collapse_run(t).1->Some_0.0));
        }
    }
}

/// Law: the tidy drops a row only when it joins a burst: the row is a
/// collapsible event with a model and time, and an earlier row of the same
/// model family opened a burst no more than `MERGE_COLLAPSE_SECS` seconds
/// before it.
pub proof fn lemma_dropped_row_joins_burst(rows: Seq<HookRow>, j: int)
    requires
        0 <= j < rows.len(),
        !collapse_run(rows).0[j],
    ensures
        bursts_in(rows[j], model_family(row_model(rows[j]))),
        exists|k: int| 0 <= k < j && bursts_in(#[trigger] rows[k], model_family(row_model(rows[j])))
            && sat_sub(row_ts(rows[j])->Some_0, row_ts(rows[k])->Some_0) <= MERGE_COLLAPSE_SECS,
{
    lemma_collapse_run_len(rows);
    lemma_anchor_kept(rows, j);
    lemma_collapse_prefix(rows, j + 1);
    let t = rows.take(j + 1);
    assert(t.drop_last() =~= rows.take(j));
    assert(t.last() == rows[j]);
    lemma_collapse_run_len(t);
    assert(collapse_run(rows).0[j] == collapse_run(rows).0.take(j + 1)[j]);
    lemma_state_origin(rows, j);
    let st = collapse_run(rows.take(j)).1->Some_0;
    let k = choose|k: int| 0 <= k < j && bursts_in(#[trigger] rows[k], st.0) && row_ts(rows[k]) == Some(st.1);
    assert(bursts_in(rows[k], model_family(row_model(rows[j]))));
}

/// Law: a collapsible row right after a kept row of the same model family
/// that joins bursts, and no more than `MERGE_COLLAPSE_SECS` seconds after
/// it, is dropped.
pub proof fn lemma_burst_follower_dropped(rows: Seq<HookRow>, j: int)
    requires
        0 < j < rows.len(),
        collapse_run(rows).0[j - 1],
        bursts_in(rows[j - 1], model_family(row_model(rows[j]))),
        bursts_in(rows[j], model_family(row_model(rows[j]))),
        sat_sub(row_ts(rows[j])->Some_0, row_ts(rows[j - 1])->Some_0) <= MERGE_COLLAPSE_SECS,
    ensures
        !collapse_run(rows).0[j],
{
    lemma_collapse_run_len(rows);
    lemma_collapse_prefix(rows, j + 1);
    lemma_collapse_prefix(rows, j);
    let t = rows.take(j + 1);
    let u = rows.take(j);
    assert(t.drop_last() =~= u);
    assert(t.last() == rows[j]);
    assert(u.drop_last() =~= rows.take(j - 1));
    assert(u.last() == rows[j - 1]);
    lemma_collapse_run_len(t);
    lemma_collapse_run_len(u);
    assert(collapse_run(rows).0[j] == collapse_run(rows).0.take(j + 1)[j]);
    assert(collapse_run(rows).0[j - 1] == collapse_run(rows).0.take(j)[j - 1]);
}

/// The message of a tidy that went from `before` to `after` rows.
pub open spec fn merge_message(before: nat, after: nat) -> Seq<char> {
    if before == 0 {
        "日志为空，已跳过归整"@
    } else if before > after {
        "归整完成："@ + text::dec_digits(before) + " 行 → "@ + text::dec_digits(after) + " 行（合并 "@ + text::dec_digits((before - after) as nat) + " 条）"@
    } else {
        "归整完成：无重复可合并"@
    }
}

/// The outcome of tidying a log of `rows_before` rows down to `rows_after`;
/// an empty log is skipped.
pub fn merge_result(rows_before: usize, rows_after: usize) -> (r: HookMergeResult)
    ensures
        r.merged == (rows_before > 0 && rows_before > rows_after),
        r.rows_before == rows_before,
        r.rows_after == (if rows_before == 0 { 0 } else { rows_after }),
        r.message@ == merge_message(rows_before as nat, rows_after as nat),
{
    if rows_before == 0 {
        return HookMergeResult { merged: false, rows_before: 0, rows_after: 0, message: text::owned("日志为空，已跳过归整") };
    }
    let removed: usize = if rows_before > rows_after { rows_before - rows_after } else { 0 };
    if removed > 0 {
        let mut m = String::new();
        text::push_str(&mut m, "归整完成：");
        text::push_dec_u64(&mut m, rows_before as u64);
        text::push_str(&mut m, " 行 → ");
        text::push_dec_u64(&mut m, rows_after as u64);
        text::push_str(&mut m, " 行（合并 ");
        text::push_dec_u64(&mut m, removed as u64);
        text::push_str(&mut m, " 条）");
        HookMergeResult { merged: true, rows_before, rows_after, message: m }
    } else {
        HookMergeResult { merged: false, rows_before, rows_after, message: text::owned("归整完成：无重复可合并") }
    }
}

// ---------------------------------------------------------------------------
// Backups of the log
// ---------------------------------------------------------------------------

pub const HOOK_BACKUP_PERIOD_KEY: &'static str = "cursor_hook_backup_period";

/// How many backups are kept.
pub const MAX_HOOK_BACKUPS: usize = 50;

pub const BACKUP_PREFIX: &'static str = "requests-";

pub const BACKUP_SUFFIX: &'static str = ".jsonl";

/// How often the log is backed up.
#[derive(Debug, Clone, Copy, PartialEq, Eq, Structural)]
pub enum HookBackupPeriod {
    Off,
    Daily,
}

/// The stored name of a backup period.
pub open spec fn period_name(p: HookBackupPeriod) -> Seq<char> {
    match p {
        HookBackupPeriod::Off => "off"@,
        HookBackupPeriod::Daily => "daily"@,
    }
}

/// The period a setting names after trimming and lower-casing: off for
/// `off`, `0`, `false` and `disabled`, daily otherwise.
pub open spec fn period_of(raw: Seq<char>) -> HookBackupPeriod {
    let t = text::lowercase(trim(raw));
    if t == "off"@ || t == "0"@ || t == "false"@ || t == "disabled"@ {
        HookBackupPeriod::Off
    } else {
        HookBackupPeriod::Daily
    }
}

impl HookBackupPeriod {
    pub fn as_str(self) -> (s: &'static str)
        ensures
            s@ == period_name(self),
    {
        match self {
            HookBackupPeriod::Off => "off",
            HookBackupPeriod::Daily => "daily",
        }
    }

    pub fn parse(raw: &str) -> (p: Self)
        ensures
            p == period_of(raw@),
    {
        let t = text::trim_str(raw);
        let low = text::to_lowercase(t.as_str());
        let s = low.as_str();
        if text::str_eq(s, "off") || text::str_eq(s, "0") || text::str_eq(s, "false") || text::str_eq(s, "disabled") {
            HookBackupPeriod::Off
        } else {
            HookBackupPeriod::Daily
        }
    }
}

/// The backup period in the settings; daily when none is stored.
pub fn get_hook_backup_period(stored: Option<&str>) -> (p: HookBackupPeriod)
    ensures
        p == match stored {
            Some(v) => period_of(v@),
            None => HookBackupPeriod::Daily,
        },
{
    match stored {
        Some(v) => HookBackupPeriod::parse(v),
        None => HookBackupPeriod::Daily,
    }
}

/// Law: a stored backup period reads back as itself.
pub proof fn lemma_period_round_trip(p: HookBackupPeriod)
    ensures
        period_of(period_name(p)) == p,
{
    reveal_strlit("off");
    reveal_strlit("daily");
    reveal_strlit("0");
    reveal_strlit("false");
    reveal_strlit("disabled");
    let n = period_name(p);
    text::lemma_trim_plain(n);
    assert(text::ascii_lower(n) =~= n);
    assert(text::lowercase(trim(n)) == n);
    assert("daily"@[0] != "disabled"@[1]);
    assert("daily"@ != "disabled"@) by {
        assert("daily"@.len() != "disabled"@.len());
    }
    assert("daily"@[0] != "false"@[0]);
    assert("daily"@ != "false"@);
}

/// What a backup status reports.
#[derive(Debug)]
pub struct HookBackupInfo {
    pub period: String,
    pub backup_count: i64,
    pub last_backup_at: Option<i64>,
}

/// The outcome of a backup.
#[derive(Debug)]
pub struct HookBackupResult {
    pub backed_up: bool,
    pub path: Option<String>,
    pub skipped_reason: Option<String>,
    pub message: String,
    pub merge: Option<HookMergeResult>,
}

/// The time stamp in a backup file name: between `requests-` and `.jsonl`.
pub open spec fn backup_stem(name: Seq<char>) -> Option<Seq<char>> {
    if text::starts_with(name, BACKUP_PREFIX@) && text::ends_with(name.skip(9), BACKUP_SUFFIX@) {
        Some(name.skip(9).take(name.len() - 9 - 6))
    } else {
        None
    }
}

/// A backup file is named `requests-YYYYMMDD-HHMMSS.jsonl` with a time that
/// chrono reads.
pub open spec fn is_backup_name(name: Seq<char>) -> bool {
    backup_stem(name) is Some && dates::naive_datetime_utc_secs(backup_stem(name)->Some_0, "%Y%m%d-%H%M%S"@) is Some
}

/// The time stamp of a backup file name, as `backup_stem` gives it.
fn backup_stem_of(name: &str) -> (r: Option<String>)
    ensures
        r is None <==> backup_stem(name@) is None,
        r matches Some(s) ==> backup_stem(name@) == Some(s@),
{
    proof {
        reveal_strlit("requests-");
        reveal_strlit(".jsonl");
    }
    let v = text::chars_of(name);
    let prefix = text::chars_of(BACKUP_PREFIX);
    if !text::starts_with_exec(&v, &prefix) {
        return None;
    }
    let mut rest: Vec<char> = Vec::new();
    let mut i: usize = 9;
    while i < v.len()
        invariant
            9 <= v.len(),
            9 <= i <= v.len(),
            rest@ == v@.subrange(9, i as int),
        decreases v.len() - i,
    {
        rest.push(v[i]);
        assert(v@.subrange(9, i + 1) =~= v@.subrange(9, i as int).push(v@[i as int]));
        i = i + 1;
    }
    assert(rest@ =~= v@.skip(9));
    let suffix = text::chars_of(BACKUP_SUFFIX);
    if !text::ends_with_exec(&rest, &suffix) {
        return None;
    }
    let mut stem: Vec<char> = Vec::new();
    let mut k: usize = 0;
    let n = rest.len() - 6;
    while k < n
        invariant
            n == rest.len() - 6,
            k <= n,
            stem@ == rest@.take(k as int),
        decreases n - k,
    {
        stem.push(rest[k]);
        assert(rest@.take(k + 1) =~= rest@.take(k as int).push(rest@[k as int]));
        k = k + 1;
    }
    Some(text::string_from_chars(&stem))
}

/// Whether a file name is a backup's.
pub fn is_backup_filename(name: &str) -> (b: bool)
    ensures
        b == is_backup_name(name@),
{
    match backup_stem_of(name) {
        Some(s) => dates::parse_naive_datetime_utc(s.as_str(), "%Y%m%d-%H%M%S").is_some(),
        None => false,
    }
}

/// Some name is a backup of day `yyyymmdd` (it starts with
/// `requests-<day>`).
pub open spec fn has_backup_of_day(names: Seq<String>, day: Seq<char>) -> bool {
    exists|i: int| 0 <= i < names.len() && text::starts_with((#[trigger] names[i])@, BACKUP_PREFIX@ + day) && is_backup_name(names[i]@)
}

/// Whether the directory listing `names` holds a backup of day `yyyymmdd`.
pub fn has_backup_for_day(names: &Vec<String>, yyyymmdd: &str) -> (b: bool)
    ensures
        b == has_backup_of_day(names@, yyyymmdd@),
{
    let mut prefix = String::new();
    text::push_str(&mut prefix, BACKUP_PREFIX);
    text::push_str(&mut prefix, yyyymmdd);
    let mut i: usize = 0;
    while i < names.len()
        invariant
            i <= names.len(),
            prefix@ == BACKUP_PREFIX@ + yyyymmdd@,
            forall|k: int| 0 <= k < i ==> !(text::starts_with((#[trigger] names@[k])@, BACKUP_PREFIX@ + yyyymmdd@) && is_backup_name(names@[k]@)),
        decreases names.len() - i,
    {
        if text::str_starts_with(names[i].as_str(), prefix.as_str()) && is_backup_filename(names[i].as_str()) {
            return true;
        }
        i = i + 1;
    }
    false
}

/// The names of a listing that are backups, in listing order.
pub open spec fn backup_listing(names: Seq<String>) -> Seq<String> {
    names.filter(|s: String| is_backup_name(s@))
}

/// The backup names of a directory listing, in increasing order. (A listing
/// names each file once.)
pub fn backup_names(names: &Vec<String>) -> (out: Vec<String>)
    ensures
        text::strictly_sorted(text::views(out@)),
        forall|x: Seq<char>| text::views(out@).contains(x) <==> text::views(backup_listing(names@)).contains(x),
{
    let ghost f = |s: String| is_backup_name(s@);
    let mut picked: Vec<String> = Vec::new();
    let mut i: usize = 0;
    while i < names.len()
        invariant
            i <= names.len(),
            f == (|s: String| is_backup_name(s@)),
            picked@ == names@.take(i as int).filter(f),
        decreases names.len() - i,
    {
        proof {
            let t = names@.take(i + 1);
            assert(t.drop_last() =~= names@.take(i as int));
            assert(t.last() == names@[i as int]);
            reveal_with_fuel(Seq::<_>::filter, 1);
        }
        if is_backup_filename(names[i].as_str()) {
            picked.push(names[i].clone());
        }
        i = i + 1;
    }
    assert(names@.take(names.len() as int) =~= names@);
    text::sorted_unique(&picked)
}

/// `s` is the backup list of a listing in increasing order.
pub open spec fn is_sorted_listing(s: Seq<Seq<char>>, names: Seq<String>) -> bool {
    text::strictly_sorted(s) && forall|x: Seq<char>| s.contains(x) <==> text::views(backup_listing(names)).contains(x)
}

/// The backup names of a listing in increasing order (the one strictly
/// increasing sequence of them).
pub open spec fn backup_names_spec(names: Seq<String>) -> Seq<Seq<char>> {
    choose|s: Seq<Seq<char>>| is_sorted_listing(s, names)
}

/// The sorted backup list is unique.
proof fn lemma_backup_names_unique(names: Seq<String>, s: Seq<Seq<char>>)
    requires
        is_sorted_listing(s, names),
    ensures
        backup_names_spec(names) == s,
{
    let c = backup_names_spec(names);
    assert(is_sorted_listing(c, names));
    text::lemma_strictly_sorted_unique(c, s);
}

/// The format of the time stamp in a backup file name.
pub const BACKUP_STAMP_FORMAT: &'static str = "%Y%m%d-%H%M%S";

/// The number of backups in a listing and, when there is one, the local
/// epoch second of the newest (the last in name order). The local time
/// zone decides that second: it lies within a day of the stamp read as UTC,
/// and is missing where the zone skips or repeats that local time.
pub fn backup_stats(names: &Vec<String>) -> (r: (i64, Option<i64>))
    ensures
        r.0 == backup_names_spec(names@).len() as i64,
        backup_names_spec(names@).len() == 0 ==> r.1 is None,
        r.1 matches Some(t) ==> ({
            let all = backup_names_spec(names@);
            &&& all.len() > 0
            &&& backup_stem(all.last()) matches Some(stem)
            &&& dates::naive_datetime_utc_secs(stem, BACKUP_STAMP_FORMAT@) matches Some(u)
            &&& u - 86400 <= t <= u + 86400
        }),
{
    let all = backup_names(names);
    proof {
        assert(is_sorted_listing(text::views(all@), names@));
        lemma_backup_names_unique(names@, text::views(all@));
    }
    let count = all.len() as i64;
    if all.len() == 0 {
        return (count, None);
    }
    let last = &all[all.len() - 1];
    assert(text::views(all@).last() == last@);
    let last_time = match backup_stem_of(last.as_str()) {
        Some(stem) => dates::local_epoch_of(stem.as_str(), BACKUP_STAMP_FORMAT),
        None => None,
    };
    (count, last_time)
}

/// The backups to delete so that at most `max_keep` remain: the oldest ones
/// (first in name order). None when `max_keep` is 0.
pub fn backups_to_prune(names: &Vec<String>, max_keep: usize) -> (out: Vec<String>)
    ensures
        max_keep == 0 ==> out.len() == 0,
        max_keep > 0 ==> ({
            let all = backup_names_spec(names@);
            &&& all.len() <= max_keep ==> out.len() == 0
            &&& all.len() > max_keep ==> text::views(out@) == all.take(all.len() - max_keep)
        }),
{
    if max_keep == 0 {
        return Vec::new();
    }
    let all = backup_names(names);
    proof {
        assert(is_sorted_listing(text::views(all@), names@));
        lemma_backup_names_unique(names@, text::views(all@));
    }
    if all.len() <= max_keep {
        return Vec::new();
    }
    let n = all.len() - max_keep;
    let mut out: Vec<String> = Vec::new();
    let mut i: usize = 0;
    while i < n
        invariant
            n <= all.len(),
            i <= n,
            out@ == all@.take(i as int),
        decreases n - i,
    {
        out.push(all[i].clone());
        assert(out@ =~= all@.take(i + 1));
        i = i + 1;
    }
    assert(text::views(out@) =~= text::views(all@).take(n as int));
    out
}

/// The name of the backup made at local time `stamp` (`YYYYMMDD-HHMMSS`).
pub fn backup_file_name(stamp: &str) -> (n: String)
    ensures
        n@ == BACKUP_PREFIX@ + stamp@ + BACKUP_SUFFIX@,
{
    let mut n = String::new();
    text::push_str(&mut n, BACKUP_PREFIX);
    text::push_str(&mut n, stamp);
    text::push_str(&mut n, BACKUP_SUFFIX);
    n
}

/// What a backup request does before copying anything: with no log, a
/// forced backup fails and an automatic one is skipped; an automatic backup
/// is skipped when one was already made today. `None`: go on and copy.
pub fn backup_precheck(source_exists: bool, force: bool, already_today: bool) -> (r: Result<Option<HookBackupResult>, String>)
    ensures
        !source_exists && force <==> r is Err,
        r matches Err(e) ==> e@ == "本机 Hook 日志不存在（requests.jsonl），无法备份"@,
        !source_exists && !force ==> (r matches Ok(Some(s)) && !s.backed_up && s.path is None && s.merge is None && (s.skipped_reason matches Some(x) && x@ == "source_missing"@) && s.message@ == "源文件不存在，已跳过"@),
        source_exists && !force && already_today ==> (r matches Ok(Some(s)) && !s.backed_up && s.path is None && s.merge is None && (s.skipped_reason matches Some(x) && x@ == "already_today"@) && s.message@ == "今日已备份，已跳过"@),
        source_exists && (force || !already_today) ==> r matches Ok(None),
{
    if !source_exists {
        if force {
            return Err(text::owned("本机 Hook 日志不存在（requests.jsonl），无法备份"));
        }
        return Ok(Some(HookBackupResult {
            backed_up: false,
            path: None,
            skipped_reason: Some(text::owned("source_missing")),
            message: text::owned("源文件不存在，已跳过"),
            merge: None,
        }));
    }
    if !force && already_today {
        return Ok(Some(HookBackupResult {
            backed_up: false,
            path: None,
            skipped_reason: Some(text::owned("already_today")),
            message: text::owned("今日已备份，已跳过"),
            merge: None,
        }));
    }
    Ok(None)
}

/// The outcome of a backup copied to `dest_path` (file `dest_name`), with
/// the tidy that followed it, if any: the message names the file and adds
/// the tidy's message.
pub fn backup_done(dest_name: &str, dest_path: String, merge: Option<HookMergeResult>) -> (r: HookBackupResult)
    ensures
        r.backed_up,
        r.path == Some(dest_path),
        r.skipped_reason is None,
        r.message@ == "已备份到 "@ + dest_name@ + match merge {
            Some(m) => "；"@ + m.message@,
            None => Seq::empty(),
        },
        r.merge == merge,
{
    let mut message = String::new();
    text::push_str(&mut message, "已备份到 ");
    text::push_str(&mut message, dest_name);
    match &merge {
        Some(m) => {
            text::push_str(&mut message, "；");
            text::push_str(&mut message, m.message.as_str());
        },
        None => {
            assert(message@ + Seq::<char>::empty() =~= message@);
        },
    }
    HookBackupResult { backed_up: true, path: Some(dest_path), skipped_reason: None, message, merge }
}

} // verus!
