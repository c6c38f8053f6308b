use usage_stats::json_field::JsonField;
use usage_stats::usage_lines::{
    dsh_log_payload, dsh_new_messages, kimi_new_rows,
    parse_dsh_line, parse_kimi_line, parse_plugin_line, DshLine, DshMessageFields, KimiLine, KimiUsageFields, PluginLine,
    TokenFields,
};

fn s(v: &str) -> JsonField {
    JsonField::Text(v.to_string())
}

fn u(n: u64) -> JsonField {
    if n <= i64::MAX as u64 {
        JsonField::Integer(n as i64)
    } else {
        JsonField::Unsigned(n)
    }
}

fn tokens(i: Option<u64>, o: Option<u64>, cr: Option<u64>, cw: Option<u64>) -> TokenFields {
    let f = |x: Option<u64>| x.map(u).unwrap_or(JsonField::Absent);
    TokenFields { input_tokens: f(i), output_tokens: f(o), cache_read_tokens: f(cr), cache_write_tokens: f(cw) }
}

fn assistant_msg(id: &str, model: &str, time_ms: u64, inp: u64, out: u64, cr: u64, cw: u64) -> DshLine {
    DshLine::Event {
        kind: s("assistant/message"),
        data_id: JsonField::Absent,
        message: Some(DshMessageFields { id: s(id), source_model: s(model), model: JsonField::Absent }),
        usage: Some(tokens(Some(inp), Some(out), Some(cr), Some(cw))),
        time: u(time_ms),
    }
}

#[test]
fn test_parse_assistant_message() {
    let line = assistant_msg("m1", "deepseek-v4-flash", 1786629109285, 14175, 220, 195072, 0);
    let mut sid = None;
    let m = parse_dsh_line(&line, &mut sid).expect("message");
    assert_eq!(m.message_id, "m1");
    assert_eq!(m.model, "deepseek-v4-flash");
    assert_eq!(m.input_tokens, 14175);
    assert_eq!(m.output_tokens, 220);
    assert_eq!(m.cache_read, 195072);
    assert_eq!(m.cache_creation, 0);
    assert_eq!(m.created_at, 1786629109285 / 1000);
}

#[test]
fn test_parse_model_fallback_to_message_model() {
    let line = DshLine::Event {
        kind: s("assistant/message"),
        data_id: JsonField::Absent,
        message: Some(DshMessageFields { id: s("m2"), source_model: JsonField::Absent, model: s("fallback-model") }),
        usage: Some(tokens(Some(10), Some(0), Some(0), Some(0))),
        time: u(1000),
    };
    let m = parse_dsh_line(&line, &mut None).expect("message");
    assert_eq!(m.model, "fallback-model");
}

#[test]
fn test_parse_ignores_chunk() {
    let line = DshLine::Event { kind: s("assistant/chunk"), data_id: JsonField::Absent, message: None, usage: None, time: u(1000) };
    assert!(parse_dsh_line(&line, &mut None).is_none());
}

#[test]
fn test_parse_session_event_records_id() {
    let line = DshLine::Event { kind: s("session"), data_id: s("sess-abc"), message: None, usage: None, time: u(1000) };
    let mut sid = None;
    assert!(parse_dsh_line(&line, &mut sid).is_none());
    assert_eq!(sid.as_deref(), Some("sess-abc"));
    let msg = assistant_msg("m3", "m", 1000, 1, 0, 0, 0);
    let m = parse_dsh_line(&msg, &mut sid).expect("message");
    assert_eq!(m.session_id.as_deref(), Some("sess-abc"));
}

#[test]
fn test_parse_invalid_json_returns_none() {
    let mut sid = Some("kept".to_string());
    assert!(parse_dsh_line(&DshLine::Invalid, &mut sid).is_none());
    assert_eq!(sid.as_deref(), Some("kept"));
    let no_model = DshLine::Event {
        kind: s("assistant/message"),
        data_id: JsonField::Absent,
        message: Some(DshMessageFields { id: s("m"), source_model: JsonField::Absent, model: JsonField::Absent }),
        usage: Some(tokens(None, None, None, None)),
        time: JsonField::Absent,
    };
    let m = parse_dsh_line(&no_model, &mut None).unwrap();
    assert_eq!(m.model, "unknown");
    assert_eq!((m.input_tokens, m.created_at), (0, 0));
}

fn plugin_line(id: &str, time_ms: u64, session: &str, model: &str, inp: Option<u64>, out: Option<u64>, cr: Option<u64>, cw: Option<u64>) -> PluginLine {
    let usage = match (inp, out) {
        (Some(_), Some(_)) => Some(tokens(inp, out, cr, cw)),
        _ => None,
    };
    PluginLine::Record { request_id: s(id), usage, model: s(model), session_id: s(session), time: u(time_ms) }
}

#[test]
fn test_parse_plugin_line_full() {
    let line = plugin_line("rid-1", 1786669114335, "session-abc", "deepseek-v4-flash", Some(9779), Some(102), Some(9856), Some(10));
    let m = parse_plugin_line(&line).expect("row");
    assert_eq!(m.request_id, "rid-1");
    assert_eq!(m.session_id.as_deref(), Some("session-abc"));
    assert_eq!(m.model, "deepseek-v4-flash");
    assert_eq!(m.input_tokens, 9779);
    assert_eq!(m.output_tokens, 102);
    assert_eq!(m.cache_read, 9856);
    assert_eq!(m.cache_creation, 10);
    assert_eq!(m.created_at, 1786669114335 / 1000);
}

#[test]
fn test_parse_plugin_line_missing_buckets() {
    let line = plugin_line("rid-2", 1000, "s2", "", Some(10), Some(5), None, None);
    let m = parse_plugin_line(&line).expect("row");
    assert_eq!(m.cache_read, 0);
    assert_eq!(m.cache_creation, 0);
    assert_eq!(m.model, "unknown");
}

#[test]
fn test_parse_plugin_line_no_usage_skipped() {
    let line = plugin_line("rid-3", 1000, "s3", "m", None, None, None, None);
    assert!(parse_plugin_line(&line).is_none());
}

#[test]
fn test_parse_plugin_line_invalid() {
    assert!(parse_plugin_line(&PluginLine::Invalid).is_none());
    let no_input = PluginLine::Record {
        request_id: s("r"),
        usage: Some(tokens(None, Some(1), None, None)),
        model: s("m"),
        session_id: s("s"),
        time: u(1),
    };
    assert!(parse_plugin_line(&no_input).is_none());
    let empty_id = plugin_line("", 1, "s", "m", Some(1), Some(1), None, None);
    assert!(parse_plugin_line(&empty_id).is_none());
}

#[test]
fn plugin_counts_above_i64_wrap_as_casts_do() {
    let line = plugin_line("r", 1, "s", "  m  ", Some(u64::MAX), Some(1), None, None);
    let m = parse_plugin_line(&line).unwrap();
    assert_eq!(m.input_tokens, -1);
    assert_eq!(m.model, "m");
}

fn kimi(kind: &str, model: Option<&str>, counts: (i64, i64, i64, i64), time: i64) -> KimiLine {
    KimiLine::Record {
        kind: s(kind),
        usage: Some(KimiUsageFields {
            input_other: JsonField::Integer(counts.0),
            output: JsonField::Integer(counts.1),
            input_cache_read: JsonField::Integer(counts.2),
            input_cache_creation: JsonField::Integer(counts.3),
        }),
        model: model.map(s).unwrap_or(JsonField::Absent),
        time: JsonField::Integer(time),
    }
}

#[test]
fn test_parse_kimi_line() {
    let line = kimi("usage.record", Some("k28-agent-preview"), (7159, 371, 13056, 0), 1789482715931);
    let parsed = parse_kimi_line(&line, "sess-1", "/my/proj", "main", 1).unwrap();
    assert_eq!(parsed.session_id.unwrap(), "sess-1");
    assert_eq!(parsed.model, "k28-agent-preview");
    assert_eq!(parsed.input_tokens, 7159);
    assert_eq!(parsed.output_tokens, 371);
    assert_eq!(parsed.cache_read, 13056);
    assert_eq!(parsed.cache_creation, 0);
    assert_eq!(parsed.created_at, 1789482715);
    assert_eq!(parsed.project, "/my/proj");
    assert_eq!(parsed.request_id, "sess-1:main:1");

    let other = KimiLine::Record { kind: s("turn.prompt"), usage: None, model: JsonField::Absent, time: JsonField::Absent };
    assert!(parse_kimi_line(&other, "sess-1", "/my/proj", "main", 2).is_none());

    let zero = kimi("usage.record", Some("kimi"), (0, 0, 0, 0), 1789482715931);
    assert!(parse_kimi_line(&zero, "sess-1", "/my/proj", "main", 3).is_none());
}

#[test]
fn kimi_defaults_model_and_keeps_second_times() {
    let line = kimi("usage.record", None, (1, 0, 0, 0), 1789482715);
    let row = parse_kimi_line(&line, "s", "", "sub", -4).unwrap();
    assert_eq!(row.model, "kimi");
    assert_eq!(row.created_at, 1789482715);
    assert_eq!(row.request_id, "s:sub:-4");
    assert!(parse_kimi_line(&KimiLine::Invalid, "s", "", "a", 1).is_none());
}

#[test]
fn dsh_new_messages_resume_after_offset_and_skip_unbilled() {
    let session = DshLine::Event { kind: s("session"), data_id: s("sess-1"), message: None, usage: None, time: u(0) };
    let lines = vec![
        session,
        assistant_msg("m1", "a", 1000, 1, 0, 0, 0),
        assistant_msg("m0", "a", 2000, 0, 0, 0, 0),
        assistant_msg("m2", "a", 3000, 0, 5, 0, 0),
    ];
    let (all, off) = dsh_new_messages(&lines, 0);
    assert_eq!(off, 4);
    assert_eq!(all.iter().map(|m| m.message_id.as_str()).collect::<Vec<_>>(), vec!["m1", "m2"]);
    assert_eq!(all[0].session_id.as_deref(), Some("sess-1"));
    let (later, off) = dsh_new_messages(&lines, 2);
    assert_eq!(off, 4);
    assert_eq!(later.len(), 1);
    assert_eq!(later[0].message_id, "m2");
    assert_eq!(later[0].session_id, None);
    assert!(dsh_new_messages(&lines, 9).0.is_empty());
}

#[test]
fn kimi_new_rows_number_lines_from_one() {
    let lines = vec![
        kimi("usage.record", Some("k"), (1, 0, 0, 0), 5),
        KimiLine::Invalid,
        kimi("usage.record", Some("k"), (0, 2, 0, 0), 6),
    ];
    let (rows, off) = kimi_new_rows(&lines, -3, "s", "/p", "main");
    assert_eq!(off, 3);
    assert_eq!(rows.iter().map(|r| r.request_id.as_str()).collect::<Vec<_>>(), vec!["s:main:1", "s:main:3"]);
    let (rows, _) = kimi_new_rows(&lines, 1, "s", "/p", "main");
    assert_eq!(rows.len(), 1);
    assert_eq!(rows[0].output_tokens, 2);
}

#[test]
fn dsh_logs_are_decoded_by_their_magic() {
    let plain = b"{\"type\":\"session\"}\n".to_vec();
    assert_eq!(dsh_log_payload(&plain).unwrap(), plain);
    let packed = zstd::encode_all(&plain[..], 0).unwrap();
    assert_eq!(&packed[0..4], &[0x28, 0xb5, 0x2f, 0xfd]);
    assert_eq!(dsh_log_payload(&packed).unwrap(), plain);
    let broken = vec![0x28, 0xb5, 0x2f, 0xfd, 0, 1, 2];
    assert!(dsh_log_payload(&broken).unwrap_err().starts_with("zstd 解压失败: "));
    assert_eq!(dsh_log_payload(&[0x28, 0xb5]).unwrap(), vec![0x28, 0xb5]);
}

#[test]
fn test_read_dsh_session_log_zstd_and_plain() {
    let original = "line1\nline2\n";
    let compressed = zstd::encode_all(original.as_bytes(), 3).unwrap();
    assert_eq!(String::from_utf8(dsh_log_payload(&compressed).unwrap()).unwrap(), original);
    assert_eq!(String::from_utf8(dsh_log_payload(original.as_bytes()).unwrap()).unwrap(), original);
}
