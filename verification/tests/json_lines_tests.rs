use usage_stats::antigravity_usage::{generator_entries_of_text, trajectory_steps_of_text};
use usage_stats::data_source::{provider_kinds, DbType};
use usage_stats::status::{status_cache_path, total_record_count};
use usage_stats::codex_log::{codex_log_line, CodexLine};
use usage_stats::hooks::hook_entry_commands;
use usage_stats::json_field::JsonField;
use usage_stats::session_meta::{grok_summary_of_text, kimi_state_of_text};
use usage_stats::usage_lines::{dsh_line, kimi_line, plugin_line, DshLine, KimiLine, PluginLine};

#[test]
fn codex_lines_are_read() {
    let meta = codex_log_line(r#"{"timestamp":"2026-03-06T21:50:12Z","type":"session_meta","payload":{"id":"abc","cwd":"/p","source":{"subagent":"x"}}}"#);
    assert!(matches!(meta.timestamp, JsonField::Text(ref t) if t == "2026-03-06T21:50:12Z"));
    match meta.line {
        CodexLine::SessionMeta { subagent, id, cwd } => {
            assert!(subagent);
            assert_eq!(id.as_deref(), Some("abc"));
            assert_eq!(cwd.as_deref(), Some("/p"));
        }
        other => panic!("unexpected {:?}", other),
    }
    let plain_source = codex_log_line(r#"{"type":"session_meta","payload":{"source":"cli"}}"#);
    assert!(matches!(plain_source.line, CodexLine::SessionMeta { subagent: false, .. }));
    let user = codex_log_line(
        r#"{"type":"response_item","payload":{"type":"message","role":"user","content":[{"type":"input_text","input_text":"Hello"},{"text":"  "},{"output_text":"world"},{"other":1}]}}"#,
    );
    match user.line {
        CodexLine::UserMessage(t) => assert_eq!(t, "Hello\nworld"),
        other => panic!("unexpected {:?}", other),
    }
    let text = codex_log_line(r#"{"type":"response_item","payload":{"type":"message","role":"user","content":"hi"}}"#);
    assert!(matches!(text.line, CodexLine::UserMessage(ref t) if t == "hi"));
    let assistant = codex_log_line(r#"{"type":"response_item","payload":{"type":"message","role":"assistant","content":"x"}}"#);
    assert!(matches!(assistant.line, CodexLine::Other));
    let bad = codex_log_line("{nope");
    assert!(matches!(bad.line, CodexLine::Invalid));
    assert!(matches!(bad.timestamp, JsonField::Absent));
}

#[test]
fn dsh_plugin_and_kimi_lines_are_read() {
    match dsh_line(r#"  {"type":"assistant/message","data":{"id":"d1","message":{"id":"m1","source":{"model":"gpt"}},"usage":{"inputTokens":5,"outputTokens":7}},"time":1700000000000}  "#) {
        DshLine::Event { kind, data_id, message, usage, time } => {
            assert!(matches!(kind, JsonField::Text(ref k) if k == "assistant/message"));
            assert!(matches!(data_id, JsonField::Text(ref k) if k == "d1"));
            let m = message.unwrap();
            assert!(matches!(m.source_model, JsonField::Text(ref k) if k == "gpt"));
            assert!(matches!(m.model, JsonField::Absent));
            let u = usage.unwrap();
            assert!(matches!(u.input_tokens, JsonField::Integer(5)));
            assert!(matches!(u.cache_read_tokens, JsonField::Absent));
            assert!(matches!(time, JsonField::Integer(1_700_000_000_000)));
        }
        DshLine::Invalid => panic!("line is JSON"),
    }
    assert!(matches!(dsh_line("   "), DshLine::Invalid));
    match plugin_line(r#"{"requestId":"r","usage":{"inputTokens":1.5},"model":"m","sessionId":null}"#) {
        PluginLine::Record { request_id, usage, session_id, .. } => {
            assert!(matches!(request_id, JsonField::Text(ref k) if k == "r"));
            assert!(matches!(usage.unwrap().input_tokens, JsonField::OtherNumber));
            assert!(matches!(session_id, JsonField::Other));
        }
        PluginLine::Invalid => panic!("line is JSON"),
    }
    match kimi_line(r#"{"type":"usage.record","usage":{"inputOther":3,"output":18446744073709551615},"model":"k2"}"#) {
        KimiLine::Record { usage, model, .. } => {
            let u = usage.unwrap();
            assert!(matches!(u.input_other, JsonField::Integer(3)));
            assert!(matches!(u.output, JsonField::Unsigned(18_446_744_073_709_551_615)));
            assert!(matches!(model, JsonField::Text(ref k) if k == "k2"));
        }
        KimiLine::Invalid => panic!("line is JSON"),
    }
    assert!(matches!(kimi_line("x"), KimiLine::Invalid));
}

#[test]
fn session_files_are_read() {
    let st = kimi_state_of_text(r#"{"id":"s1","custom":{"workspacePath":"/w"},"title":"T","cwd":5}"#).unwrap();
    assert_eq!(st.id.as_deref(), Some("s1"));
    assert_eq!(st.workspace_path.as_deref(), Some("/w"));
    assert_eq!(st.title.as_deref(), Some("T"));
    assert_eq!(st.cwd, None);
    assert!(kimi_state_of_text("not json").is_none());
    let g = grok_summary_of_text(r#"{"info":{"id":"g1","cwd":"/proj"},"generated_title":"Fix it"}"#, Some("dir")).unwrap();
    assert_eq!(g, ("g1".to_string(), "Fix it".to_string(), "/proj".to_string()));
    assert!(grok_summary_of_text(r#"{"generated_title":"x"}"#, Some("dir")).is_none());
    let fallback = grok_summary_of_text(r#"{"info":{},"session_summary":"S"}"#, Some("dir")).unwrap();
    assert_eq!(fallback.0, "dir");
    assert_eq!(fallback.1, "S");
}

#[test]
fn hooks_json_commands_by_event() {
    let content = r#"{"version":1,"hooks":{"stop":[{"command":"a"},{"timeout":3},{"command":"b"}],"other":{}}}"#;
    assert_eq!(hook_entry_commands(content, "stop"), vec![Some("a".to_string()), None, Some("b".to_string())]);
    assert!(hook_entry_commands(content, "other").is_empty());
    assert!(hook_entry_commands(content, "missing").is_empty());
    assert!(hook_entry_commands("", "stop").is_empty());
    assert!(hook_entry_commands("[1]", "stop").is_empty());
}

#[test]
fn antigravity_replies_are_read() {
    let traj = r#"{"trajectory":{"steps":[{"metadata":{"createdAt":"2026-01-01T00:00:00Z","modelUsage":{"responseId":"r1"}}},{},{"metadata":{}}]}}"#;
    let steps = trajectory_steps_of_text(traj);
    assert_eq!(steps.len(), 3);
    let s0 = steps[0].as_ref().unwrap();
    assert!(matches!(s0.created_at, JsonField::Text(ref t) if t == "2026-01-01T00:00:00Z"));
    let mu = s0.model_usage.as_ref().unwrap();
    assert!(matches!(mu.response_id, JsonField::Text(ref t) if t == "r1"));
    assert!(matches!(mu.message_id, JsonField::Absent));
    assert!(steps[1].is_none());
    assert!(steps[2].as_ref().unwrap().model_usage.is_none());
    assert!(trajectory_steps_of_text("{}").is_empty());

    let meta = r#"{"generatorMetadata":[{"chatModel":{"model":"M","usage":{"inputTokens":"12","responseId":"x"},"retryInfos":[{"usage":{"outputTokens":3}},{}]}},{}]}"#;
    let entries = generator_entries_of_text(meta, &vec![(1500, 200)]);
    assert_eq!(entries.len(), 2);
    let cm = entries[0].as_ref().unwrap();
    assert!(matches!(cm.model, JsonField::Text(ref t) if t == "M"));
    assert!(matches!(cm.response_model, JsonField::Absent));
    assert_eq!(cm.streaming_ms, 1500);
    assert_eq!(cm.first_token_ms, 200);
    let u = cm.usage.as_ref().unwrap();
    assert!(matches!(u.input_tokens, JsonField::Text(ref t) if t == "12"));
    let retries = cm.retry_infos.as_ref().unwrap();
    assert_eq!(retries.len(), 2);
    assert!(matches!(retries[0].as_ref().unwrap().output_tokens, JsonField::Integer(3)));
    assert!(retries[1].is_none());
    assert!(entries[1].is_none());
    assert!(generator_entries_of_text("oops", &vec![]).is_empty());
}

#[test]
fn status_and_filter_helpers() {
    let kinds = provider_kinds(&vec![(DbType::Cursor, true), (DbType::OpenCode, false), (DbType::Cursor, true), (DbType::OpenCode, true)]);
    assert_eq!(kinds, vec![DbType::Cursor, DbType::OpenCode]);
    assert_eq!(total_record_count(&vec![3, 4, 5]), 12);
    assert_eq!(status_cache_path(Some("/a".to_string()), &vec![], Some("/root".to_string())).as_deref(), Some("/a"));
    assert_eq!(status_cache_path(None, &vec![], Some("/root".to_string())).as_deref(), Some("/root"));
}
