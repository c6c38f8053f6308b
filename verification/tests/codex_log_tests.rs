use usage_stats::json_field::JsonField;
use usage_stats::codex_log::{codex_time_range, parse_codex_session, parse_ts_to_epoch, scan_codex_log, CodexLine, CodexLogLine};

fn meta(id: &str, cwd: &str) -> CodexLine {
    CodexLine::SessionMeta { subagent: false, id: Some(id.to_string()), cwd: Some(cwd.to_string()) }
}

fn user(text: &str) -> CodexLine {
    CodexLine::UserMessage(text.to_string())
}

fn session_lines(id: &str, cwd: &str, message: &str) -> Vec<CodexLine> {
    vec![meta(id, cwd), user(message)]
}

#[test]
fn test_parse_codex_session_extracts_metadata() {
    let (sid, title, project) = parse_codex_session(&session_lines("test-id-123", "/tmp/my-project", "Fix the bug"), "test-session.jsonl").unwrap();
    assert_eq!(sid, "test-id-123");
    assert_eq!(title, "Fix the bug");
    assert_eq!(project, "/tmp/my-project");
}

#[test]
fn test_parse_codex_session_skips_agents_md() {
    let lines = vec![meta("sid", "/p"), user("# AGENTS.md instructions"), user("Real message")];
    let (_, title, _) = parse_codex_session(&lines, "session.jsonl").unwrap();
    assert_eq!(title, "Real message");
}

#[test]
fn test_parse_codex_session_skips_subagent() {
    let lines = vec![CodexLine::SessionMeta { subagent: true, id: Some("sid".to_string()), cwd: Some("/p".to_string()) }];
    assert!(parse_codex_session(&lines, "session.jsonl").is_none());
}

#[test]
fn test_parse_codex_session_falls_back_to_basename() {
    let lines = vec![meta("sid", "/tmp/my-project")];
    let (_, title, _) = parse_codex_session(&lines, "session.jsonl").unwrap();
    assert_eq!(title, "my-project");
}

#[test]
fn test_scan_codex_sessions_by_parse() {
    let lines = session_lines("019cc369-bd7c-7891-b371-7b20b4fe0b18", "/p1", "First");
    let (sid1, _, _) = parse_codex_session(&lines, "a-019cc369-bd7c-7891-b371-7b20b4fe0b18.jsonl").unwrap();
    assert_eq!(sid1, "019cc369-bd7c-7891-b371-7b20b4fe0b18");
}

#[test]
fn parse_codex_session_takes_id_from_file_name_and_stops_on_bad_head_line() {
    let lines = vec![CodexLine::SessionMeta { subagent: false, id: None, cwd: None }, user("hi")];
    let (sid, title, project) = parse_codex_session(&lines, "rollout-2026-03-06T21-50-12-019cc369-bd7c-7891-b371-7b20b4fe0b18.jsonl").unwrap();
    assert_eq!(sid, "019cc369-bd7c-7891-b371-7b20b4fe0b18");
    assert_eq!(title, "hi");
    assert_eq!(project, "");
    assert!(parse_codex_session(&lines, "no-id.jsonl").is_none());
    let bad = vec![meta("sid", "/p"), CodexLine::Invalid];
    assert!(parse_codex_session(&bad, "x.jsonl").is_none());
    let done_first = vec![meta("sid", "/p"), user("msg"), CodexLine::Invalid];
    assert!(parse_codex_session(&done_first, "x.jsonl").is_some());
}

#[test]
fn scan_codex_log_collects_times_and_skips_bad_lines() {
    let lines = vec![
        CodexLogLine { timestamp: JsonField::Text("1970-01-01T00:16:40Z".to_string()), line: meta("aaa-bbb-ccc", "/p") },
        CodexLogLine { timestamp: JsonField::Absent, line: CodexLine::Invalid },
        CodexLogLine { timestamp: JsonField::Text("1970-01-01T00:33:20Z".to_string()), line: user("hi") },
        CodexLogLine { timestamp: JsonField::Integer(1_700_000_000_123), line: CodexLine::Other },
    ];
    let (title, project, times) = scan_codex_log(&lines, "aaa-bbb-ccc.jsonl").unwrap();
    assert_eq!(title, "hi");
    assert_eq!(project, "/p");
    assert_eq!(times, vec![1000, 2000, 1_700_000_000]);
    let sub = vec![CodexLogLine { timestamp: JsonField::Integer(5), line: CodexLine::SessionMeta { subagent: true, id: None, cwd: None } }];
    assert!(scan_codex_log(&sub, "aaa.jsonl").is_none());
}

#[test]
fn timestamps_read_seconds_milliseconds_and_rfc3339() {
    assert_eq!(parse_ts_to_epoch(&JsonField::Integer(1000)), Some(1000));
    assert_eq!(parse_ts_to_epoch(&JsonField::Integer(1_000_000_000_001)), Some(1_000_000_000));
    assert_eq!(parse_ts_to_epoch(&JsonField::Text("1970-01-01T00:00:10+00:00".to_string())), Some(10));
    assert_eq!(parse_ts_to_epoch(&JsonField::Other), None);
}

#[test]
fn codex_time_range_spans_events_of_a_named_session() {
    let at = |t: i64, line: CodexLine| CodexLogLine { timestamp: JsonField::Integer(t), line };
    let lines = vec![
        at(1000, CodexLine::SessionMeta { subagent: false, id: None, cwd: None }),
        CodexLogLine { timestamp: JsonField::Absent, line: CodexLine::Invalid },
        at(1500, user("hi")),
        at(2000, CodexLine::Other),
    ];
    assert_eq!(
        codex_time_range(&lines, "rollout-019cc369-bd7c-7891-b371-7b20b4fe0b18.jsonl"),
        Some(("019cc369-bd7c-7891-b371-7b20b4fe0b18".to_string(), 1000, 2000))
    );
    assert_eq!(codex_time_range(&lines, "no-id.jsonl"), None);
    let sub = vec![at(5, CodexLine::SessionMeta { subagent: true, id: Some("x".to_string()), cwd: None })];
    assert_eq!(codex_time_range(&sub, "a.jsonl"), None);
    let no_time = vec![CodexLogLine { timestamp: JsonField::Absent, line: meta("sid", "/p") }];
    assert_eq!(codex_time_range(&no_time, "a.jsonl"), None);
}
