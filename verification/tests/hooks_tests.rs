use usage_stats::hooks::{
    foreign_hook_entries, attribution_filter_start_value, hook_rows_of_text, parse_hook_line, tidy_log_text, attribution_setting_value, backup_stats,
    attribution_hint, attribution_hook_events, backup_done, backup_file_name, backup_names,
    backup_precheck, backups_to_prune, check_attribution_filter_start, collapse_keep, extract_model,
    get_attribution_filter_start, get_hook_backup_period, has_backup_for_day, hook_alert,
    hook_command_for, hook_events, is_attribution_enabled, is_attribution_event, is_backup_filename,
    is_collapsible_event, is_our_hook_command, local_event_of, local_events_from_rows, merge_result,
    normalize_row, normalized_as_row, parse_event_ts, HookBackupPeriod, HookHeartbeat, HookRow,
};

fn row(ts_utc: Option<&str>, event: Option<&str>, model: Option<&str>) -> HookRow {
    HookRow {
        ts_utc: ts_utc.map(|s| s.to_string()),
        ts: None,
        hook_event_name: event.map(|s| s.to_string()),
        model: model.map(|s| s.to_string()),
        subagent_model: None,
        model_id: None,
        parse_error: None,
        empty_stdin: None,
        has_empty_stdin: false,
        parse_msg: None,
    }
}

#[test]
fn test_parse_period() {
    assert_eq!(HookBackupPeriod::parse("off"), HookBackupPeriod::Off);
    assert_eq!(HookBackupPeriod::parse("daily"), HookBackupPeriod::Daily);
    assert_eq!(HookBackupPeriod::parse(""), HookBackupPeriod::Daily);
    assert_eq!(HookBackupPeriod::parse("weird"), HookBackupPeriod::Daily);
}

#[test]
fn test_hook_events_cover_subagent_and_compact() {
    let hook = hook_events();
    let attr = attribution_hook_events();
    assert!(hook.contains(&"subagentStart"));
    assert!(hook.contains(&"subagentStop"));
    assert!(hook.contains(&"preCompact"));
    assert!(hook.contains(&"afterAgentThought"));
    assert!(hook.contains(&"sessionStart"));
    assert!(hook.contains(&"preToolUse"));
    assert!(hook.contains(&"postToolUse"));
    assert!(attr.contains(&"subagentStart"));
    assert!(attr.contains(&"postToolUse"));
}

#[test]
fn test_extract_model_prefers_model_then_subagent() {
    let mut with_both = row(None, None, Some("cursor-grok-4.5-high"));
    with_both.subagent_model = Some("composer-2.5".to_string());
    assert_eq!(extract_model(&with_both), "cursor-grok-4.5-high");

    let mut sub_only = row(None, None, None);
    sub_only.subagent_model = Some("composer-2.5".to_string());
    assert_eq!(extract_model(&sub_only), "composer-2.5");

    let empty = row(None, Some("stop"), None);
    assert!(extract_model(&empty).is_empty());
}

#[test]
fn test_load_local_events_filters() {
    let mut sub = row(Some("2026-07-13T06:00:03+00:00"), Some("subagentStart"), None);
    sub.subagent_model = Some("composer-2.5".to_string());
    let rows = vec![
        row(Some("2026-07-13T06:00:00+00:00"), Some("beforeSubmitPrompt"), Some("cursor-grok-4.5-high")),
        row(Some("2026-07-13T06:00:01+00:00"), Some("afterAgentResponse"), Some("cursor-grok-4.5-high")),
        row(Some("2026-07-13T06:00:02+00:00"), Some("stop"), None),
        sub,
        row(Some("2026-07-13T06:00:04+00:00"), Some("sessionEnd"), None),
    ];
    let events = local_events_from_rows(&rows);
    assert_eq!(events.len(), 3);
    assert_eq!(events[0].family, "grok-4.5");
    assert_eq!(events[1].hook_event_name, "afterAgentResponse");
    assert_eq!(events[2].family, "composer-2.5");
    assert_eq!(events[2].hook_event_name, "subagentStart");
}

#[test]
fn test_load_local_events_includes_tool_hooks() {
    let rows = vec![row(Some("2026-07-13T06:00:05+00:00"), Some("postToolUse"), Some("cursor-grok-4.5-high"))];
    let events = local_events_from_rows(&rows);
    assert_eq!(events.len(), 1);
    assert_eq!(events[0].hook_event_name, "postToolUse");
    assert_eq!(events[0].family, "grok-4.5");
}

#[test]
fn test_normalize_strips_extra_fields() {
    let r = row(Some("2026-07-22T03:00:00+00:00"), Some("postToolUse"), Some("composer-2.5"));
    let n = normalize_row(&r);
    assert_eq!(n.model.as_deref(), Some("composer-2.5"));
    assert_eq!(n.ts_utc.as_deref(), Some("2026-07-22T03:00:00+00:00"));
    assert_eq!(n.hook_event_name.as_deref(), Some("postToolUse"));
    assert!(n.model_id.is_none());
    assert!(!n.parse_error);
}

fn merge_rows(lines: &[(&str, &str, &str)]) -> Vec<HookRow> {
    lines.iter().map(|(ts, ev, m)| normalized_as_row(&normalize_row(&row(Some(ts), Some(ev), Some(m))))).collect()
}

#[test]
fn test_merge_collapses_tool_burst_same_model() {
    let content = r#"{"ts_utc":"2026-07-22T03:44:04+00:00","hook_event_name":"preToolUse","model":"composer-2.5"}
{"ts_utc":"2026-07-22T03:44:04+00:00","hook_event_name":"preToolUse","model":"composer-2.5"}
{"ts_utc":"2026-07-22T03:44:06+00:00","hook_event_name":"postToolUse","model":"composer-2.5"}
{"ts_utc":"2026-07-22T03:44:46+00:00","hook_event_name":"stop","model":"composer-2.5"}
"#;
    let (rows, r) = tidy_log_text(content);
    assert!(r.merged);
    assert_eq!(r.rows_before, 4);
    assert_eq!(r.rows_after, 2);
    assert_eq!(rows.len(), 2);
    assert_eq!(rows[0].hook_event_name.as_deref(), Some("preToolUse"));
    assert_eq!(rows[1].hook_event_name.as_deref(), Some("stop"));
    assert_eq!(r.message, "归整完成：4 行 → 2 行（合并 2 条）");
    let keep = collapse_keep(&merge_rows(&[
        ("2026-07-22T03:44:04+00:00", "preToolUse", "composer-2.5"),
        ("2026-07-22T03:44:04+00:00", "preToolUse", "composer-2.5"),
        ("2026-07-22T03:44:06+00:00", "postToolUse", "composer-2.5"),
        ("2026-07-22T03:44:46+00:00", "stop", "composer-2.5"),
    ]));
    assert_eq!(keep, vec![true, false, false, true]);
    assert_eq!(merge_result(4, 2).message, r.message);
}

#[test]
fn test_merge_does_not_cross_models() {
    let content = r#"{"ts_utc":"2026-07-22T03:00:00+00:00","hook_event_name":"preToolUse","model":"composer-2.5"}
{"ts_utc":"2026-07-22T03:00:01+00:00","hook_event_name":"preToolUse","model":"cursor-grok-4.5-high"}
"#;
    let (rows, r) = tidy_log_text(content);
    assert_eq!(r.rows_after, 2);
    assert_eq!(rows.len(), 2);
}

#[test]
fn tidy_keeps_bad_lines_and_skips_blank_ones() {
    let content = "  \n{\"ts\":\" 2026-07-22T03:00:00+08:00 \",\"hook_event_name\":\"stop\",\"subagent_model\":\"gpt-5\",\"model_id\":\"x\"}\r\nnot json\n\n";
    let (rows, r) = tidy_log_text(content);
    assert_eq!(r.rows_before, 2);
    assert_eq!(r.rows_after, 2);
    assert!(!r.merged);
    assert_eq!(rows[0].ts_utc.as_deref(), Some("2026-07-22T03:00:00+08:00"));
    assert_eq!(rows[0].model.as_deref(), Some("gpt-5"));
    assert_eq!(rows[0].model_id.as_deref(), Some("x"));
    assert!(!rows[0].parse_error);
    assert!(rows[1].parse_error);
    assert_eq!(rows[1].parse_msg.as_deref(), Some("invalid json line"));
    let (none, empty) = tidy_log_text("\n   \n");
    assert!(none.is_empty());
    assert_eq!(empty.rows_before, 0);
    assert_eq!(empty.message, "日志为空，已跳过归整");
}

#[test]
fn log_lines_as_rows() {
    let row = parse_hook_line(r#"{"ts_utc":"t","_parse_error":true,"_empty_stdin":0,"_parse_msg":"m"}"#).unwrap();
    assert_eq!(row.ts_utc.as_deref(), Some("t"));
    assert_eq!(row.parse_error, Some(true));
    assert_eq!(row.empty_stdin, None);
    assert!(row.has_empty_stdin);
    assert_eq!(row.parse_msg.as_deref(), Some("m"));
    assert!(parse_hook_line("{oops").is_none());
    let rows = hook_rows_of_text("{\"model\":\"a\"}\nbad\n\n[1]\n");
    assert_eq!(rows.len(), 2);
    assert_eq!(rows[0].model.as_deref(), Some("a"));
    assert_eq!(rows[1].model, None);
}

#[test]
fn burst_window_is_ten_seconds_from_its_first_row() {
    let rows = merge_rows(&[
        ("2026-07-22T03:00:00+00:00", "preToolUse", "m"),
        ("2026-07-22T03:00:10+00:00", "postToolUse", "m"),
        ("2026-07-22T03:00:11+00:00", "postToolUse", "m"),
        ("2026-07-22T03:00:12+00:00", "postToolUse", "m"),
    ]);
    assert_eq!(collapse_keep(&rows), vec![true, false, true, false]);
}

#[test]
fn merge_result_messages() {
    let empty = merge_result(0, 0);
    assert!(!empty.merged);
    assert_eq!(empty.message, "日志为空，已跳过归整");
    let same = merge_result(3, 3);
    assert!(!same.merged);
    assert_eq!(same.message, "归整完成：无重复可合并");
}

#[test]
fn event_times_from_either_field() {
    let utc = row(Some("2026-07-13T06:00:00+00:00"), None, None);
    assert_eq!(parse_event_ts(&utc), Some(1783922400));
    let mut legacy = row(None, None, None);
    legacy.ts = Some("2026-07-13T14:00:00".to_string());
    assert_eq!(parse_event_ts(&legacy), Some(1783922400));
    let mut compact = row(Some("2026-07-13T14:00:00+0800"), None, None);
    assert_eq!(parse_event_ts(&compact), Some(1783922400));
    compact.ts_utc = Some("garbage".to_string());
    assert_eq!(parse_event_ts(&compact), None);
}

#[test]
fn attribution_events_need_model_and_time() {
    assert!(is_attribution_event("stop"));
    assert!(!is_attribution_event("sessionEnd"));
    assert!(local_event_of(&row(None, Some("stop"), Some("m"))).is_none());
    assert!(local_event_of(&row(Some("2026-07-13T06:00:00Z"), Some("stop"), Some("  "))).is_none());
    let e = local_event_of(&row(Some("2026-07-13T06:00:00Z"), Some("stop"), Some(" Cursor-Grok-4.5-High "))).unwrap();
    assert_eq!(e.model, "Cursor-Grok-4.5-High");
    assert_eq!(e.family, "grok-4.5");
    assert!(is_collapsible_event("afterFileEdit"));
    assert!(!is_collapsible_event("stop"));
}

#[test]
fn our_hook_command_by_marker() {
    assert!(is_our_hook_command("C:/Users/x/.cursor/local-usage/run_log.ps1"));
    assert!(is_our_hook_command("C:\\Users\\x\\.cursor\\local-usage\\run_log.ps1"));
    assert!(!is_our_hook_command("C:/other/tool.exe"));
    assert_eq!(
        hook_command_for("C:\\u\\local-usage\\run_log.ps1"),
        "C:/WINDOWS/System32/WindowsPowerShell/v1.0/powershell.exe -NoProfile -ExecutionPolicy Bypass -File C:/u/local-usage/run_log.ps1"
    );
}

#[test]
fn settings_read_back() {
    assert!(is_attribution_enabled(Some("1")));
    assert!(!is_attribution_enabled(Some("0")));
    assert!(!is_attribution_enabled(None));
    assert_eq!(get_attribution_filter_start(Some(" 1700000000 ")), 1_700_000_000);
    assert_eq!(get_attribution_filter_start(Some("-5")), 1_783_927_800);
    assert_eq!(get_attribution_filter_start(Some("x")), 1_783_927_800);
    assert_eq!(get_attribution_filter_start(None), 1_783_927_800);
    assert_eq!(check_attribution_filter_start(0).unwrap_err(), "归因起始时间无效");
    assert_eq!(check_attribution_filter_start(5).unwrap(), 5);
    assert_eq!(get_hook_backup_period(Some(" OFF ")), HookBackupPeriod::Off);
    assert_eq!(get_hook_backup_period(Some("Disabled")), HookBackupPeriod::Off);
    assert_eq!(get_hook_backup_period(None), HookBackupPeriod::Daily);
    for p in [HookBackupPeriod::Off, HookBackupPeriod::Daily] {
        assert_eq!(HookBackupPeriod::parse(p.as_str()), p);
    }
}

#[test]
fn alerts_for_missing_hook_and_failed_writes() {
    let a = hook_alert(true, false, None).unwrap();
    assert_eq!(a.level, "error");
    assert_eq!(a.message, "Cursor Hook 未安装");
    assert!(hook_alert(false, false, None).is_none());
    let long = "x".repeat(81);
    let hb = HookHeartbeat { version: 1, last_ok_at: None, last_event: None, write_ok: false, last_error: Some(format!("  {}  ", long)), last_error_at: None };
    let a = hook_alert(true, true, Some(&hb)).unwrap();
    assert_eq!(a.message, format!("Hook 写入失败: {}...", "x".repeat(80)));
    let ok = HookHeartbeat { version: 1, last_ok_at: Some(1), last_event: None, write_ok: true, last_error: None, last_error_at: None };
    assert!(hook_alert(true, true, Some(&ok)).is_none());
    let bare = HookHeartbeat { version: 1, last_ok_at: None, last_event: None, write_ok: false, last_error: None, last_error_at: None };
    assert_eq!(hook_alert(false, true, Some(&bare)).unwrap().message, "Hook 写入失败");
}

#[test]
fn hint_texts() {
    assert_eq!(attribution_hint(false, 3, true, true, true), "关闭时统计账号全量 CSV；开启后按本机 Hook 日志过滤");
    assert_eq!(attribution_hint(true, 3, true, true, true), "已装 Hook · 3 条本机事件（分钟±5 + 模型家族）");
    assert_eq!(attribution_hint(true, 0, false, false, true), "已启用但 Hook 未检测到 · 0 条本机事件（已暂停写入，仅用已有记录）");
    assert_eq!(attribution_hint(true, 12, true, true, false), "已启用过滤 · 12 条本机事件（自动装 Hook 仅 Windows）");
}

#[test]
fn backup_names_and_pruning() {
    assert!(is_backup_filename("requests-20260715-143045.jsonl"));
    assert!(!is_backup_filename("requests-20261315-143045.jsonl"));
    assert!(!is_backup_filename("noise.txt"));
    assert_eq!(backup_file_name("20260715-143045"), "requests-20260715-143045.jsonl");
    let names: Vec<String> = (1..=5).map(|i| format!("requests-2026071{}-120000.jsonl", i)).chain(["noise.txt".to_string()]).collect();
    let sorted = backup_names(&names);
    assert_eq!(sorted.len(), 5);
    let gone = backups_to_prune(&names, 3);
    assert_eq!(gone, vec!["requests-20260711-120000.jsonl", "requests-20260712-120000.jsonl"]);
    assert!(backups_to_prune(&names, 0).is_empty());
    assert!(backups_to_prune(&names, 5).is_empty());
    assert!(has_backup_for_day(&names, "20260715"));
    assert!(!has_backup_for_day(&names, "20260716"));
}

#[test]
fn backup_policy_outcomes() {
    assert_eq!(backup_precheck(false, true, false).unwrap_err(), "本机 Hook 日志不存在（requests.jsonl），无法备份");
    let soft = backup_precheck(false, false, false).unwrap().unwrap();
    assert!(!soft.backed_up);
    assert_eq!(soft.skipped_reason.as_deref(), Some("source_missing"));
    let today = backup_precheck(true, false, true).unwrap().unwrap();
    assert_eq!(today.skipped_reason.as_deref(), Some("already_today"));
    assert!(backup_precheck(true, true, true).unwrap().is_none());
    let done = backup_done("requests-1.jsonl", "/b/requests-1.jsonl".to_string(), Some(merge_result(2, 1)));
    assert!(done.backed_up);
    assert_eq!(done.message, "已备份到 requests-1.jsonl；归整完成：2 行 → 1 行（合并 1 条）");
    let plain = backup_done("r.jsonl", "/b/r.jsonl".to_string(), None);
    assert_eq!(plain.message, "已备份到 r.jsonl");
}

#[test]
fn foreign_hook_entries_drop_only_ours() {
    let commands = vec![
        Some(r"C:\Users\x\.app\local-usage\run_log.ps1".to_string()),
        None,
        Some("other.exe --flag".to_string()),
        Some("C:/x/local-usage/run_log.ps1 -x".to_string()),
    ];
    assert_eq!(foreign_hook_entries(&commands), vec![1, 2]);
    assert!(foreign_hook_entries(&vec![]).is_empty());
}

#[test]
fn stored_settings_read_back() {
    assert!(is_attribution_enabled(Some(attribution_setting_value(true))));
    assert!(!is_attribution_enabled(Some(attribution_setting_value(false))));
    let v = attribution_filter_start_value(1_783_000_000);
    assert_eq!(v, "1783000000");
    assert_eq!(get_attribution_filter_start(Some(&v)), 1_783_000_000);
    assert_eq!(attribution_filter_start_value(-7), "-7");
}

#[test]
fn backup_stats_count_and_newest() {
    let names: Vec<String> = vec![
        "requests-20260711-120000.jsonl".to_string(),
        "noise.txt".to_string(),
        "requests-20260715-143045.jsonl".to_string(),
        "requests-20261315-143045.jsonl".to_string(),
    ];
    let (count, newest) = backup_stats(&names);
    assert_eq!(count, 2);
    let utc = 1_784_125_845; // 2026-07-15 14:30:45 UTC
    let t = newest.unwrap();
    assert!((t - utc).abs() <= 86_400);
    assert_eq!(backup_stats(&vec!["noise.txt".to_string()]), (0, None));
}

#[test]
fn test_list_backup_stats_from_filename() {
    let names = vec!["requests-20260715-143045.jsonl".to_string(), "noise.txt".to_string()];
    let (count, last) = backup_stats(&names);
    assert_eq!(count, 1);
    let expected = chrono::TimeZone::with_ymd_and_hms(&chrono::Local, 2026, 7, 15, 14, 30, 45).single().unwrap().timestamp();
    assert_eq!(last, Some(expected));
}

#[test]
fn test_has_backup_for_day() {
    let mut names: Vec<String> = Vec::new();
    assert!(!has_backup_for_day(&names, "20260715"));
    names.push("requests-20260715-010203.jsonl".to_string());
    assert!(has_backup_for_day(&names, "20260715"));
    assert!(!has_backup_for_day(&names, "20260716"));
}

#[test]
fn test_prune_keeps_newest() {
    let names: Vec<String> = (1..=5).map(|i| format!("requests-2026071{}-120000.jsonl", i)).collect();
    let removed = backups_to_prune(&names, 3);
    assert_eq!(removed.len(), 2);
    let left: Vec<String> = backup_names(&names).into_iter().filter(|n| !removed.contains(n)).collect();
    assert_eq!(left.len(), 3);
    assert_eq!(left[0], "requests-20260713-120000.jsonl");
    assert_eq!(left[2], "requests-20260715-120000.jsonl");
}
