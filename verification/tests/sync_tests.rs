use chrono::{FixedOffset, TimeZone, Utc};
use usage_stats::sync::{
    auto_sync_due, build_usage_csv_url, cache_age_is_fresh, count_cursor_csv_rows, credentials_for,
    extract_user_id_from_session_token, get_sync_lookback, is_usage_csv_body, lookback_window_ms,
    merge_usage_csv, merged_cache_text, validate_summary_body, session_from_summary, session_rejected, SyncLookback,
};

fn beijing_tz() -> FixedOffset {
    FixedOffset::east_opt(8 * 3600).unwrap()
}

#[test]
fn lookback_parse_defaults() {
    assert_eq!(SyncLookback::parse("7d"), SyncLookback::Days(7));
    assert_eq!(SyncLookback::parse("1d"), SyncLookback::Days(1));
    assert_eq!(SyncLookback::parse("30d"), SyncLookback::Days(30));
    assert_eq!(SyncLookback::parse("all"), SyncLookback::All);
    assert_eq!(SyncLookback::parse("ALL"), SyncLookback::All);
    assert_eq!(SyncLookback::parse("bogus"), SyncLookback::Days(7));
}

#[test]
fn beijing_7d_window_from_fixed_now() {
    let now = Utc.with_ymd_and_hms(2026, 7, 14, 7, 0, 0).unwrap().timestamp();
    let (start_ms, end_ms, start_epoch) = lookback_window_ms(SyncLookback::Days(7), now).unwrap();
    let expect_start = beijing_tz().with_ymd_and_hms(2026, 7, 8, 0, 0, 0).unwrap().timestamp_millis();
    let expect_end = beijing_tz().with_ymd_and_hms(2026, 7, 14, 23, 59, 59).unwrap().timestamp_millis() + 999;
    assert_eq!(start_ms, expect_start);
    assert_eq!(end_ms, expect_end);
    assert_eq!(start_epoch, expect_start / 1000);
    assert!(lookback_window_ms(SyncLookback::All, now).is_none());
}

#[test]
fn beijing_1d_is_today_only() {
    let now = Utc.with_ymd_and_hms(2026, 7, 14, 7, 0, 0).unwrap().timestamp();
    let (start_ms, end_ms, _) = lookback_window_ms(SyncLookback::Days(1), now).unwrap();
    let expect_start = beijing_tz().with_ymd_and_hms(2026, 7, 14, 0, 0, 0).unwrap().timestamp_millis();
    assert_eq!(start_ms, expect_start);
    assert!(end_ms > start_ms);
}

#[test]
fn window_before_epoch_and_near_midnight() {
    // 1969-12-31 16:30 UTC is 1970-01-01 00:30 in Beijing.
    let now = -27000;
    let (start_ms, end_ms, start) = lookback_window_ms(SyncLookback::Days(1), now).unwrap();
    assert_eq!(start, -28800);
    assert_eq!(start_ms, -28_800_000);
    assert_eq!(end_ms, 86_400_000 - 28_800_000 - 1);
    // Days(0) counts as one day.
    assert_eq!(lookback_window_ms(SyncLookback::Days(0), now), lookback_window_ms(SyncLookback::Days(1), now));
}

#[test]
fn merge_keeps_rows_before_window() {
    let header = "Date,Cloud Agent ID,Automation ID,Kind,Model,Max Mode,Input (w/ Cache Write),Input (w/o Cache Write),Cache Read,Output Tokens,Total Tokens,Cost";
    let old_outside = "2026-07-01T01:00:00.000Z,,,,,,,0,10,0,5,15,Included";
    let old_inside = "2026-07-10T01:00:00.000Z,,,,,,,0,20,0,5,25,Included";
    let existing = format!("{}\n{}\n{}\n", header, old_outside, old_inside);
    let fetched = format!("{}\n{}\n", header, "2026-07-12T02:00:00.000Z,,,,,,,0,30,0,5,35,Included");
    let start_epoch = beijing_tz().with_ymd_and_hms(2026, 7, 8, 0, 0, 0).unwrap().timestamp();
    let merged = merge_usage_csv(Some(&existing), &fetched, start_epoch);
    assert!(merged.contains("2026-07-01T01:00:00.000Z"));
    assert!(!merged.contains("2026-07-10T01:00:00.000Z"));
    assert!(merged.contains("2026-07-12T02:00:00.000Z"));
    assert_eq!(count_cursor_csv_rows(&merged), 2);
}

#[test]
fn merge_without_existing_uses_fetched() {
    let fetched = "Date,Model\n2026-07-12T02:00:00.000Z,composer-2.5\n";
    let merged = merge_usage_csv(None, fetched, 0);
    assert_eq!(merged.lines().next().unwrap(), "Date,Model");
    assert!(merged.contains("composer-2.5"));
}

#[test]
fn merge_edge_cases() {
    assert_eq!(merge_usage_csv(None, "\u{feff}", 5), "");
    assert_eq!(merge_usage_csv(Some("x"), "\u{feff}H\n\na\nb", 5), "H\na\nb");
    assert_eq!(merge_usage_csv(Some("Model\n1"), "H\na", 5), "H\na");
    assert_eq!(merge_usage_csv(Some("Date\n\"2026-07-01\",x\n"), "H\na\n", 2_000_000_000), "H\n\"2026-07-01\",x\na\n");
    assert_eq!(merged_cache_text(None, "abc", None), "abc");
}

#[test]
fn row_counts_skip_header_and_blanks() {
    assert_eq!(count_cursor_csv_rows(""), 0);
    assert_eq!(count_cursor_csv_rows("H"), 0);
    assert_eq!(count_cursor_csv_rows("H\n\n  \na\r\nb"), 2);
}

#[test]
fn urls_name_the_window() {
    let now = Utc.with_ymd_and_hms(2026, 7, 14, 7, 0, 0).unwrap().timestamp();
    let (url, start) = build_usage_csv_url(SyncLookback::All, now);
    assert_eq!(url, "https://cursor.com/api/dashboard/export-usage-events-csv?strategy=tokens");
    assert!(start.is_none());
    let (url, start) = build_usage_csv_url(SyncLookback::Days(1), now);
    let s = beijing_tz().with_ymd_and_hms(2026, 7, 14, 0, 0, 0).unwrap().timestamp();
    assert_eq!(start, Some(s));
    assert_eq!(url, format!("https://cursor.com/api/dashboard/export-usage-events-csv?startDate={}&endDate={}&strategy=tokens", s * 1000, s * 1000 + 86_399_999));
}

#[test]
fn lookback_settings_read_back() {
    assert_eq!(get_sync_lookback(None), SyncLookback::Days(7));
    assert_eq!(get_sync_lookback(Some(" 30 ")), SyncLookback::Days(30));
    for l in [SyncLookback::Days(1), SyncLookback::Days(7), SyncLookback::Days(30), SyncLookback::All] {
        assert_eq!(SyncLookback::parse(l.as_str()), l);
    }
    assert_eq!(SyncLookback::Days(3).as_str(), "7d");
}

#[test]
fn session_tokens_and_credentials() {
    assert_eq!(extract_user_id_from_session_token(" user_1%3A%3Ajwt "), Some("user_1".to_string()));
    assert_eq!(extract_user_id_from_session_token("user_2::jwt"), Some("user_2".to_string()));
    assert_eq!(extract_user_id_from_session_token("a::b%3A%3Ac"), Some("a::b".to_string()));
    assert_eq!(extract_user_id_from_session_token("::jwt"), None);
    assert_eq!(extract_user_id_from_session_token("plain"), None);
    assert_eq!(credentials_for("   ", "t".to_string()).unwrap_err(), "Session Token 不能为空");
    let c = credentials_for(" u%3A%3Ax ", "2026-01-01T00:00:00Z".to_string()).unwrap();
    assert_eq!(c.session_token, "u%3A%3Ax");
    assert_eq!(c.user_id.as_deref(), Some("u"));
    assert_eq!(c.created_at, "2026-01-01T00:00:00Z");
}

#[test]
fn sync_decisions() {
    assert!(cache_age_is_fresh(Some(86_399)));
    assert!(!cache_age_is_fresh(Some(86_400)));
    assert!(!cache_age_is_fresh(None));
    assert!(auto_sync_due(true, false));
    assert!(!auto_sync_due(true, true));
    assert!(!auto_sync_due(false, false));
    assert!(is_usage_csv_body("\u{feff}Date,Model\n"));
    assert!(!is_usage_csv_body("<html>"));
    let r = session_rejected(401);
    assert_eq!(r.error.as_deref(), Some("Session Token 已过期或无效"));
    let r = session_rejected(500);
    assert_eq!(r.error.as_deref(), Some("Cursor API 返回状态 500"));
    let ok = session_from_summary(true, true, Some("pro".to_string()));
    assert!(ok.valid);
    assert_eq!(ok.membership_type.as_deref(), Some("pro"));
    let bad = session_from_summary(true, false, Some("pro".to_string()));
    assert!(!bad.valid);
    assert!(bad.membership_type.is_none());
}

#[test]
fn summary_bodies_decide_the_session() {
    let ok = validate_summary_body(r#"{"billingCycleStart":"2026-07-01","billingCycleEnd":"2026-08-01","membershipType":"pro"}"#);
    assert!(ok.valid);
    assert_eq!(ok.membership_type.as_deref(), Some("pro"));
    assert_eq!(ok.error, None);
    let missing = validate_summary_body(r#"{"billingCycleStart":"2026-07-01","membershipType":"pro"}"#);
    assert!(!missing.valid);
    assert_eq!(missing.membership_type, None);
    assert_eq!(missing.error.as_deref(), Some("Cursor API 响应格式无效"));
    let bad = validate_summary_body("<html>");
    assert!(!bad.valid);
    let e = bad.error.unwrap();
    let serde_msg = serde_json::from_str::<serde_json::Value>("<html>").unwrap_err().to_string();
    assert_eq!(e, format!("解析响应失败: {}", serde_msg));
}
