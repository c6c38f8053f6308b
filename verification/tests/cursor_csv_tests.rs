use usage_stats::attribution::{FilterReason, LocalHookEvent, OverrideAction, OverrideStore};
use usage_stats::cursor_csv::{parse_cursor_csv_text, parse_date_to_epoch_secs, record_matches_params, CursorCsvService};
use usage_stats::dedup::dedup_records;
use usage_stats::models::FilterParams;

#[test]
fn test_parse_cursor_csv_v1() {
    let csv = "Date,Model,Input (w/ Cache Write),Input (w/o Cache Write),Cache Read,Output Tokens,Total Tokens,Cost,Cost to you
2025-02-01,gpt-4o,10,5,0,15,30,$0.10,$0.10";
    let records = parse_cursor_csv_text(csv, "userA").unwrap();
    assert_eq!(records.len(), 1);
    assert_eq!(records[0].model, "gpt-4o");
    assert_eq!(records[0].provider_id, "cursor");
    assert_eq!(records[0].input_tokens, 5);
    assert_eq!(records[0].output_tokens, 15);
    assert_eq!(records[0].cache_creation, 5);
    assert_eq!(records[0].session_id, "cursor-userA-2025-02-01");
}

#[test]
fn test_parse_cursor_csv_v2() {
    let csv = r#"Date,Kind,Model,Max Mode,Input (w/ Cache Write),Input (w/o Cache Write),Cache Read,Output Tokens,Total Tokens,Cost
"2025-11-13T18:36:05.846Z","Included","auto","No","28342","775","105891","21282","156290","0.19""#;
    let records = parse_cursor_csv_text(csv, "userB").unwrap();
    assert_eq!(records.len(), 1);
    assert_eq!(records[0].model, "auto");
    assert_eq!(records[0].input_tokens, 775);
    assert_eq!(records[0].cache_read, 105891);
    assert_eq!(records[0].cache_creation, 28342 - 775);
    assert_eq!(records[0].session_id, "cursor-userB-2025-11-13");
}

#[test]
fn test_parse_cursor_csv_v3() {
    let csv = r#"Date,Cloud Agent ID,Automation ID,Kind,Model,Max Mode,Input (w/ Cache Write),Input (w/o Cache Write),Cache Read,Output Tokens,Total Tokens,Cost
"2026-04-09T20:01:10.528Z","bc-a380fb49-e1a5-414e-817d-6a85b6cdc51c","cc30782e-26cc-4359-bc22-7567efe282be","Included","composer-2","Yes","0","343446","29045760","915201","30304407","Included""#;
    let records = parse_cursor_csv_text(csv, "u1").unwrap();
    assert_eq!(records.len(), 1);
    assert_eq!(records[0].model, "composer-2");
    assert_eq!(records[0].cache_read, 29045760);
    assert_eq!(records[0].session_id, "cursor-u1-2026-04-09");
}

#[test]
fn test_session_id_differs_by_user() {
    let csv = "Date,Model,Input (w/ Cache Write),Input (w/o Cache Write),Cache Read,Output Tokens,Total Tokens,Cost
2025-02-01,gpt-4o,10,5,0,15,30,$0.10";
    let a = parse_cursor_csv_text(csv, "accA").unwrap();
    let b = parse_cursor_csv_text(csv, "accB").unwrap();
    assert_ne!(a[0].session_id, b[0].session_id);
    assert_eq!(a[0].session_id, "cursor-accA-2025-02-01");
    assert_eq!(b[0].session_id, "cursor-accB-2025-02-01");
}

#[test]
fn test_multi_account_records_survive_dedup() {
    let csv = "Date,Model,Input (w/ Cache Write),Input (w/o Cache Write),Cache Read,Output Tokens,Total Tokens,Cost
2025-02-01,gpt-4o,10,5,0,15,30,$0.10";
    let mut a = parse_cursor_csv_text(csv, "accA").unwrap();
    let b = parse_cursor_csv_text(csv, "accB").unwrap();
    a.extend(b);
    let deduped = dedup_records(a);
    assert_eq!(deduped.len(), 2);
}

const PREVIEW_CSV: &str = r#"Date,Kind,Model,Max Mode,Input (w/ Cache Write),Input (w/o Cache Write),Cache Read,Output Tokens,Total Tokens,Cost
"2026-07-15T10:00:00.000Z","Included","composer-2.5","No","100","50","0","20","70","0.01"
"2026-07-15T11:00:00.000Z","Included","cursor-grok-4.5-high","No","200","80","0","30","110","0.02"
"2026-07-15T12:00:00.000Z","Included","composer-2.5","No","300","90","0","40","130","0.03""#;

#[test]
fn test_preview_csv_model_filter() {
    let mut source = CursorCsvService::new();
    source.open("/tmp/cache", "", PREVIEW_CSV).unwrap();

    let all = source.preview_csv(1, 50, false, None);
    assert_eq!(all.total, 3);
    assert_eq!(all.available_models, vec!["composer-2.5", "cursor-grok-4.5-high"]);

    let filtered = source.preview_csv(1, 50, false, Some("composer-2.5"));
    assert_eq!(filtered.total, 2);
    assert!(filtered.items.iter().all(|r| r.model == "composer-2.5"));
    assert_eq!(filtered.available_models, vec!["composer-2.5", "cursor-grok-4.5-high"]);
}

#[test]
fn preview_is_newest_first_and_paged() {
    let mut source = CursorCsvService::new();
    source.open("/tmp/cache", "u9", PREVIEW_CSV).unwrap();
    let p1 = source.preview_csv(0, 2, false, Some("  "));
    assert_eq!(p1.page, 1);
    assert_eq!(p1.page_size, 2);
    assert_eq!(p1.total, 3);
    assert_eq!(p1.items.len(), 2);
    assert_eq!(p1.items[0].output, 40);
    assert_eq!(p1.items[1].output, 30);
    assert_eq!(p1.items[0].user_id.as_deref(), Some("u9"));
    assert_eq!(p1.items[0].cache_path.as_deref(), Some("/tmp/cache"));
    let p2 = source.preview_csv(2, 2, false, None);
    assert_eq!(p2.items.len(), 1);
    assert_eq!(p2.items[0].output, 20);
    let p9 = source.preview_csv(9, 2, false, None);
    assert!(p9.items.is_empty());
    assert_eq!(p9.total, 3);
    let big = source.preview_csv(1, 1000, false, None);
    assert_eq!(big.page_size, 100);
    let huge = source.preview_csv(usize::MAX, 100, false, None);
    assert!(huge.items.is_empty());
}

#[test]
fn overrides_decide_filtering_and_stats() {
    let mut source = CursorCsvService::new();
    source.open("/tmp/cache", "", PREVIEW_CSV).unwrap();
    // attribution off: nothing filtered, totals of all rows
    let st = source.attribution_token_stats();
    assert_eq!(st.csv_total.input, 50 + 80 + 90);
    assert_eq!(st.filtered_out.input, 0);

    let page = source.preview_csv(1, 50, false, None);
    let key = page.items[0].row_key.clone();
    source.set_attribution_override(&key, OverrideAction::Filter, page.items[0].created_at, "composer-2.5", 1).unwrap();
    let st = source.attribution_token_stats();
    assert_eq!(st.filtered_out.input, 90);
    assert_eq!(st.filtered_out.output, 40);
    let only = source.preview_csv(1, 50, true, None);
    assert_eq!(only.total, 1);
    assert_eq!(only.items[0].reason, Some(FilterReason::NoMatch));
    assert_eq!(only.items[0].override_action, Some(OverrideAction::Filter));
    assert_eq!(only.available_models, vec!["composer-2.5"]);

    source.clear_attribution_override(&key).unwrap();
    assert_eq!(source.attribution_token_stats().filtered_out.input, 0);

    let params = FilterParams { from_epoch: None, to_epoch: None, tz_offset: None, provider_id: None, model_id: None };
    assert_eq!(source.filter_records(&params).len(), 3);
}

#[test]
fn attribution_filters_rows_without_local_events() {
    let mut source = CursorCsvService::new();
    source.open("/tmp/cache", "", PREVIEW_CSV).unwrap();
    let t = parse_date_to_epoch_secs("2026-07-15T12:00:00.000Z");
    let events = vec![LocalHookEvent { ts_epoch: t, model: "composer-2.5".into(), family: "composer-2.5".into(), hook_event_name: "stop".into() }];
    source.reload_attribution(true, 0, events);
    let st = source.attribution_token_stats();
    // the 10:00 composer row has its family outside the slack, the grok row is another family
    assert_eq!(st.filtered_out.input, 50 + 80);
    let params = FilterParams { from_epoch: None, to_epoch: None, tz_offset: None, provider_id: None, model_id: Some("composer-2.5".to_string()) };
    let kept = source.filter_records(&params);
    assert_eq!(kept.len(), 1);
    assert_eq!(kept[0].input_tokens, 90);
}

#[test]
fn closed_source_refuses_overrides() {
    let mut source = CursorCsvService::new();
    assert!(!source.is_open());
    assert!(source.set_attribution_override("k", OverrideAction::Keep, 0, "m", 0).is_err());
    assert!(source.clear_attribution_override("k").is_err());
}

#[test]
fn open_rejects_bad_header_and_empty_text() {
    let mut source = CursorCsvService::new();
    assert_eq!(source.open("/d", "", "").unwrap_err(), "Cursor CSV 为空");
    assert_eq!(source.open("/d", "", "Foo,Bar\n1,2").unwrap_err(), "无效的 Cursor CSV 表头");
    assert!(!source.is_open());
}

#[test]
fn reload_overrides_drops_stale_keys() {
    let mut source = CursorCsvService::new();
    source.open("/tmp/cache", "", PREVIEW_CSV).unwrap();
    let page = source.preview_csv(1, 50, false, None);
    let mut store = OverrideStore::new();
    usage_stats::attribution::upsert_override(&mut store, &page.items[1].row_key, OverrideAction::Keep, 0, "m", 0);
    usage_stats::attribution::upsert_override(&mut store, "stale", OverrideAction::Filter, 0, "m", 0);
    let removed = source.reload_overrides(store);
    assert_eq!(removed, 1);
    let page = source.preview_csv(1, 50, false, None);
    assert_eq!(page.items[1].override_action, Some(OverrideAction::Keep));
}

#[test]
fn csv_dates_in_all_formats() {
    assert_eq!(parse_date_to_epoch_secs("2025-02-01"), 1738411200);
    assert_eq!(parse_date_to_epoch_secs("2025-02-01T00:00:00Z"), 1738368000);
    assert_eq!(parse_date_to_epoch_secs("2025-02-01T00:00:00.500Z"), 1738368000);
    assert_eq!(parse_date_to_epoch_secs("2025-02-01T00:00:00"), 1738368000);
    assert_eq!(parse_date_to_epoch_secs("yesterday"), 0);
}

#[test]
fn query_bounds_filter_records() {
    let recs = parse_cursor_csv_text(PREVIEW_CSV, "").unwrap();
    let t = recs[1].created_at;
    let p = FilterParams { from_epoch: Some(t), to_epoch: Some(t + 1), tz_offset: Some(8), provider_id: Some("cursor".to_string()), model_id: None };
    assert!(!record_matches_params(&recs[0], &p));
    assert!(record_matches_params(&recs[1], &p));
    assert!(!record_matches_params(&recs[2], &p));
    assert_eq!(CursorCsvService::tz_offset(&p), 8);
    assert_eq!(recs[0].session_id, "cursor-_unknown-2026-07-15");
}

#[test]
fn new_source_is_empty() {
    let s = CursorCsvService::new();
    assert!(!s.is_open());
    assert_eq!(s.user_id(), "");
    assert_eq!(s.cache_dir(), "");
    assert_eq!(s.get_record_count(), 0);
    assert_eq!(s.get_latest_timestamp(), None);
}

#[test]
fn open_source_counts_rows_and_latest() {
    let mut s = CursorCsvService::new();
    s.open("/tmp/cache", "u1", PREVIEW_CSV).unwrap();
    assert_eq!(s.get_record_count(), 3);
    assert_eq!(s.get_latest_timestamp(), Some(parse_date_to_epoch_secs("2026-07-15T12:00:00.000Z")));
}

#[test]
fn csv_errors_and_verdict_errors() {
    assert_eq!(parse_cursor_csv_text("", "u").unwrap_err(), "Cursor CSV 为空");
    assert_eq!(parse_cursor_csv_text("Kind,Model\n1,2", "u").unwrap_err(), "无效的 Cursor CSV 表头");
    let mut s = CursorCsvService::new();
    assert_eq!(s.open("/tmp/cache", "u", "Date,Kind").unwrap_err(), "无效的 Cursor CSV 表头");
    assert_eq!(s.set_attribution_override("k", OverrideAction::Keep, 0, "m", 0).unwrap_err(), "Cursor 数据源未加载");
    assert_eq!(s.clear_attribution_override("k").unwrap_err(), "Cursor 数据源未加载");
}

#[test]
fn verdicts_store_their_entry() {
    let mut s = CursorCsvService::new();
    s.open("/tmp/cache", "u1", PREVIEW_CSV).unwrap();
    s.set_attribution_override("key-1", OverrideAction::Filter, 1234, "composer-2.5", 99).unwrap();
    let store = s.overrides();
    let (_, e) = store.entries().iter().find(|(k, _)| k == "key-1").unwrap();
    assert_eq!(e.action, OverrideAction::Filter);
    assert_eq!(e.created_at, 1234);
    assert_eq!(e.model, "composer-2.5");
    assert_eq!(e.updated_at, 99);
    s.clear_attribution_override("key-1").unwrap();
    assert_eq!(s.overrides().len(), 0);
}

#[test]
fn clearing_a_new_verdict_restores_the_preview() {
    let mut s = CursorCsvService::new();
    s.open("/tmp/cache", "u1", PREVIEW_CSV).unwrap();
    let before = s.preview_csv(1, 100, false, None);
    let key = before.items[1].row_key.clone();
    s.set_attribution_override(&key, OverrideAction::Filter, before.items[1].created_at, &before.items[1].model, 5).unwrap();
    let mid = s.preview_csv(1, 100, false, None);
    assert!(mid.items[1].filtered);
    s.clear_attribution_override(&key).unwrap();
    let after = s.preview_csv(1, 100, false, None);
    assert_eq!(after.total, before.total);
    for (a, b) in after.items.iter().zip(before.items.iter()) {
        assert_eq!(a.row_key, b.row_key);
        assert_eq!(a.filtered, b.filtered);
        assert_eq!(a.reason, b.reason);
        assert_eq!(a.override_action, b.override_action);
    }
}
