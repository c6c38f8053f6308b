use usage_stats::byok::CursorByokDbService;
use usage_stats::cursor_csv::CursorCsvService;
use usage_stats::models::{FilterParams, RawRecord};
use usage_stats::record_queries::{
    date_range_of, minute_token_trend, models_of, recent_request_logs, request_tokens_for_ids, request_tokens_of,
    session_max_context_widths, session_timestamps,
};

fn rec(session_id: &str, model: &str, created_at: i64, input: i64, cache_read: i64) -> RawRecord {
    RawRecord {
        session_id: session_id.to_string(),
        model: model.to_string(),
        provider_id: "p".to_string(),
        created_at,
        input_tokens: input,
        output_tokens: 2,
        cache_read,
        cache_creation: 1,
        latency: 9,
        is_codex: false,
    }
}

fn sample() -> Vec<RawRecord> {
    vec![
        rec("s1", "b-model", 130, 10, 5),
        rec("s2", "a-model", 65, 1, 1),
        rec("s1", "b-model", 100, 30, 0),
        rec("s3", "c-model", 200, 4, 4),
    ]
}

#[test]
fn models_are_distinct_and_sorted() {
    assert_eq!(models_of(&sample()), vec!["a-model".to_string(), "b-model".to_string(), "c-model".to_string()]);
    assert!(models_of(&[]).is_empty());
}

#[test]
fn date_range_spans_all_records() {
    let r = date_range_of(&sample());
    assert_eq!((r.min, r.max), (65, 200));
    let e = date_range_of(&[]);
    assert_eq!((e.min, e.max), (0, 0));
}

#[test]
fn max_context_width_per_listed_session() {
    let ids = vec!["s1".to_string(), "s3".to_string(), "nope".to_string()];
    let out = session_max_context_widths(&sample(), &ids);
    assert_eq!(out, vec![("s1".to_string(), 30), ("s3".to_string(), 8)]);
}

#[test]
fn session_timestamps_are_sorted_per_session() {
    let ids = vec!["s1".to_string(), "s2".to_string()];
    let out = session_timestamps(&sample(), &ids);
    assert_eq!(out, vec![("s1".to_string(), vec![100, 130]), ("s2".to_string(), vec![65])]);
}

#[test]
fn request_tokens_keep_record_order() {
    let out = request_tokens_of(&sample());
    assert_eq!(out.len(), 4);
    assert_eq!(out[2].session_id, "s1");
    assert_eq!(out[2].created_at, 100);
    assert_eq!(out[2].input_tokens, 30);
    let only = request_tokens_for_ids(&sample(), &vec!["s2".to_string()]);
    assert_eq!(only.len(), 1);
    assert_eq!(only[0].model, "a-model");
}

#[test]
fn minute_trend_buckets_by_minute_from_since() {
    let out = minute_token_trend(&sample(), 100);
    let keys: Vec<i64> = out.iter().map(|b| b.bucket).collect();
    assert_eq!(keys, vec![60, 120, 180]);
    assert_eq!(out[0].requests, 1);
    assert_eq!(out[0].input_tokens, 30);
    assert_eq!(out[1].requests, 1);
    assert_eq!(out[2].cache_read, 4);
    let neg = minute_token_trend(&[rec("n", "m", -61, 1, 0)], -100);
    assert_eq!(neg[0].bucket, -60);
}

#[test]
fn recent_logs_newest_first_and_truncated_without_since() {
    let rows = recent_request_logs(&sample(), None, 2);
    assert_eq!(rows.iter().map(|r| r.3).collect::<Vec<_>>(), vec![200, 130]);
    assert_eq!(rows[0].8, 9);
    assert!(!rows[0].9);
    let since = recent_request_logs(&sample(), Some(65), 1);
    assert_eq!(since.iter().map(|r| r.3).collect::<Vec<_>>(), vec![200, 130, 100]);
}

#[test]
fn services_answer_queries_from_their_records() {
    let csv = "Date,Model,Input (w/ Cache Write),Input (w/o Cache Write),Cache Read,Output Tokens,Total Tokens,Cost,Cost to you
2025-02-01,gpt-4o,10,5,0,15,30,$0.10,$0.10
2025-02-02,sonnet-x,10,5,0,15,30,$0.10,$0.10";
    let mut svc = CursorCsvService::new();
    svc.open("/tmp/cache", "userA", csv).unwrap();
    let providers = svc.get_providers();
    assert_eq!(providers.len(), 1);
    assert_eq!(providers[0].id, "cursor");
    assert_eq!(providers[0].name, "Cursor");
    assert_eq!(svc.get_models(), vec!["gpt-4o".to_string(), "sonnet-x".to_string()]);
    let params = FilterParams { from_epoch: None, to_epoch: None, tz_offset: None, provider_id: None, model_id: None };
    assert_eq!(svc.get_session_request_tokens(&params).len(), 2);
    assert_eq!(svc.get_filtered_records(&params).len(), 2);
    let byok = CursorByokDbService::new();
    assert_eq!(byok.get_providers()[0].id, "cursor-byok");
    assert!(byok.get_models().is_empty());
}
