use usage_stats::antigravity_usage::{
    pending_scan, row_log_entry,
    json_i64, json_str, parse_generator_metadata, parse_trajectory_timestamps, parse_usage, ChatModelJson,
    ModelUsageIds, JsonField, StepMetadataJson, UsageJson,
};

fn t(s: &str) -> JsonField {
    JsonField::Text(s.to_string())
}

fn usage(input: &str, output: &str, response_id: Option<&str>, message_id: Option<&str>) -> UsageJson {
    UsageJson {
        response_id: response_id.map(t).unwrap_or(JsonField::Absent),
        message_id: message_id.map(t).unwrap_or(JsonField::Absent),
        input_tokens: t(input),
        output_tokens: t(output),
        thinking_output_tokens: JsonField::Absent,
        response_output_tokens: JsonField::Absent,
        cache_read_tokens: JsonField::Absent,
    }
}

fn chat(response_model: Option<&str>, model: Option<&str>, usage: Option<UsageJson>, retries: Option<Vec<Option<UsageJson>>>) -> ChatModelJson {
    ChatModelJson {
        model: model.map(t).unwrap_or(JsonField::Absent),
        response_model: response_model.map(t).unwrap_or(JsonField::Absent),
        streaming_ms: 0,
        first_token_ms: 0,
        usage,
        retry_infos: retries,
    }
}

fn sample_usage() -> UsageJson {
    UsageJson {
        response_id: t("resp-1"),
        message_id: t("bot-aaa"),
        input_tokens: t("15522"),
        output_tokens: t("135"),
        thinking_output_tokens: t("110"),
        response_output_tokens: t("25"),
        cache_read_tokens: JsonField::Absent,
    }
}

fn sample_metadata() -> Vec<Option<ChatModelJson>> {
    let mut cm = chat(Some("gemini-3.8-flash"), Some("MODEL_PLACEHOLDER_M318"), Some(sample_usage()), Some(vec![Some(sample_usage())]));
    cm.streaming_ms = 2500;
    vec![Some(cm)]
}

#[test]
fn json_i64_reads_protojson_string_encoded_int64() {
    assert_eq!(json_i64(&t("15522")), 15522);
    assert_eq!(json_i64(&JsonField::Integer(42)), 42);
    assert_eq!(json_i64(&t("x")), 0);
    assert_eq!(json_i64(&JsonField::Absent), 0);
}

#[test]
fn json_str_trims_and_ignores_non_strings() {
    assert_eq!(json_str(&t("  resp-1 ")), "resp-1");
    assert_eq!(json_str(&JsonField::Integer(3)), "");
    assert_eq!(json_str(&JsonField::Other), "");
    assert_eq!(json_i64(&JsonField::OtherNumber), 0);
    assert_eq!(json_i64(&t(" -7 ")), -7);
}

#[test]
fn parse_generator_metadata_dedups_usage_and_retry_infos() {
    let rows = parse_generator_metadata(&sample_metadata());
    assert_eq!(rows.len(), 1);
    let row = &rows[0];
    assert_eq!(row.model, "gemini-3.8-flash");
    assert_eq!(row.input_tokens, 15522);
    assert_eq!(row.output_tokens, 135);
    assert_eq!(row.cache_read, 0);
    assert_eq!(row.latency, 2500);
    assert_eq!(row.dedup_key, "resp-1");
}

#[test]
fn parse_generator_metadata_sums_ttft_and_streaming_duration() {
    let mut cm = chat(Some("gemini-3.8-flash"), None, Some(usage("100", "50", Some("r-1"), None)), None);
    cm.first_token_ms = 15000;
    cm.streaming_ms = 500;
    let rows = parse_generator_metadata(&vec![Some(cm)]);
    assert_eq!(rows.len(), 1);
    assert_eq!(rows[0].latency, 15500);
    assert_eq!(rows[0].first_token_latency, 15000);
}

#[test]
fn parse_generator_metadata_counts_every_retry() {
    let cm = chat(
        Some("gemini-3.8-flash"),
        None,
        Some(usage("200", "20", Some("r-2"), None)),
        Some(vec![Some(usage("100", "10", Some("r-1"), None)), Some(usage("200", "20", Some("r-2"), None))]),
    );
    let rows = parse_generator_metadata(&vec![Some(cm)]);
    assert_eq!(rows.len(), 2);
    assert_eq!(rows.iter().map(|r| r.input_tokens).sum::<i64>(), 300);
}

#[test]
fn parse_generator_metadata_keeps_cache_read_when_present() {
    let mut u = usage("15508", "214", Some("r-cache"), None);
    u.cache_read_tokens = t("32677");
    let rows = parse_generator_metadata(&vec![Some(chat(Some("gemini-3.8-flash"), None, Some(u), None))]);
    assert_eq!(rows.len(), 1);
    assert_eq!(rows[0].input_tokens, 15508);
    assert_eq!(rows[0].cache_read, 32677);
}

#[test]
fn parse_generator_metadata_skips_placeholder_model_only_when_response_model_missing() {
    let rows = parse_generator_metadata(&vec![Some(chat(None, Some("MODEL_PLACEHOLDER_M318"), Some(usage("1", "1", Some("r"), None)), None))]);
    assert_eq!(rows[0].model, "MODEL_PLACEHOLDER_M318");
}

#[test]
fn parse_generator_metadata_ignores_empty_and_identityless_usage() {
    let entries = vec![
        Some(chat(None, None, Some(usage("0", "0", Some("r"), None)), None)),
        Some(chat(None, None, Some(usage("5", "5", None, None)), None)),
        None,
    ];
    assert!(parse_generator_metadata(&entries).is_empty());
}

#[test]
fn parse_usage_falls_back_to_thinking_plus_response_and_message_id() {
    let mut u = usage("3", "0", None, Some("bot-1"));
    u.thinking_output_tokens = t("110");
    u.response_output_tokens = t("25");
    let row = parse_usage(&u, "m", 7, 2).unwrap();
    assert_eq!(row.output_tokens, 135);
    assert_eq!(row.dedup_key, "bot-1");
    assert_eq!(row.response_id, "");
    assert_eq!(row.message_id, "bot-1");
    assert_eq!((row.latency, row.first_token_latency), (7, 2));
}

#[test]
fn parse_generator_metadata_same_request_in_two_turns_counts_once() {
    let a = chat(Some("m1"), None, Some(usage("1", "1", Some("dup"), None)), None);
    let b = chat(Some("m2"), None, Some(usage("9", "9", Some("dup"), None)), None);
    let rows = parse_generator_metadata(&vec![Some(a), Some(b)]);
    assert_eq!(rows.len(), 1);
    assert_eq!(rows[0].model, "m1");
    assert_eq!(rows[0].input_tokens, 1);
}

fn step(created_at: &str, ids: Option<(Option<&str>, Option<&str>)>) -> Option<StepMetadataJson> {
    Some(StepMetadataJson {
        created_at: t(created_at),
        model_usage: ids.map(|(r, m)| ModelUsageIds {
            response_id: r.map(t).unwrap_or(JsonField::Absent),
            message_id: m.map(t).unwrap_or(JsonField::Absent),
        }),
    })
}

fn lookup(v: &[(String, i64)], k: &str) -> Option<i64> {
    v.iter().find(|(key, _)| key == k).map(|(_, e)| *e)
}

#[test]
fn parse_trajectory_timestamps_maps_both_identities() {
    let steps = vec![
        step("2026-09-16T03:11:55.593842700Z", Some((Some("resp-1"), Some("bot-aaa")))),
        step("2026-09-16T03:12:08Z", None),
    ];
    let map = parse_trajectory_timestamps(&steps);
    assert_eq!(lookup(&map, "resp-1"), Some(1789528315));
    assert_eq!(lookup(&map, "bot-aaa"), Some(1789528315));
    assert_eq!(map.len(), 2);
}

#[test]
fn parse_trajectory_timestamps_prefers_earliest_for_forked_steps() {
    let steps = vec![
        step("2026-09-16T03:35:00Z", Some((Some("r"), None))),
        step("2026-09-16T03:34:00Z", Some((Some("r"), None))),
    ];
    let map = parse_trajectory_timestamps(&steps);
    assert_eq!(lookup(&map, "r"), Some(1789529640));
    assert_eq!(map.len(), 1);
}

#[test]
fn parse_trajectory_timestamps_skips_unreadable_times_and_missing_metadata() {
    let steps = vec![None, step("not a time", Some((Some("x"), None))), step(" 2026-09-16T03:34:00Z ", Some((Some("y"), Some(""))))];
    let map = parse_trajectory_timestamps(&steps);
    assert_eq!(map, vec![("y".to_string(), 1789529640)]);
}

#[test]
fn row_log_entry_prefers_response_then_message_then_mtime() {
    let mut cm = chat(Some("m"), None, Some(sample_usage()), None);
    cm.streaming_ms = 1;
    let rows = parse_generator_metadata(&vec![Some(cm)]);
    let row = &rows[0];
    let times = vec![("bot-aaa".to_string(), 50), ("resp-1".to_string(), 40)];
    assert_eq!(row_log_entry(row, &times, 9_000_000_000), ("Antigravity:resp-1".to_string(), 40));
    let times = vec![("bot-aaa".to_string(), 50)];
    assert_eq!(row_log_entry(row, &times, 9_000_000_000).1, 50);
    assert_eq!(row_log_entry(row, &vec![], 9_500_000_000).1, 9);
    assert_eq!(pending_scan(None, 5), Some(0));
    assert_eq!(pending_scan(Some((5, 19)), 5), None);
    assert_eq!(pending_scan(Some((4, 19)), 5), Some(19));
}
