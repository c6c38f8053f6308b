use usage_stats::byok::{byok_event_record, parse_iso_to_epoch, ByokUsageEvent, CursorByokDbService};
use usage_stats::models::FilterParams;

fn ev(id: &str, kind: &str, at: &str, usage: bool) -> ByokUsageEvent {
    ByokUsageEvent {
        event_id: id.to_string(),
        kind: kind.to_string(),
        at: at.to_string(),
        input_tokens: 10,
        output_tokens: -3,
        cache_read_tokens: 4,
        cache_write_tokens: 5,
        usage_present: usage,
    }
}

#[test]
fn iso_times_with_fraction_and_zone() {
    assert_eq!(parse_iso_to_epoch("2026-08-07T03:23:12.6613651Z"), 1786072992);
    assert_eq!(parse_iso_to_epoch("2026-08-07T03:23:12Z"), 1786072992);
    assert_eq!(parse_iso_to_epoch("not a time"), 0);
}

#[test]
fn events_map_to_records() {
    let index = vec![("req-1".to_string(), ("conv-aaaa".to_string(), "gpt-5".to_string()))];
    let fallback = vec![("req-2".to_string(), "opencode".to_string())];
    let r = byok_event_record(&ev("req-1::0", "provider_call", "2026-08-07T03:23:12Z", true), &index, &fallback).unwrap();
    assert_eq!(r.session_id, "byok-conv-aaaa");
    assert_eq!(r.model, "gpt-5");
    assert_eq!(r.provider_id, "cursor-byok");
    assert_eq!(r.output_tokens, 0);
    assert_eq!(r.cache_creation, 5);
    let r = byok_event_record(&ev("req-2::1", "provider_call", "2026-08-07T03:23:12Z", true), &index, &fallback).unwrap();
    assert_eq!(r.session_id, "byok-unknown-req-2");
    assert_eq!(r.model, "opencode");
    let r = byok_event_record(&ev("req-3", "provider_call", "2026-08-07T03:23:12Z", true), &index, &fallback).unwrap();
    assert_eq!(r.model, "unknown");
    assert!(byok_event_record(&ev("req-1", "turn_finalized", "2026-08-07T03:23:12Z", true), &index, &fallback).is_none());
    assert!(byok_event_record(&ev("req-1", "provider_call", "2026-08-07T03:23:12Z", false), &index, &fallback).is_none());
    assert!(byok_event_record(&ev("req-1", "provider_call", "bad", true), &index, &fallback).is_none());
}

#[test]
fn byok_source_opens_and_filters() {
    let mut s = CursorByokDbService::new();
    assert!(!s.is_open());
    let events = vec![
        ev("a", "provider_call", "2026-08-07T03:23:12Z", true),
        ev("b", "turn_finalized", "2026-08-07T03:23:13Z", true),
        ev("c", "provider_call", "2026-08-07T03:25:00Z", true),
    ];
    s.open("/h", &events, &vec![], &vec![]);
    assert!(s.is_open());
    assert_eq!(s.get_record_count(), 2);
    assert_eq!(s.get_latest_timestamp(), Some(1786073100));
    let p = FilterParams { from_epoch: Some(1786073000), to_epoch: None, tz_offset: None, provider_id: None, model_id: None };
    assert_eq!(s.filter_records(&p).len(), 1);
    s.close();
    assert!(!s.is_open());
    assert_eq!(s.get_record_count(), 0);
}

#[test]
fn context_items_and_state_calls() {
    assert_eq!(usage_stats::byok::run_request_model("metadata", "r1", Some("run_request"), Some("gpt")).as_deref(), Some("gpt"));
    assert!(usage_stats::byok::run_request_model("metadata", "", Some("run_request"), Some("gpt")).is_none());
    assert!(usage_stats::byok::run_request_model("message", "r1", Some("run_request"), Some("gpt")).is_none());
    assert!(usage_stats::byok::run_request_model("metadata", "r1", Some("other"), Some("gpt")).is_none());
    assert!(usage_stats::byok::run_request_model("metadata", "r1", Some("run_request"), Some("")).is_none());
    assert!(usage_stats::byok::state_call_counts("r", "m"));
    assert!(!usage_stats::byok::state_call_counts("", "m"));
}
