use usage_stats::attribution::{
    delete_override, explain_filter_reason, gc_overrides, is_likely_local, normalize_model_family,
    resolve_effective, row_key, should_apply_attribution_for_ts, upsert_override, FilterReason,
    LocalHookEvent, OverrideAction, OverrideStore,
};
use usage_stats::cursor_csv::default_attribution_filter_start_epoch;

fn event(ts: i64, model: &str, family: &str, name: &str) -> LocalHookEvent {
    LocalHookEvent {
        ts_epoch: ts,
        model: model.into(),
        family: family.into(),
        hook_event_name: name.into(),
    }
}

#[test]
fn test_normalize_model_family() {
    assert_eq!(normalize_model_family("cursor-grok-4.5-high"), "grok-4.5");
    assert_eq!(normalize_model_family("grok-4.5"), "grok-4.5");
    assert_eq!(normalize_model_family("grok-4.5-high"), "grok-4.5");
    assert_eq!(normalize_model_family("sonnet-5-thinking-high"), "sonnet-5");
    assert_eq!(normalize_model_family("composer-2.5-fast"), "composer-2.5-fast");
    assert_eq!(normalize_model_family("composer-2.5"), "composer-2.5");
    assert_eq!(normalize_model_family("glm-5.2-max"), "glm-5.2");
    assert_eq!(normalize_model_family("gpt-5.6-terra-medium"), "gpt-5.6-terra");
}

#[test]
fn test_composer_fast_not_same_family_as_composer() {
    let events = vec![event(1_000_000, "composer-2.5", "composer-2.5", "beforeSubmitPrompt")];
    assert_eq!(explain_filter_reason(1_000_000, "composer-2.5-fast", &events, 60), Some(FilterReason::Model));
    assert_eq!(explain_filter_reason(1_000_000, "composer-2.5", &events, 60), None);
}

#[test]
fn test_attribution_cutoff_is_cst_1530() {
    let start = default_attribution_filter_start_epoch();
    assert_eq!(start, 1_783_927_800);
    let utc = chrono::DateTime::from_timestamp(start, 0).unwrap();
    assert_eq!(utc.format("%Y-%m-%d %H:%M:%S").to_string(), "2026-07-13 07:30:00");
    assert!(!should_apply_attribution_for_ts(start - 1, start));
    assert!(should_apply_attribution_for_ts(start, start));
    assert!(should_apply_attribution_for_ts(start + 1, start));
}

#[test]
fn test_is_likely_local_same_family_within_slack() {
    let events = vec![event(1_000_000, "grok-4.5", "grok-4.5", "beforeSubmitPrompt")];
    assert!(is_likely_local(1_000_030, "cursor-grok-4.5-high", &events, 60));
    assert!(!is_likely_local(1_000_120, "cursor-grok-4.5-high", &events, 60));
}

#[test]
fn test_is_likely_local_different_family() {
    let events = vec![event(1_000_000, "grok-4.5", "grok-4.5", "beforeSubmitPrompt")];
    assert!(!is_likely_local(1_000_000, "gpt-5.6-terra-medium", &events, 60));
}

#[test]
fn test_is_likely_local_empty_events_fail_open() {
    assert!(is_likely_local(1, "grok-4.5", &[], 60));
    assert_eq!(explain_filter_reason(1, "grok-4.5", &[], 60), None);
}

#[test]
fn test_explain_filter_reason_model() {
    let events = vec![event(1_000_000, "grok-4.5", "grok-4.5", "beforeSubmitPrompt")];
    assert_eq!(explain_filter_reason(1_000_000, "gpt-5.6-terra-medium", &events, 60), Some(FilterReason::Model));
}

#[test]
fn test_explain_filter_reason_time() {
    let events = vec![event(1_000_000, "grok-4.5", "grok-4.5", "beforeSubmitPrompt")];
    assert_eq!(explain_filter_reason(1_000_120, "cursor-grok-4.5-high", &events, 60), Some(FilterReason::Time));
}

#[test]
fn test_explain_filter_reason_none() {
    let events = vec![event(1_000_000, "grok-4.5", "grok-4.5", "beforeSubmitPrompt")];
    assert_eq!(explain_filter_reason(2_000_000, "gpt-5.6-terra-medium", &events, 60), Some(FilterReason::NoMatch));
}

#[test]
fn test_explain_filter_reason_model_over_time() {
    let events = vec![
        event(1_000_000, "gpt", "gpt-5.6-terra", "beforeSubmitPrompt"),
        event(1_000_200, "grok", "grok-4.5", "stop"),
    ];
    assert_eq!(explain_filter_reason(1_000_000, "cursor-grok-4.5-high", &events, 60), Some(FilterReason::Model));
}

#[test]
fn test_explain_filter_reason_kept() {
    let events = vec![event(1_000_000, "grok-4.5", "grok-4.5", "beforeSubmitPrompt")];
    assert_eq!(explain_filter_reason(1_000_030, "cursor-grok-4.5-high", &events, 60), None);
}

#[test]
fn test_row_key_stable() {
    let a = row_key(100, "grok-4.5", 1, 2, 3, 4);
    let b = row_key(100, "grok-4.5", 1, 2, 3, 4);
    let c = row_key(100, "grok-4.5", 1, 2, 3, 5);
    assert_eq!(a, b);
    assert_ne!(a, c);
    assert_eq!(a.len(), 32);
}

#[test]
fn test_resolve_effective_override() {
    let algo = Some(FilterReason::Time);
    let keep = resolve_effective(algo, Some(OverrideAction::Keep));
    assert!(!keep.filtered);
    assert_eq!(keep.reason, algo);
    assert_eq!(keep.override_action, Some(OverrideAction::Keep));

    let filter = resolve_effective(None, Some(OverrideAction::Filter));
    assert!(filter.filtered);
    assert_eq!(filter.reason, Some(FilterReason::NoMatch));
    assert_eq!(filter.override_action, Some(OverrideAction::Filter));

    let plain = resolve_effective(algo, None);
    assert!(plain.filtered);
    assert_eq!(plain.override_action, None);
}

#[test]
fn test_overrides_gc_and_roundtrip() {
    let mut map = OverrideStore::new();
    upsert_override(&mut map, "aaa", OverrideAction::Keep, 1, "m1", 10);
    upsert_override(&mut map, "bbb", OverrideAction::Filter, 2, "m2", 11);
    assert_eq!(map.len(), 2);

    let live = vec!["aaa".to_string()];
    let removed = gc_overrides(&mut map, &live);
    assert_eq!(removed, 1);
    assert_eq!(map.len(), 1);
    assert_eq!(map.get_action("aaa"), Some(OverrideAction::Keep));

    delete_override(&mut map, "aaa");
    assert_eq!(map.len(), 0);
}

#[test]
fn upsert_replaces_whole_entry() {
    let mut map = OverrideStore::new();
    upsert_override(&mut map, "k", OverrideAction::Keep, 5, "m", 100);
    upsert_override(&mut map, "k", OverrideAction::Filter, 6, "m", 200);
    assert_eq!(map.len(), 1);
    assert_eq!(map.get_action("k"), Some(OverrideAction::Filter));
    let e = &map.entries()[0].1;
    assert_eq!(e.updated_at, 200);
    assert_eq!(e.created_at, 6);
}

#[test]
fn model_family_lowers_unicode_and_trims() {
    assert_eq!(normalize_model_family("  Cursor-GROK-4.5-HIGH  "), "grok-4.5");
    assert_eq!(normalize_model_family("ÉCLAIR-max"), "éclair");
}

#[test]
fn row_key_is_hex_of_two_hashes() {
    let k = row_key(1_783_927_800, "composer-2.5", 50, 20, 0, 50);
    assert!(k.chars().all(|c| c.is_ascii_hexdigit() && !c.is_ascii_uppercase()));
    assert_ne!(k, row_key(1_783_927_801, "composer-2.5", 50, 20, 0, 50));
}

#[test]
fn no_events_keeps_every_row() {
    assert!(is_likely_local(0, "anything", &[], 0));
    assert_eq!(explain_filter_reason(i64::MIN, "x", &[], i64::MAX), None);
}

#[test]
fn slack_edge_is_inclusive() {
    let events = vec![event(1_000, "m", "m", "stop")];
    assert_eq!(explain_filter_reason(1_060, "m", &events, 60), None);
    assert_eq!(explain_filter_reason(1_061, "m", &events, 60), Some(FilterReason::Time));
    assert_eq!(explain_filter_reason(940, "m", &events, 60), None);
}
