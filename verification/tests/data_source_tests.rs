use usage_stats::data_source::{db_type_from_tables, merge_date_range, merge_realtime_buckets, union_models, DbType, SourceCapabilities};
use usage_stats::models::{DateRange, RealtimeBucket};

fn bucket(b: i64, requests: i64, input: i64) -> RealtimeBucket {
    RealtimeBucket { bucket: b, requests, input_tokens: input, output_tokens: 1, cache_read: 2, cache_creation: 3 }
}

#[test]
fn labels_round_trip() {
    let all = [
        DbType::ExternalDb,
        DbType::OpenCode,
        DbType::AiProxy,
        DbType::Cursor,
        DbType::ZCode,
        DbType::Proma,
        DbType::Dsh,
        DbType::Minimax,
    ];
    for t in all {
        assert_eq!(DbType::from_label(t.label()), Some(t));
    }
    assert_eq!(DbType::from_label("CC-Switch"), Some(DbType::ExternalDb));
    assert_eq!(DbType::from_label("AI-Proxy"), Some(DbType::AiProxy));
    assert_eq!(DbType::from_label("ccs"), None);
    assert_eq!(DbType::Dsh.label(), "DSH");
}

#[test]
fn capabilities_default_off() {
    let c = SourceCapabilities::default();
    assert!(!c.session_management && !c.project_attribution && !c.incremental_scan);
}

#[test]
fn realtime_buckets_merge_by_key() {
    let merged = merge_realtime_buckets(vec![
        vec![bucket(60, 1, 10), bucket(0, 2, 20)],
        vec![bucket(60, 3, 30)],
        vec![],
        vec![bucket(120, 1, 1)],
    ]);
    assert_eq!(merged.len(), 3);
    assert_eq!(merged[0].bucket, 0);
    assert_eq!(merged[1], RealtimeBucket { bucket: 60, requests: 4, input_tokens: 40, output_tokens: 2, cache_read: 4, cache_creation: 6 });
    assert_eq!(merged[2].bucket, 120);
    assert!(merge_realtime_buckets(vec![]).is_empty());
}

#[test]
fn models_union_sorted() {
    let u = union_models(vec![vec!["b".to_string(), "a".to_string()], vec!["b".to_string(), "C".to_string()]]);
    assert_eq!(u, vec!["C", "a", "b"]);
}

#[test]
fn date_ranges_cover_all() {
    assert_eq!(merge_date_range(vec![]), DateRange { min: 0, max: 0 });
    assert_eq!(
        merge_date_range(vec![DateRange { min: 5, max: 9 }, DateRange { min: 3, max: 7 }, DateRange { min: 4, max: 12 }]),
        DateRange { min: 3, max: 12 }
    );
}

#[test]
fn db_type_is_told_by_its_tables() {
    assert_eq!(db_type_from_tables(true, true, true, true, true), Ok(DbType::ExternalDb));
    assert_eq!(db_type_from_tables(false, true, true, true, false), Ok(DbType::ZCode));
    assert_eq!(db_type_from_tables(false, true, false, true, false), Ok(DbType::OpenCode));
    assert_eq!(db_type_from_tables(false, false, false, false, true), Ok(DbType::AiProxy));
    assert_eq!(db_type_from_tables(false, true, false, false, false), Err("无法识别数据库类型".to_string()));
}
