use std::collections::HashMap;

use ducklake::{ColumnStats, TableStats, TableStatsCache, Value};

#[test]
fn column_stats_merge_flags_and_bounds() {
    let mut s = ColumnStats::default();
    assert_eq!(s.contains_null(), Some(false));
    s.update_contains_null(Some(false));
    assert_eq!(s.contains_null(), Some(false));
    s.update_contains_null(Some(true));
    assert_eq!(s.contains_null(), Some(true));
    s.update_contains_nan(None);
    assert_eq!(s.contains_nan(), None);
    s.update_contains_nan(Some(true));
    assert_eq!(s.contains_nan(), Some(true));

    s.update_min_value(Some(&Value::Int32(5)));
    s.update_min_value(Some(&Value::Int32(3)));
    s.update_min_value(Some(&Value::Int32(4)));
    assert!(matches!(s.min_value(), Some(Value::Int32(3))));
    s.update_max_value(Some(&Value::Int32(3)));
    s.update_max_value(Some(&Value::Int32(9)));
    s.update_max_value(None);
    assert!(matches!(s.max_value(), Some(Value::Int32(9))));

    // Values of different kinds cannot be compared: the bound is dropped.
    s.update_min_value(Some(&Value::Varchar("a".to_string())));
    assert!(s.min_value().is_none());
}

#[test]
fn string_bounds_compare_by_text() {
    let mut s = ColumnStats::default();
    for v in ["banana", "apple", "cherry"] {
        s.update_min_value(Some(&Value::Varchar(v.to_string())));
        s.update_max_value(Some(&Value::Varchar(v.to_string())));
    }
    assert!(matches!(s.min_value(), Some(Value::Varchar(v)) if v == "apple"));
    assert!(matches!(s.max_value(), Some(Value::Varchar(v)) if v == "cherry"));
}

#[test]
fn table_stats_accumulate() {
    let mut t = TableStats::default();
    assert_eq!(t.next_row_id(), 0);
    assert_eq!(t.record_count(), Some(0));
    t.advance_row_id(10);
    t.add_record_count(10);
    t.add_record_count(5);
    t.add_file_size_bytes(None);
    assert_eq!(t.file_size_bytes(), Some(0));
    t.add_file_size_bytes(Some(100));
    assert_eq!(t.next_row_id(), 10);
    assert_eq!(t.record_count(), Some(15));
    assert_eq!(t.file_size_bytes(), Some(100));
    assert!(t.column_stats(1).is_none());
    t.column_stats_mut(1).update_contains_null(Some(true));
    assert_eq!(t.column_stats(1).unwrap().contains_null(), Some(true));
    assert!(!t.is_persisted());
    t.set_persisted();
    assert!(t.is_persisted());
}

#[test]
fn stats_cache_returns_what_was_inserted() {
    let mut cache = TableStatsCache::new();
    assert!(cache.get(3).is_none());
    let mut stats = HashMap::new();
    stats.insert(7, TableStats::persisted(42, Some(1), None));
    cache.insert(3, stats);
    let got = cache.get(3).unwrap();
    assert_eq!(got.get(&7).unwrap().next_row_id(), 42);
    assert!(cache.get(4).is_none());
}

#[test]
fn repeated_min_updates_keep_the_least_value_and_its_width() {
    let mut c = ColumnStats::default();
    c.update_min_value(Some(&Value::Int32(3)));
    assert!(matches!(c.min_value(), Some(Value::Int32(3))));
    c.update_min_value(Some(&Value::Int32(1)));
    assert!(matches!(c.min_value(), Some(Value::Int32(1))));
    c.update_min_value(Some(&Value::Int32(5)));
    assert!(matches!(c.min_value(), Some(Value::Int32(1))));
    c.update_min_value(None);
    assert!(matches!(c.min_value(), Some(Value::Int32(1))));
    assert!(c.max_value().is_none());
}
