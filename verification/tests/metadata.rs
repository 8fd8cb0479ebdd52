use ducklake::{check_writable_key, DucklakeError, DucklakeMetadata, DucklakePath, Metadata};

fn entry(key: &str, value: &str, scope: Option<&str>, scope_id: Option<i64>) -> DucklakeMetadata {
    DucklakeMetadata { key: key.to_string(), value: value.to_string(), scope: scope.map(str::to_string), scope_id }
}

#[test]
fn table_setting_overrides_schema_and_global() {
    let meta = Metadata::new(vec![
        entry("target_file_size", "100", None, None),
        entry("target_file_size", "200", Some("schema"), Some(1)),
        entry("target_file_size", "300", Some("table"), Some(7)),
    ]);
    assert_eq!(meta.get_key("target_file_size", Some(1), Some(7)).as_deref(), Some("300"));
    assert_eq!(meta.get_key("target_file_size", Some(1), Some(8)).as_deref(), Some("200"));
    assert_eq!(meta.get_key("target_file_size", Some(2), Some(8)).as_deref(), Some("100"));
    assert_eq!(meta.get_key("target_file_size", None, None).as_deref(), Some("100"));
    assert_eq!(meta.get_key("missing", Some(1), Some(7)), None);
}

#[test]
fn set_and_unset_settings() {
    let mut meta = Metadata::new(Vec::new());
    meta.set_global("k".to_string(), "g".to_string()).unwrap();
    meta.set_schema(1, "k".to_string(), "s".to_string()).unwrap();
    meta.set_table(2, "k".to_string(), "t".to_string()).unwrap();
    assert_eq!(meta.get_key("k", Some(1), Some(2)).as_deref(), Some("t"));
    meta.unset_table(2, "k").unwrap();
    assert_eq!(meta.get_key("k", Some(1), Some(2)).as_deref(), Some("s"));
    meta.unset_schema(1, "k").unwrap();
    assert_eq!(meta.get_key("k", Some(1), Some(2)).as_deref(), Some("g"));
    meta.unset_global("k").unwrap();
    assert_eq!(meta.get_key("k", Some(1), Some(2)), None);
}

#[test]
fn read_only_settings_are_refused_and_kept() {
    let mut meta = Metadata::new(Vec::new());
    meta.set_global("k".to_string(), "g".to_string()).unwrap();
    let err = meta.set_global("data_path".to_string(), "s3://x/".to_string()).unwrap_err();
    assert!(matches!(err, DucklakeError::ReadOnlyMetadata(k) if k == "data_path"));
    assert!(matches!(meta.set_schema(1, "version".to_string(), "9".to_string()), Err(DucklakeError::ReadOnlyMetadata(_))));
    assert!(matches!(meta.set_table(2, "encrypted".to_string(), "true".to_string()), Err(DucklakeError::ReadOnlyMetadata(_))));
    assert!(matches!(meta.unset_global("created_by"), Err(DucklakeError::ReadOnlyMetadata(_))));
    assert!(matches!(meta.unset_schema(1, "table"), Err(DucklakeError::ReadOnlyMetadata(_))));
    assert!(matches!(meta.unset_table(2, "data_path"), Err(DucklakeError::ReadOnlyMetadata(_))));
    assert_eq!(meta.get_key("data_path", Some(1), Some(2)), None);
    assert_eq!(meta.get_key("k", Some(1), Some(2)).as_deref(), Some("g"));
}

#[test]
fn table_settings_defaults() {
    let meta = Metadata::new(Vec::new());
    let s = meta.table_metadata(None, None);
    assert_eq!(s.data_inlining_row_limit, 10);
    assert_eq!(s.target_file_size, 536870912);
    assert_eq!(s.parquet_row_group_size_bytes, None);
    assert_eq!(s.parquet_row_group_size, 122880);
    assert_eq!(s.parquet_compression, "snappy");
    assert_eq!(s.parquet_compression_level, 3);
    assert_eq!(s.parquet_version, 1);
    assert!(s.hive_file_pattern);
    assert_eq!(s.rewrite_delete_threshold, None);
    assert!(s.auto_compact);
}

#[test]
fn table_settings_parse_values_and_fall_back_on_invalid() {
    let meta = Metadata::new(vec![
        entry("data_inlining_row_limit", "50", None, None),
        entry("target_file_size", "not a number", None, None),
        entry("parquet_compression", "zstd", Some("schema"), Some(3)),
        entry("parquet_compression_level", "-2", Some("table"), Some(4)),
        entry("hive_file_pattern", "false", None, None),
        entry("auto_compact", "yes", None, None),
        entry("parquet_row_group_size_bytes", "+1024", None, None),
        entry("rewrite_delete_threshold", "0.95", None, None),
    ]);
    let s = meta.table_metadata(Some(3), Some(4));
    assert_eq!(s.data_inlining_row_limit, 50);
    assert_eq!(s.target_file_size, 536870912);
    assert_eq!(s.parquet_compression, "zstd");
    assert_eq!(s.parquet_compression_level, -2);
    assert!(!s.hive_file_pattern);
    assert!(!s.auto_compact);
    assert_eq!(s.parquet_row_group_size_bytes, Some(1024));
    assert_eq!(s.rewrite_delete_threshold.as_deref(), Some("0.95"));
}

#[test]
fn read_only_keys_are_refused() {
    for key in ["version", "created_by", "table", "data_path", "encrypted"] {
        assert!(matches!(check_writable_key(key), Err(DucklakeError::ReadOnlyMetadata(k)) if k == key));
    }
    assert!(check_writable_key("target_file_size").is_ok());
}

#[test]
fn data_path_is_read_from_global_setting() {
    let meta = Metadata::new(vec![entry("data_path", "s3://bucket/data/", None, None)]);
    assert_eq!(meta.data_path(), DucklakePath::parse("s3://bucket/data/").unwrap());
    assert_eq!(meta.checked_data_path(), Some(DucklakePath::parse("s3://bucket/data/").unwrap()));
}
