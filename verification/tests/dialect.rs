use ducklake::{postgres, sqlite, DataType, Dialect, DucklakeError, SqlColumnType, SqlDefault};

fn db_error(code: &str, message: &str) -> DucklakeError {
    DucklakeError::Database { code: Some(code.to_string()), message: message.to_string() }
}

#[test]
fn inlined_column_types() {
    assert_eq!(postgres::column_type_for_data_type(&DataType::Int16), SqlColumnType::SmallInteger);
    assert_eq!(postgres::column_type_for_data_type(&DataType::UInt32), SqlColumnType::BigInteger);
    assert_eq!(postgres::column_type_for_data_type(&DataType::Varchar), SqlColumnType::Blob);
    assert_eq!(postgres::column_type_for_data_type(&DataType::TimeTz), SqlColumnType::Custom("TIMETZ".to_string()));
    assert_eq!(
        postgres::column_type_for_data_type(&DataType::Decimal { precision: 10, scale: 2 }),
        SqlColumnType::Decimal(10, 2)
    );
    assert_eq!(sqlite::column_type_for_data_type(&DataType::Int64), SqlColumnType::Custom("bigint".to_string()));
    assert_eq!(sqlite::column_type_for_data_type(&DataType::Blob), SqlColumnType::Blob);
    assert_eq!(sqlite::column_type_for_data_type(&DataType::Float64), SqlColumnType::String);
    assert_eq!(Dialect::Sqlite.column_type_for_data_inlining(&DataType::Boolean), SqlColumnType::Custom("bigint".to_string()));
    assert_eq!(Dialect::Postgres.column_type_for_data_inlining(&DataType::Uuid), SqlColumnType::Uuid);
}

#[test]
fn catalog_column_types_per_dialect() {
    assert_eq!(Dialect::MySql.column_type_string(), SqlColumnType::Text);
    assert_eq!(Dialect::Sqlite.column_type_string(), SqlColumnType::String);
    assert_eq!(Dialect::Postgres.column_type_i64(), SqlColumnType::BigInteger);
    assert_eq!(Dialect::Sqlite.column_type_bool(), SqlColumnType::Custom("bigint".to_string()));
    assert_eq!(Dialect::Sqlite.column_type_date_time_with_time_zone(), SqlColumnType::String);
    assert_eq!(Dialect::MySql.column_type_date_time_with_time_zone(), SqlColumnType::TimestampWithTimeZone);
    assert_eq!(Dialect::MySql.column_type_uuid(), SqlColumnType::Text);
    assert_eq!(Dialect::Postgres.column_type_uuid(), SqlColumnType::Uuid);
}

#[test]
fn string_defaults_are_quoted_on_mysql() {
    assert_eq!(Dialect::MySql.default_value_string("it's"), SqlDefault::Custom("'it''s'".to_string()));
    assert_eq!(Dialect::Postgres.default_value_string("it's"), SqlDefault::Value("it's".to_string()));
}

#[test]
fn table_errors_are_recognized_by_code() {
    assert!(Dialect::Postgres.is_table_not_found_error(&db_error("42P01", "relation does not exist")));
    assert!(Dialect::MySql.is_table_not_found_error(&db_error("42S02", "")));
    assert!(Dialect::Sqlite.is_table_not_found_error(&db_error("1", "no such table: ducklake_snapshot")));
    assert!(!Dialect::Sqlite.is_table_not_found_error(&db_error("1", "syntax error")));
    assert!(!Dialect::Postgres.is_table_not_found_error(&DucklakeError::Database { code: None, message: String::new() }));
    assert!(Dialect::Postgres.is_table_already_exists_error(&db_error("42P07", "")));
    assert!(Dialect::MySql.is_table_already_exists_error(&db_error("42S01", "")));
    assert!(Dialect::Sqlite.is_table_already_exists_error(&db_error("1", "table t already exists")));
    assert!(!Dialect::Postgres.is_table_already_exists_error(&db_error("42P01", "")));
}
