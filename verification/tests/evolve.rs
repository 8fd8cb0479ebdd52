use ducklake::{
    allows_primitive_promotion, check_cast, check_nullability, column_fill, match_fields, Column, ColumnDefault, ColumnFill, DataType,
    Defaults, DucklakeError,
};

fn col(name: &str, field_id: Option<i64>) -> Column {
    Column {
        name: name.to_string(),
        dtype: DataType::Int64,
        nullable: true,
        tags: Vec::new(),
        initial_default: None,
        default_value: ColumnDefault::Literal(None),
        field_id,
    }
}

fn keys(ks: &[Option<&str>]) -> Vec<Option<String>> {
    ks.iter().map(|k| k.map(|s| s.to_string())).collect()
}

#[test]
fn data_file_columns_match_by_field_id_in_table_order() {
    let columns = vec![col("a", Some(1)), col("b", Some(2)), col("c", Some(3)), col("d", None)];
    let plan = match_fields(&keys(&[Some("3"), None, Some("1")]), &columns, Defaults::InitialDefault).unwrap();
    assert_eq!(plan.sources, vec![Some(2), None, Some(0), None]);
    assert!(!plan.unmatched_fields);
}

#[test]
fn negative_field_ids_are_written_with_a_sign() {
    let columns = vec![col("a", Some(-7))];
    let plan = match_fields(&keys(&[Some("7"), Some("-7")]), &columns, Defaults::InitialDefault).unwrap();
    assert_eq!(plan.sources, vec![Some(1)]);
    assert!(plan.unmatched_fields);
}

#[test]
fn inlined_columns_match_by_name_and_report_leftovers() {
    let columns = vec![col("x", Some(1)), col("y", Some(2))];
    let plan = match_fields(&keys(&[Some("y"), Some("z")]), &columns, Defaults::DefaultValue).unwrap();
    assert_eq!(plan.sources, vec![None, Some(0)]);
    assert!(plan.unmatched_fields);
    let plan = match_fields(&keys(&[Some("y"), Some("x")]), &columns, Defaults::DefaultValue).unwrap();
    assert_eq!(plan.sources, vec![Some(1), Some(0)]);
    assert!(!plan.unmatched_fields);
}

#[test]
fn a_source_column_feeds_one_table_column() {
    let columns = vec![col("x", None), col("x", None)];
    let plan = match_fields(&keys(&[Some("x")]), &columns, Defaults::DefaultValue).unwrap();
    assert_eq!(plan.sources, vec![Some(0), None]);
}

#[test]
fn repeated_source_keys_are_refused() {
    let columns = vec![col("x", None)];
    let err = match_fields(&keys(&[Some("a"), Some("b"), Some("b"), Some("a")]), &columns, Defaults::DefaultValue)
        .err()
        .unwrap();
    assert!(matches!(err, DucklakeError::SchemaError(m) if m == "duplicate field: b"));
}

#[test]
fn promotions_only_widen() {
    assert!(allows_primitive_promotion(&DataType::Int8, &DataType::Int64));
    assert!(allows_primitive_promotion(&DataType::UInt16, &DataType::UInt32));
    assert!(allows_primitive_promotion(&DataType::Float32, &DataType::Float64));
    assert!(allows_primitive_promotion(&DataType::Varchar, &DataType::Json));
    assert!(!allows_primitive_promotion(&DataType::Int64, &DataType::Int32));
    assert!(!allows_primitive_promotion(&DataType::UInt8, &DataType::Int16));
    assert!(!allows_primitive_promotion(&DataType::Int32, &DataType::Int32));
    assert!(!allows_primitive_promotion(&DataType::Json, &DataType::Varchar));
}

#[test]
fn nulls_in_required_columns_are_refused() {
    let mut required = col("r", None);
    required.nullable = false;
    let columns = vec![col("a", None), required];
    assert!(check_nullability(&columns, &[3, 0]).is_ok());
    let err = check_nullability(&columns, &[3, 1]).unwrap_err();
    assert!(matches!(err, DucklakeError::InvalidNullValue { column } if column == "r"));
}

#[test]
fn missing_columns_take_their_defaults() {
    let mut c = col("a", Some(1));
    assert_eq!(column_fill(&c, Defaults::InitialDefault).unwrap(), ColumnFill::Nulls);
    c.initial_default = Some("42".to_string());
    c.default_value = ColumnDefault::Literal(Some("7".to_string()));
    assert_eq!(column_fill(&c, Defaults::InitialDefault).unwrap(), ColumnFill::Value("42".to_string()));
    assert_eq!(column_fill(&c, Defaults::DefaultValue).unwrap(), ColumnFill::Value("7".to_string()));

    let mut s = col("s", Some(2));
    s.dtype = DataType::Struct(vec![col("f", Some(3))]);
    assert_eq!(column_fill(&s, Defaults::InitialDefault).unwrap(), ColumnFill::Fields);
    assert_eq!(column_fill(&s, Defaults::DefaultValue).unwrap(), ColumnFill::Nulls);

    let mut e = col("e", None);
    e.default_value = ColumnDefault::Expression { dialect: "duckdb".to_string(), expression: "now()".to_string() };
    let err = column_fill(&e, Defaults::DefaultValue).unwrap_err();
    assert!(matches!(err, DucklakeError::SchemaError(m) if m == "expression default for 'e' is unsupported"));
    assert_eq!(column_fill(&e, Defaults::InitialDefault).unwrap(), ColumnFill::Nulls);
}

#[test]
fn casts_keep_or_widen_the_type() {
    assert!(check_cast(DataType::Int32, DataType::Int32).is_ok());
    assert!(check_cast(DataType::Int32, DataType::Int64).is_ok());
    assert!(check_cast(
        DataType::Decimal { precision: 18, scale: 3 },
        DataType::Decimal { precision: 18, scale: 3 }
    )
    .is_ok());
    let err = check_cast(DataType::Decimal { precision: 18, scale: 3 }, DataType::Decimal { precision: 18, scale: 2 })
        .unwrap_err();
    assert!(matches!(
        err,
        DucklakeError::InvalidCast {
            old: DataType::Decimal { precision: 18, scale: 3 },
            new: DataType::Decimal { precision: 18, scale: 2 }
        }
    ));
    let err = check_cast(DataType::Int64, DataType::Struct(vec![col("f", None)])).unwrap_err();
    assert!(matches!(err, DucklakeError::InvalidCast { old: DataType::Int64, new: DataType::Struct(_) }));
}

#[test]
fn read_plan_matches_ids_and_preserves_target_order() {
    let mut z = col("z", Some(1));
    z.dtype = DataType::Int64;
    let mut b = col("b", Some(3));
    b.initial_default = Some("42".to_string());
    let targets = vec![z, b];
    let plan = match_fields(&keys(&[Some("1"), Some("2")]), &targets, Defaults::InitialDefault).unwrap();
    assert_eq!(plan.sources, vec![Some(0), None]);
    assert!(plan.unmatched_fields);
    assert!(check_cast(DataType::Int32, DataType::Int64).is_ok());
    assert_eq!(column_fill(&targets[1], Defaults::InitialDefault).unwrap(), ColumnFill::Value("42".to_string()));
}
