use ducklake::{
    literal_parses_as, parse_primitive_dtype, ArenaIdx, CatalogColumns, CatalogDataType, CatalogState, Column, ColumnDefault, DataType,
    DucklakeColumn, DucklakeColumnTag, DucklakeError, TimestampPrecision,
};

fn col(name: &str, dtype: DataType) -> Column {
    Column {
        name: name.to_string(),
        dtype,
        nullable: true,
        tags: Vec::new(),
        initial_default: None,
        default_value: ColumnDefault::Literal(None),
        field_id: None,
    }
}

fn row(column_id: i64, order: i64, name: &str, ty: &str, parent: Option<i64>) -> DucklakeColumn {
    DucklakeColumn {
        column_id,
        table_id: 1,
        column_order: order,
        column_name: name.to_string(),
        column_type: ty.to_string(),
        initial_default: None,
        default_value: None,
        default_value_type: None,
        default_value_dialect: None,
        nulls_allowed: true,
        parent_column: parent,
    }
}

#[test]
fn parse_primitive_types() {
    assert_eq!(parse_primitive_dtype("int64").unwrap(), DataType::Int64);
    assert_eq!(parse_primitive_dtype("timestamp_ms").unwrap(), DataType::Timestamp { precision: TimestampPrecision::Milliseconds });
    assert_eq!(parse_primitive_dtype("timestamp").unwrap(), DataType::Timestamp { precision: TimestampPrecision::Microseconds });
    assert_eq!(parse_primitive_dtype("decimal(18,3)").unwrap(), DataType::Decimal { precision: 18, scale: 3 });
    assert_eq!(parse_primitive_dtype("decimal(18, 3)").unwrap(), DataType::Decimal { precision: 18, scale: 3 });
    assert!(matches!(parse_primitive_dtype("decimal(300,1)"), Err(DucklakeError::InvalidDataType(_))));
    assert!(matches!(parse_primitive_dtype("decimal(18,3"), Err(DucklakeError::InvalidDataType(_))));
    assert!(matches!(parse_primitive_dtype("list"), Err(DucklakeError::InvalidDataType(s)) if s == "list"));
}

#[test]
fn from_schema_lays_out_in_pre_order() {
    let cols = CatalogColumns::from_schema(vec![
        col("a", DataType::MapOf(Box::new(col("key", DataType::Varchar)), Box::new(col("value", DataType::Int32)))),
        col("b", DataType::Boolean),
    ]);
    assert_eq!(cols.arena.len(), 4);
    assert!(matches!(cols.arena[0].dtype, CatalogDataType::MapOf(ArenaIdx(1), ArenaIdx(2))));
    assert_eq!(cols.arena[3].name, "b");
    assert_eq!(cols.root_column_indices().iter().map(|v| v.iter().map(|i| i.0).collect::<Vec<_>>()).collect::<Vec<_>>(), vec![
        vec![0, 1, 2],
        vec![3]
    ]);
    assert_eq!(cols.arena_idx_by_path(&["a".to_string(), "value".to_string()]).unwrap(), ArenaIdx(2));
    assert!(matches!(cols.arena_idx_by_path(&["a".to_string(), "nope".to_string()]), Err(DucklakeError::NotFound { .. })));
}

#[test]
fn add_rename_and_remove_columns() {
    let mut cols = CatalogColumns::new();
    let idxs = cols.add_column(None, col("s", DataType::Struct(vec![col("x", DataType::Int8)]))).unwrap();
    assert_eq!(idxs, vec![ArenaIdx(0), ArenaIdx(1)]);
    assert_eq!(cols.arena_idx_by_path(&["s".to_string()]).unwrap(), ArenaIdx(0));
    let added = cols.add_column(Some(ArenaIdx(0)), col("y", DataType::Varchar)).unwrap();
    assert_eq!(added, vec![ArenaIdx(2)]);
    assert!(matches!(cols.add_column(Some(ArenaIdx(0)), col("y", DataType::Varchar)), Err(DucklakeError::AlreadyExists { .. })));
    assert!(matches!(cols.rename_column(ArenaIdx(2), "x"), Err(DucklakeError::AlreadyExists { .. })));
    assert_eq!(cols.rename_column(ArenaIdx(2), "z").unwrap(), ArenaIdx(2));
    assert_eq!(cols.arena[2].name, "z");
    // Columns added in the same transaction cannot be deleted.
    assert!(matches!(cols.remove_column(ArenaIdx(0)), Err(DucklakeError::InvalidChanges(_))));
}

#[test]
fn columns_from_ducklake_rows() {
    let rows = vec![
        row(10, 1, "s", "struct", None),
        row(11, 3, "y", "varchar", Some(10)),
        row(12, 2, "x", "int32", Some(10)),
        row(9, 0, "id", "int64", None),
    ];
    let tags = vec![DucklakeColumnTag { table_id: 1, column_id: 9, key: "k".to_string(), value: "v".to_string() }];
    let cols = CatalogColumns::from_ducklake(rows, tags).unwrap();
    let names: Vec<&str> = cols.arena.iter().map(|c| c.name.as_str()).collect();
    assert_eq!(names, ["id", "s", "x", "y"]);
    assert!(matches!(cols.arena[0].state, CatalogState::Existing { id: 9 }));
    assert_eq!(cols.arena[0].tags.len(), 1);
    assert_eq!(cols.by_id.get(&11), Some(&ArenaIdx(3)));
    assert_eq!(cols.by_id.get(&12), Some(&ArenaIdx(2)));
    let mut removable = CatalogColumns::from_ducklake(vec![row(1, 0, "a", "int64", None)], Vec::new()).unwrap();
    assert_eq!(removable.remove_column(ArenaIdx(0)).unwrap(), vec![ArenaIdx(0)]);
    assert!(matches!(removable.arena[0].state, CatalogState::Deleted { id: 1 }));
    assert!(removable.by_id.get(&1).is_none());
    assert!(removable.schema_column_from_arena_index(ArenaIdx(0)).is_none());
    let s = cols.schema_column_from_arena_index(ArenaIdx(1)).unwrap();
    assert_eq!(s.name, "s");
    match s.dtype {
        DataType::Struct(fields) => {
            assert_eq!(fields.iter().map(|f| f.name.as_str()).collect::<Vec<_>>(), ["x", "y"]);
            assert_eq!(fields[0].dtype, DataType::Int32);
        }
        other => panic!("unexpected type {other:?}"),
    }
}

#[test]
fn columns_from_ducklake_reject_unknown_type() {
    let rows = vec![row(1, 0, "a", "int4", None)];
    assert!(matches!(CatalogColumns::from_ducklake(rows, Vec::new()), Err(DucklakeError::InvalidDataType(_))));
}

#[test]
fn columns_from_ducklake_reject_defaults_that_cannot_apply() {
    let mut nested = row(1, 0, "s", "struct", None);
    nested.initial_default = Some("x".to_string());
    let child = row(2, 0, "f", "int32", Some(1));
    let err = CatalogColumns::from_ducklake(vec![nested, child], Vec::new()).unwrap_err();
    assert!(matches!(err, DucklakeError::InvalidDefault { column, .. } if column == "s"));

    let mut expr = row(1, 0, "a", "int32", None);
    expr.default_value_type = Some("expression".to_string());
    let err = CatalogColumns::from_ducklake(vec![expr], Vec::new()).unwrap_err();
    assert!(matches!(err, DucklakeError::InvalidDefault { .. }));
}

#[test]
fn columns_from_ducklake_parse_literal_defaults_by_type() {
    let mut a = row(1, 0, "a", "int32", None);
    a.initial_default = Some("abc".to_string());
    let err = CatalogColumns::from_ducklake(vec![a], Vec::new()).unwrap_err();
    assert!(matches!(err, DucklakeError::Parsing(_)));

    let mut b = row(1, 0, "b", "int8", None);
    b.default_value_type = Some("literal".to_string());
    b.default_value = Some("300".to_string());
    assert!(matches!(CatalogColumns::from_ducklake(vec![b], Vec::new()), Err(DucklakeError::Parsing(_))));

    let mut c = row(1, 0, "c", "boolean", None);
    c.initial_default = Some("yes".to_string());
    assert!(matches!(CatalogColumns::from_ducklake(vec![c], Vec::new()), Err(DucklakeError::Parsing(_))));

    let mut d = row(1, 0, "d", "uint16", None);
    d.initial_default = Some("65535".to_string());
    d.default_value_type = Some("literal".to_string());
    d.default_value = Some("+7".to_string());
    let cols = CatalogColumns::from_ducklake(vec![d], Vec::new()).unwrap();
    let col = cols.schema_column_from_arena_index(ArenaIdx(0)).unwrap();
    assert_eq!(col.initial_default.as_deref(), Some("65535"));
    assert_eq!(col.default_value, ColumnDefault::Literal(Some("+7".to_string())));

    let mut e = row(1, 0, "e", "varchar", None);
    e.initial_default = Some("anything at all".to_string());
    assert!(CatalogColumns::from_ducklake(vec![e], Vec::new()).is_ok());
}

#[test]
fn literal_text_is_read_by_type() {
    assert!(literal_parses_as(&DataType::Boolean, "true"));
    assert!(!literal_parses_as(&DataType::Boolean, "True"));
    assert!(literal_parses_as(&DataType::Int8, "-128"));
    assert!(!literal_parses_as(&DataType::Int8, "128"));
    assert!(literal_parses_as(&DataType::Int32, "2147483647"));
    assert!(!literal_parses_as(&DataType::Int32, " 1"));
    assert!(literal_parses_as(&DataType::Int128, "-170141183460469231731687303715884105728"));
    assert!(!literal_parses_as(&DataType::UInt8, "-0"));
    assert!(literal_parses_as(&DataType::UInt64, "18446744073709551615"));
    assert!(!literal_parses_as(&DataType::UInt64, "18446744073709551616"));
    assert!(literal_parses_as(&DataType::UInt128, "340282366920938463463374607431768211455"));
    assert!(literal_parses_as(&DataType::Uuid, "67e55044-10b1-426f-9247-bb680e5fe0c8"));
    assert!(!literal_parses_as(&DataType::Uuid, "67e55044-10b1-426f-9247"));
    assert!(literal_parses_as(&DataType::Varchar, "x"));
}

#[test]
fn repeated_struct_field_names_the_field() {
    let s = row(1, 0, "s", "struct", None);
    let a = row(2, 1, "x", "int32", Some(1));
    let b = row(3, 2, "y", "int32", Some(1));
    let c = row(4, 3, "x", "varchar", Some(1));
    let err = CatalogColumns::from_ducklake(vec![s, a, b, c], Vec::new()).unwrap_err();
    assert!(matches!(err, DucklakeError::AlreadyExists { entity: "column", name } if name == "x"));
}
