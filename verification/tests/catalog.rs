use ducklake::{
    DucklakeTableColumnStats, DucklakeTableStats, TableStats, Value,
    Catalog, CatalogRows, CatalogState, Column, ColumnDefault, DataType, DucklakeColumn, DucklakeError, DucklakePartitionColumn,
    DucklakePartitionInfo, DucklakePath, DucklakeSchema, DucklakeTable, DucklakeTag, Partition, PartitionColumn,
    PartitionTransform, TableInfo, TableName, Tag,
};

fn col(name: &str, dtype: DataType) -> Column {
    Column {
        name: name.to_string(),
        dtype,
        nullable: true,
        tags: Vec::new(),
        initial_default: None,
        default_value: ColumnDefault::Literal(None),
        field_id: None,
    }
}

fn name(schema: &str, table: &str) -> TableName {
    TableName { schema: schema.to_string(), name: table.to_string() }
}

fn catalog_with_schema() -> Catalog {
    let mut catalog = Catalog::new();
    catalog.add_schema("main", DucklakePath::Relative("main/".to_string())).unwrap();
    catalog
}

#[test]
fn add_schema_refuses_duplicates() {
    let mut catalog = catalog_with_schema();
    let err = catalog.add_schema("main", DucklakePath::default()).unwrap_err();
    assert!(matches!(err, DucklakeError::AlreadyExists { entity: "schema", name } if name == "main"));
    assert_eq!(catalog.list_schemas().len(), 1);
}

#[test]
fn add_table_lays_out_columns_and_returns_references() {
    let mut catalog = catalog_with_schema();
    let info = TableInfo {
        name: name("main", "t"),
        schema: vec![
            col("a", DataType::Int64),
            col("s", DataType::Struct(vec![col("x", DataType::Varchar), col("y", DataType::Boolean)])),
            col("l", DataType::List(Box::new(col("element", DataType::Int32)))),
        ],
        partitioning: Some(Partition(vec![PartitionColumn { column: "a".to_string(), transform: PartitionTransform::Identity }])),
        tags: vec![Tag { key: "k".to_string(), value: "v".to_string() }],
    };
    let (schema_ref, table_ref, column_refs, partition_refs) =
        catalog.add_table(info, DucklakePath::Relative("main/t/".to_string())).unwrap();
    assert_eq!(schema_ref.0 .0, 0);
    assert_eq!(table_ref.0 .0, 0);
    let idxs: Vec<Vec<usize>> = column_refs.iter().map(|c| c.iter().map(|r| r.column_idx.0).collect()).collect();
    assert_eq!(idxs, vec![vec![0], vec![1, 2, 3], vec![4, 5]]);
    assert!(column_refs.iter().flatten().all(|r| r.table_ref == table_ref));
    let partition_refs = partition_refs.unwrap();
    assert_eq!(partition_refs.len(), 1);
    assert_eq!(partition_refs[0].column_idx.0, 0);

    let table = catalog.table(&name("main", "t")).unwrap();
    assert_eq!(table.id, None);
    assert_eq!(table.columns.arena.len(), 6);
    assert_eq!(table.columns.arena[2].name, "x");
    assert_eq!(table.columns.arena[2].parent_column.map(|p| p.0), Some(1));
    assert!(matches!(table.columns.arena[0].state, CatalogState::Pending));
    assert_eq!(table.tags.len(), 1);
    assert_eq!(table.path, DucklakePath::Relative("main/t/".to_string()));
}

#[test]
fn add_table_refuses_existing_table() {
    let mut catalog = catalog_with_schema();
    let info = || TableInfo { name: name("main", "t"), schema: vec![col("a", DataType::Int64)], partitioning: None, tags: Vec::new() };
    catalog.add_table(info(), DucklakePath::default()).unwrap();
    let err = catalog.add_table(info(), DucklakePath::default()).unwrap_err();
    assert!(matches!(err, DucklakeError::AlreadyExists { entity: "table", name } if name == "main.t"));
}

#[test]
fn add_table_refuses_unknown_partition_column() {
    let mut catalog = catalog_with_schema();
    let info = TableInfo {
        name: name("main", "t"),
        schema: vec![col("a", DataType::Int64)],
        partitioning: Some(Partition(vec![PartitionColumn { column: "b".to_string(), transform: PartitionTransform::Year }])),
        tags: Vec::new(),
    };
    let err = catalog.add_table(info, DucklakePath::default()).unwrap_err();
    assert!(matches!(err, DucklakeError::NotFound { entity: "column", .. }));
    assert!(catalog.table(&name("main", "t")).is_err());
}

#[test]
fn add_table_refuses_unknown_schema() {
    let mut catalog = catalog_with_schema();
    let info = TableInfo { name: name("other", "t"), schema: vec![col("a", DataType::Int64)], partitioning: None, tags: Vec::new() };
    let err = catalog.add_table(info, DucklakePath::default()).unwrap_err();
    assert!(matches!(err, DucklakeError::NotFound { entity: "schema", name } if name == "other"));
}

#[test]
fn rename_and_delete() {
    let mut catalog = catalog_with_schema();
    let info = TableInfo { name: name("main", "t"), schema: vec![col("a", DataType::Int64)], partitioning: None, tags: Vec::new() };
    let (schema_ref, table_ref, _, _) = catalog.add_table(info, DucklakePath::default()).unwrap();
    catalog.rename_table(table_ref, "u").unwrap();
    assert!(catalog.table(&name("main", "t")).is_err());
    assert_eq!(catalog.table(&name("main", "u")).unwrap().name.name, "u");
    assert!(matches!(catalog.delete_schema(schema_ref), Err(DucklakeError::InvalidChanges(_))));
}

#[test]
fn table_tags_are_upserted_and_removed() {
    let mut catalog = catalog_with_schema();
    let info = TableInfo { name: name("main", "t"), schema: vec![col("a", DataType::Int64)], partitioning: None, tags: Vec::new() };
    let (_, table_ref, _, _) = catalog.add_table(info, DucklakePath::default()).unwrap();
    catalog.add_table_tag(table_ref, Tag { key: "k".to_string(), value: "1".to_string() });
    catalog.add_table_tag(table_ref, Tag { key: "k".to_string(), value: "2".to_string() });
    assert_eq!(catalog.table(table_ref).unwrap().tags, vec![Tag { key: "k".to_string(), value: "2".to_string() }]);
    catalog.remove_table_tag(table_ref, "k").unwrap();
    assert!(catalog.table(table_ref).unwrap().tags.is_empty());
    assert!(matches!(catalog.remove_table_tag(table_ref, "k"), Err(DucklakeError::NotFound { .. })));
}

fn column_row(column_id: i64, table_id: i64, order: i64, name: &str, ty: &str, parent: Option<i64>) -> DucklakeColumn {
    DucklakeColumn {
        column_id,
        table_id,
        column_order: order,
        column_name: name.to_string(),
        column_type: ty.to_string(),
        initial_default: None,
        default_value: None,
        default_value_type: None,
        default_value_dialect: None,
        nulls_allowed: true,
        parent_column: parent,
    }
}

#[test]
fn catalog_from_rows() {
    let rows = CatalogRows {
        schemas: vec![DucklakeSchema { schema_id: 0, schema_name: "main".to_string(), path: String::new(), path_is_relative: true }],
        tables: vec![DucklakeTable { table_id: 1, schema_id: 0, table_name: "t".to_string(), path: String::new(), path_is_relative: true }],
        columns: vec![
            column_row(3, 1, 1, "b", "varchar", None),
            column_row(2, 1, 0, "a", "int64", None),
        ],
        tags: vec![DucklakeTag { object_id: 1, key: "owner".to_string(), value: "me".to_string() }],
        column_tags: Vec::new(),
        partition_infos: vec![DucklakePartitionInfo { partition_id: 9, table_id: 1 }],
        partition_columns: vec![DucklakePartitionColumn {
            partition_id: 9,
            table_id: 1,
            partition_key_index: 0,
            column_id: 3,
            transform: "identity".to_string(),
        }],
    };
    let catalog = Catalog::from_rows(rows).unwrap();
    let table = catalog.table(1_i64).unwrap();
    assert_eq!(table.id, Some(1));
    assert_eq!(table.name, name("main", "t"));
    assert_eq!(table.path, DucklakePath::Relative("t/".to_string()));
    let names: Vec<&str> = table.columns.arena.iter().map(|c| c.name.as_str()).collect();
    assert_eq!(names, ["a", "b"]);
    assert_eq!(table.tags, vec![Tag { key: "owner".to_string(), value: "me".to_string() }]);
    let partition = table.partition.as_ref().unwrap();
    assert_eq!(partition.id, Some(9));
    assert_eq!(partition.columns[0].column.0, 1);
    assert_eq!(catalog.schema("main").unwrap().id, Some(0));
}

#[test]
fn catalog_from_rows_rejects_bad_partition_transform() {
    let rows = CatalogRows {
        schemas: vec![DucklakeSchema { schema_id: 0, schema_name: "main".to_string(), path: "main/".to_string(), path_is_relative: true }],
        tables: vec![DucklakeTable { table_id: 1, schema_id: 0, table_name: "t".to_string(), path: "t/".to_string(), path_is_relative: true }],
        columns: vec![column_row(2, 1, 0, "a", "int64", None)],
        tags: Vec::new(),
        column_tags: Vec::new(),
        partition_infos: vec![DucklakePartitionInfo { partition_id: 9, table_id: 1 }],
        partition_columns: vec![DucklakePartitionColumn {
            partition_id: 9,
            table_id: 1,
            partition_key_index: 0,
            column_id: 2,
            transform: "bucket".to_string(),
        }],
    };
    assert!(matches!(Catalog::from_rows(rows), Err(DucklakeError::InvalidPartitionTransform(t)) if t == "bucket"));
}

fn one_table_rows(infos: Vec<DucklakePartitionInfo>, partition_columns: Vec<DucklakePartitionColumn>) -> CatalogRows {
    CatalogRows {
        schemas: vec![DucklakeSchema { schema_id: 0, schema_name: "main".to_string(), path: "main/".to_string(), path_is_relative: true }],
        tables: vec![DucklakeTable { table_id: 1, schema_id: 0, table_name: "t".to_string(), path: "t/".to_string(), path_is_relative: true }],
        columns: vec![column_row(2, 1, 0, "a", "int64", None)],
        tags: Vec::new(),
        column_tags: Vec::new(),
        partition_infos: infos,
        partition_columns,
    }
}

#[test]
fn catalog_from_rows_rejects_two_partition_infos() {
    let rows = one_table_rows(
        vec![DucklakePartitionInfo { partition_id: 1, table_id: 1 }, DucklakePartitionInfo { partition_id: 2, table_id: 1 }],
        Vec::new(),
    );
    assert!(matches!(Catalog::from_rows(rows), Err(DucklakeError::InvalidPartitions(_))));
}

#[test]
fn catalog_from_rows_rejects_partition_without_columns() {
    let rows = one_table_rows(
        vec![DucklakePartitionInfo { partition_id: 1, table_id: 1 }],
        vec![DucklakePartitionColumn { partition_id: 2, table_id: 1, partition_key_index: 0, column_id: 2, transform: "year".to_string() }],
    );
    assert!(matches!(Catalog::from_rows(rows), Err(DucklakeError::InvalidPartitions(_))));
}

#[test]
fn catalog_from_rows_orders_partition_columns_by_key() {
    let mut rows = one_table_rows(
        vec![DucklakePartitionInfo { partition_id: 1, table_id: 1 }],
        vec![
            DucklakePartitionColumn { partition_id: 1, table_id: 1, partition_key_index: 1, column_id: 2, transform: "year".to_string() },
            DucklakePartitionColumn { partition_id: 1, table_id: 1, partition_key_index: 0, column_id: 3, transform: "day".to_string() },
        ],
    );
    rows.columns.push(column_row(3, 1, 1, "b", "date", None));
    let catalog = Catalog::from_rows(rows).unwrap();
    let partition = catalog.table(1_i64).unwrap().partition.as_ref().unwrap();
    assert_eq!(partition.columns.iter().map(|c| (c.column.0, c.transform)).collect::<Vec<_>>(), vec![
        (1, PartitionTransform::Day),
        (0, PartitionTransform::Year)
    ]);
}

#[test]
fn catalog_from_rows_rejects_unknown_partition_column() {
    let rows = one_table_rows(
        vec![DucklakePartitionInfo { partition_id: 1, table_id: 1 }],
        vec![DucklakePartitionColumn { partition_id: 1, table_id: 1, partition_key_index: 0, column_id: 99, transform: "identity".to_string() }],
    );
    assert!(matches!(Catalog::from_rows(rows), Err(DucklakeError::ColumnNotFound { id: 99 })));
}

fn loaded_catalog() -> Catalog {
    let rows = CatalogRows {
        schemas: vec![DucklakeSchema { schema_id: 0, schema_name: "main".to_string(), path: "main/".to_string(), path_is_relative: true }],
        tables: vec![DucklakeTable { table_id: 1, schema_id: 0, table_name: "t".to_string(), path: "t/".to_string(), path_is_relative: true }],
        columns: vec![
            column_row(2, 1, 0, "a", "int64", None),
            column_row(3, 1, 1, "s", "struct", None),
            column_row(4, 1, 2, "x", "varchar", Some(3)),
        ],
        tags: Vec::new(),
        column_tags: Vec::new(),
        partition_infos: Vec::new(),
        partition_columns: Vec::new(),
    };
    Catalog::from_rows(rows).unwrap()
}

#[test]
fn table_columns_are_added_renamed_and_removed() {
    let mut catalog = loaded_catalog();
    let t = catalog.table(1_i64).unwrap();
    assert_eq!(t.columns.arena.len(), 3);
    let table_ref = ducklake::TableRef::mock(0);
    let (parent, refs) = catalog.add_table_column(table_ref, &["s".to_string()], col("y", DataType::Boolean)).unwrap();
    assert_eq!(parent.unwrap().column_idx.0, 1);
    assert_eq!(refs.len(), 1);
    assert_eq!(refs[0].column_idx.0, 3);
    assert!(matches!(
        catalog.add_table_column(table_ref, &["nope".to_string()], col("y", DataType::Boolean)),
        Err(DucklakeError::NotFound { entity: "column", .. })
    ));
    assert!(matches!(
        catalog.add_table_column(table_ref, &[], col("a", DataType::Boolean)),
        Err(DucklakeError::AlreadyExists { entity: "column", .. })
    ));
    catalog.rename_table_column(table_ref, ducklake::ArenaIdx(0), "b").unwrap();
    assert_eq!(catalog.table(table_ref).unwrap().columns.arena[0].name, "b");
    let removed = catalog.remove_table_column(table_ref, ducklake::ArenaIdx(0)).unwrap();
    assert_eq!(removed.iter().map(|r| r.column_idx.0).collect::<Vec<_>>(), vec![0]);
    let info = catalog.table_info(table_ref);
    assert_eq!(info.name, name("main", "t"));
    assert_eq!(info.schema.iter().map(|c| c.name.as_str()).collect::<Vec<_>>(), ["s"]);
    match &info.schema[0].dtype {
        DataType::Struct(fields) => assert_eq!(fields.iter().map(|f| f.name.as_str()).collect::<Vec<_>>(), ["x", "y"]),
        other => panic!("unexpected type {other:?}"),
    }
}

#[test]
fn partitioned_column_cannot_be_removed() {
    let mut catalog = loaded_catalog();
    let table_ref = ducklake::TableRef::mock(0);
    let refs = catalog
        .update_table_partitioning(
            table_ref,
            Some(Partition(vec![PartitionColumn { column: "a".to_string(), transform: PartitionTransform::Month }])),
        )
        .unwrap()
        .unwrap();
    assert_eq!(refs[0].column_idx.0, 0);
    assert!(matches!(catalog.remove_table_column(table_ref, ducklake::ArenaIdx(0)), Err(DucklakeError::InvalidChanges(_))));
    catalog.resolve_table_partition_id(table_ref, 77);
    assert_eq!(catalog.table(table_ref).unwrap().partition.as_ref().unwrap().id, Some(77));
    let info = catalog.table_info(table_ref);
    let partitioning = info.partitioning.unwrap();
    assert_eq!(partitioning.0[0].column, "a");
    assert_eq!(partitioning.0[0].transform, PartitionTransform::Month);
    assert!(matches!(
        catalog.update_table_partitioning(
            table_ref,
            Some(Partition(vec![PartitionColumn { column: "zzz".to_string(), transform: PartitionTransform::Month }]))
        ),
        Err(DucklakeError::NotFound { .. })
    ));
    assert!(catalog.table(table_ref).unwrap().partition.is_some());
    assert!(catalog.update_table_partitioning(table_ref, None).unwrap().is_none());
    assert!(catalog.table(table_ref).unwrap().partition.is_none());
}

#[test]
fn column_data_types_by_id() {
    let catalog = loaded_catalog();
    let types = catalog.column_data_types(ducklake::TableRef::mock(0));
    assert_eq!(types.get(&2), Some(&DataType::Int64));
    assert_eq!(types.get(&4), Some(&DataType::Varchar));
    assert!(matches!(types.get(&3), Some(DataType::Struct(fields)) if fields.len() == 1));
    assert_eq!(types.len(), 3);
}

#[test]
fn deleted_table_is_no_longer_found() {
    let mut catalog = loaded_catalog();
    let schema = catalog.schema("main").unwrap();
    assert_eq!(schema.tables.len(), 1);
    let schema_ref = catalog.list_schemas()[0];
    assert_eq!(catalog.list_tables(schema_ref).len(), 1);
    catalog.delete_table(ducklake::TableRef::mock(0));
    assert!(catalog.table(&name("main", "t")).is_err());
    assert!(catalog.table(1_i64).is_err());
    assert!(catalog.list_tables(schema_ref).is_empty());
    catalog.delete_schema(schema_ref).unwrap();
    assert!(catalog.schema("main").is_err());
}

#[test]
fn unknown_table_id_is_entity_not_found() {
    let catalog = loaded_catalog();
    assert!(matches!(catalog.table(99_i64), Err(DucklakeError::EntityNotFound { id: 99 })));
}

#[test]
fn table_statistics_load_from_their_rows() {
    let catalog = loaded_catalog();
    let tables = vec![
        DucklakeTableStats { table_id: 1, record_count: Some(5), next_row_id: 5, file_size_bytes: Some(100) },
        DucklakeTableStats { table_id: 1, record_count: Some(7), next_row_id: 9, file_size_bytes: Some(120) },
    ];
    let column = |id: i64, min: i64| DucklakeTableColumnStats {
        table_id: 1,
        column_id: id,
        contains_null: Some(false),
        contains_nan: None,
        min_value: Some(Value::Int64(min)),
        max_value: None,
    };
    let columns = vec![column(2, 1), column(2, -3)];
    let stats = TableStats::load_all(&catalog, &tables, &columns).unwrap();
    let t = stats.get(&1).unwrap();
    assert_eq!(t.next_row_id(), 9);
    assert_eq!(t.record_count(), Some(7));
    assert!(t.is_persisted());
    let c = t.column_stats(2).unwrap();
    assert!(matches!(c.min_value(), Some(Value::Int64(-3))));
    assert!(c.is_persisted());
    assert!(t.column_stats(4).is_none());

    let unknown = vec![DucklakeTableStats { table_id: 8, record_count: None, next_row_id: 0, file_size_bytes: None }];
    assert!(matches!(TableStats::load_all(&catalog, &unknown, &Vec::new()), Err(DucklakeError::EntityNotFound { id: 8 })));
}
