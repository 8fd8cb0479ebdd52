use ducklake::{batch_queries, Dialect, DucklakeError};
use sea_query::{Expr, Query, SqliteQueryBuilder, Values};

fn build(query: sea_query::SelectStatement) -> ((String, Values), usize) {
    let (sql, values) = query.build(SqliteQueryBuilder);
    let n = values.0.len();
    ((sql, values), n)
}

#[test]
fn empty_input_does_not_build_a_query() {
    let items: [i64; 0] = [];
    let batches = batch_queries(Dialect::Sqlite, &items, 256, |_: &[i64]| -> ((String, Values), usize) {
        panic!("empty input must not build a query")
    });
    assert!(batches.is_empty());
}

#[test]
fn batches_preserve_items_and_bound_expression_depth() {
    let items: Vec<i64> = (0..513).collect();
    let batches: Vec<Vec<sea_query::Value>> = batch_queries(Dialect::Sqlite, &items, 256, |items: &[i64]| {
        build(Query::select().exprs(items.iter().copied().map(Expr::val)).to_owned())
    })
    .into_iter()
    .map(|query| query.unwrap().1 .0)
    .collect();

    assert_eq!(batches.iter().map(Vec::len).collect::<Vec<_>>(), [256, 256, 1]);
    assert_eq!(
        batches.into_iter().flatten().collect::<Vec<_>>(),
        items.into_iter().map(sea_query::Value::from).collect::<Vec<_>>()
    );
}

#[test]
fn batches_respect_actual_parameter_counts() {
    let items = [1_i64, 2, 3];
    let batches: Vec<Vec<sea_query::Value>> = batch_queries(Dialect::Sqlite, &items, 256, |items: &[i64]| {
        build(
            Query::select()
                .expr(Expr::val(99_i64))
                .exprs(items.iter().flat_map(|&item| std::iter::repeat_n(Expr::val(item), 16_000)))
                .to_owned(),
        )
    })
    .into_iter()
    .map(|query| query.unwrap().1 .0)
    .collect();

    assert_eq!(batches.iter().map(Vec::len).collect::<Vec<_>>(), [16_001, 32_001]);
    let values: Vec<_> = batches.into_iter().flat_map(|values| values.into_iter().skip(1)).collect();
    assert_eq!(
        values,
        items
            .into_iter()
            .flat_map(|item| std::iter::repeat_n(sea_query::Value::from(item), 16_000))
            .collect::<Vec<_>>()
    );
}

#[test]
fn oversized_item_returns_error_and_stops() {
    let items = [()];
    let batches = batch_queries(Dialect::Sqlite, &items, 256, |_: &[()]| {
        build(
            Query::select()
                .exprs(std::iter::repeat_n(Expr::val(1_i64), Dialect::Sqlite.max_bind_params() + 1))
                .to_owned(),
        )
    });

    assert!(matches!(batches.first(), Some(Err(DucklakeError::Database { code: None, .. }))));
    assert_eq!(batches.len(), 1);
}

#[test]
fn max_items_caps_each_batch() {
    let items: Vec<i64> = (0..10).collect();
    let batches = batch_queries(Dialect::Postgres, &items, 4, |items: &[i64]| (items.to_vec(), items.len()));
    let sizes: Vec<usize> = batches.into_iter().map(|b| b.unwrap().len()).collect();
    assert_eq!(sizes, [4, 4, 2]);
}

#[test]
fn bind_parameter_limits_per_dialect() {
    assert_eq!(Dialect::Sqlite.max_bind_params(), 32766);
    assert_eq!(Dialect::Postgres.max_bind_params(), 65535);
    assert_eq!(Dialect::MySql.max_bind_params(), 65535);
}

#[test]
fn insert_chunks_fill_to_the_parameter_limit() {
    let rows: Vec<u32> = (0..10_000).collect();
    let chunks = ducklake::insert_chunks(Dialect::Sqlite, 4, rows.clone());
    // 32766 / 4 = 8191 rows per statement.
    assert_eq!(chunks.iter().map(Vec::len).collect::<Vec<_>>(), [8191, 1809]);
    assert_eq!(chunks.into_iter().flatten().collect::<Vec<_>>(), rows);
    assert!(ducklake::insert_chunks(Dialect::Sqlite, 40_000, vec![1u8]).is_empty());
}
