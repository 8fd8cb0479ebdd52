//! Rows of the DuckLake catalog tables, as the catalog database returns them.
use std::collections::HashMap;

use vstd::prelude::*;

verus! {

broadcast use vstd::std_specs::hash::group_hash_axioms;

/// A row of `ducklake_schema`.
#[derive(Debug)]
pub struct DucklakeSchema {
    pub schema_id: i64,
    pub schema_name: String,
    pub path: String,
    pub path_is_relative: bool,
}

/// A row of `ducklake_table`.
#[derive(Debug)]
pub struct DucklakeTable {
    pub table_id: i64,
    pub schema_id: i64,
    pub table_name: String,
    pub path: String,
    pub path_is_relative: bool,
}

/// A row of `ducklake_column`.
#[derive(Debug)]
pub struct DucklakeColumn {
    pub column_id: i64,
    pub table_id: i64,
    pub column_order: i64,
    pub column_name: String,
    pub column_type: String,
    pub initial_default: Option<String>,
    pub default_value: Option<String>,
    pub default_value_type: Option<String>,
    pub default_value_dialect: Option<String>,
    pub nulls_allowed: bool,
    pub parent_column: Option<i64>,
}

/// A row of `ducklake_column_tag`.
#[derive(Debug)]
pub struct DucklakeColumnTag {
    pub table_id: i64,
    pub column_id: i64,
    pub key: String,
    pub value: String,
}

/// A row of `ducklake_tag` (a tag of a schema, table or view).
#[derive(Debug)]
pub struct DucklakeTag {
    pub object_id: i64,
    pub key: String,
    pub value: String,
}

/// A row of `ducklake_partition_info`.
#[derive(Debug)]
pub struct DucklakePartitionInfo {
    pub partition_id: i64,
    pub table_id: i64,
}

/// A row of `ducklake_partition_column`.
#[derive(Debug)]
pub struct DucklakePartitionColumn {
    pub partition_id: i64,
    pub table_id: i64,
    pub partition_key_index: i64,
    pub column_id: i64,
    pub transform: String,
}

/// A row of `ducklake_metadata`: a global setting (no scope), or one of a schema or a table
/// (the scope, with the entity's ID).
#[derive(Debug)]
pub struct DucklakeMetadata {
    pub key: String,
    pub value: String,
    pub scope: Option<String>,
    pub scope_id: Option<i64>,
}

/// A catalog row that belongs to an entity, by that entity's ID (the table of a column, the
/// object of a tag).
pub trait KeyedRow: Sized {
    /// The ID of the entity the row belongs to.
    spec fn owner(&self) -> i64;

    fn owner_id(&self) -> (r: i64)
        ensures
            r == self.owner(),
    ;
}

impl KeyedRow for DucklakeColumn {
    open spec fn owner(&self) -> i64 {
        self.table_id
    }

    fn owner_id(&self) -> i64 {
        self.table_id
    }
}

impl KeyedRow for DucklakeColumnTag {
    open spec fn owner(&self) -> i64 {
        self.table_id
    }

    fn owner_id(&self) -> i64 {
        self.table_id
    }
}

impl KeyedRow for DucklakeTag {
    open spec fn owner(&self) -> i64 {
        self.object_id
    }

    fn owner_id(&self) -> i64 {
        self.object_id
    }
}

impl KeyedRow for DucklakePartitionInfo {
    open spec fn owner(&self) -> i64 {
        self.table_id
    }

    fn owner_id(&self) -> i64 {
        self.table_id
    }
}

impl KeyedRow for DucklakePartitionColumn {
    open spec fn owner(&self) -> i64 {
        self.table_id
    }

    fn owner_id(&self) -> i64 {
        self.table_id
    }
}

/// The rows that belong to entity `id`, in order.
pub open spec fn rows_of<T: KeyedRow>(rows: Seq<T>, id: i64) -> Seq<T>
    decreases rows.len(),
{
    if rows.len() == 0 {
        Seq::empty()
    } else if rows.last().owner() == id {
        rows_of(rows.drop_last(), id).push(rows.last())
    } else {
        rows_of(rows.drop_last(), id)
    }
}

/// The rows grouped by the entity they belong to: each entity that has rows, with its rows in
/// order.
pub fn group_rows<T: KeyedRow>(rows: Vec<T>) -> (r: HashMap<i64, Vec<T>>)
    ensures
        forall|id: i64| #[trigger] r@.contains_key(id) <==> rows_of(rows@, id).len() > 0,
        forall|id: i64| #[trigger] r@.contains_key(id) ==> r@[id]@ == rows_of(rows@, id),
{
    let ghost all = rows@;
    let mut groups: HashMap<i64, Vec<T>> = HashMap::new();
    let n: usize = rows.len();
    let mut i: usize = 0;
    for row in it: rows.into_iter()
        invariant
            it.seq() == all,
            i == it.index(),
            i <= all.len(),
            all.len() == n,
            forall|id: i64| #[trigger] groups@.contains_key(id) <==> rows_of(all.take(i as int), id).len() > 0,
            forall|id: i64| #[trigger] groups@.contains_key(id) ==> groups@[id]@ == rows_of(all.take(i as int), id),
    {
        let ghost prev = all.take(i as int);
        assert(all.take(i + 1).drop_last() =~= prev);
        assert(all.take(i + 1).last() == row);
        let key = row.owner_id();
        let mut group = match groups.remove(&key) {
            Some(g) => g,
            None => Vec::new(),
        };
        group.push(row);
        groups.insert(key, group);
        i = i + 1;
    }
    assert(all.take(i as int) =~= all);
    groups
}

} // verus!
