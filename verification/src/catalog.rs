//! A point-in-time capture of the DuckLake catalog: schemas, their tables, and the tables'
//! columns and partitioning, with the changes a transaction makes to them.
use std::collections::HashMap;

use indexmap::IndexMap;
use vstd::prelude::*;

use crate::arena::{Arena, ArenaIdx};
use crate::flatten::{col_size, prefix_size};
use crate::columns::{
    column_added, distinct_names, dtype_reads_back, last_existing, laid_out, live_only, mark_all, reads_back, CatalogState, resolve_path, schema_roots, string_views, CatalogColumn,
    CatalogColumns,
};
use crate::dtype::{copy_tags, Column, DataType, TableName, Tag};
use crate::error::{DucklakeError, DucklakeResult};
use crate::fields::{
    field_entries, field_insert, field_lookup, field_position, field_remove, fields_contains, fields_get, fields_insert,
    field_targets, fields_len, fields_new, fields_remove, fields_values, lemma_field_position, lemma_insert_unique, lemma_lookup_after_insert,
    lemma_lookup_after_remove, lemma_unique_lookup, unique_names,
};
use crate::load::{column_fault, columns_loaded, fails_first_at, parents_present};
use crate::path::{path_is, url_parse_spec, DucklakePath, UrlParse};
use crate::rows::{
    group_rows, rows_of, KeyedRow, DucklakeColumn, DucklakeColumnTag, DucklakePartitionColumn, DucklakePartitionInfo, DucklakeSchema,
    DucklakeTable, DucklakeTag,
};
use crate::sort::{column_order_key, distinct_ids, lemma_stable_sort_elements, pair_key, sort_pairs, stable_sort};
use crate::tags::{has_key, remove_tag, upsert_tag, without_key};
use crate::text::{concat_str, decimal_text, str_eq, to_owned_string};

verus! {

broadcast use vstd::std_specs::hash::group_hash_axioms;

/// How the values of a partition column are mapped to partitions.
#[derive(Debug, Clone, Copy, PartialEq, Eq, Structural)]
pub enum PartitionTransform {
    Identity,
    Year,
    Month,
    Day,
    Hour,
}

/// The transform a DuckLake transform name denotes.
pub open spec fn transform_spec(s: Seq<char>) -> Option<PartitionTransform> {
    if s == "identity"@ {
        Some(PartitionTransform::Identity)
    } else if s == "year"@ {
        Some(PartitionTransform::Year)
    } else if s == "month"@ {
        Some(PartitionTransform::Month)
    } else if s == "day"@ {
        Some(PartitionTransform::Day)
    } else if s == "hour"@ {
        Some(PartitionTransform::Hour)
    } else {
        None
    }
}

/// The DuckLake name of a transform.
pub open spec fn transform_name(t: PartitionTransform) -> Seq<char> {
    match t {
        PartitionTransform::Identity => "identity"@,
        PartitionTransform::Year => "year"@,
        PartitionTransform::Month => "month"@,
        PartitionTransform::Day => "day"@,
        PartitionTransform::Hour => "hour"@,
    }
}

/// A transform name denotes the transform that bears that name, and every transform's name
/// denotes it: parsing and naming are inverse, so distinct names give distinct transforms.
pub proof fn lemma_transform_names(s: Seq<char>, t: PartitionTransform)
    ensures
        transform_spec(s) matches Some(x) ==> transform_name(x) == s,
        transform_spec(transform_name(t)) == Some(t),
{
    reveal_strlit("identity");
    reveal_strlit("year");
    reveal_strlit("month");
    reveal_strlit("day");
    reveal_strlit("hour");
    assert("year"@.len() == 4 && "hour"@.len() == 4 && "month"@.len() == 5 && "day"@.len() == 3
        && "identity"@.len() == 8);
    assert("year"@[0] != "hour"@[0]);
}

impl PartitionTransform {
    /// Parses a DuckLake transform name.
    pub fn parse(s: &str) -> (r: DucklakeResult<PartitionTransform>)
        ensures
            match transform_spec(s@) {
                Some(t) => r matches Ok(x) && x == t,
                None => r matches Err(e) && (e matches DucklakeError::InvalidPartitionTransform(m) && m@ == s@),
            },
    {
        if str_eq(s, "identity") {
            Ok(PartitionTransform::Identity)
        } else if str_eq(s, "year") {
            Ok(PartitionTransform::Year)
        } else if str_eq(s, "month") {
            Ok(PartitionTransform::Month)
        } else if str_eq(s, "day") {
            Ok(PartitionTransform::Day)
        } else if str_eq(s, "hour") {
            Ok(PartitionTransform::Hour)
        } else {
            Err(DucklakeError::InvalidPartitionTransform(to_owned_string(s)))
        }
    }
}

/// A column of a table's partitioning, by arena index.
#[derive(Debug, Clone, Copy)]
pub struct CatalogPartitionColumn {
    pub column: ArenaIdx,
    pub transform: PartitionTransform,
}

/// The partitioning of a table.
#[derive(Debug)]
pub struct CatalogTablePartition {
    pub id: Option<i64>,
    pub columns: Vec<CatalogPartitionColumn>,
}

/// The partition columns in partition-key order: each row's key index with its position.
pub open spec fn partition_order(pcs: Seq<DucklakePartitionColumn>) -> Seq<(i64, usize)> {
    stable_sort(Seq::new(pcs.len(), |j: int| (pcs[j].partition_key_index, j as usize)), pair_key())
}

/// `p` is the partitioning of the given `ducklake_partition_info` row and its partition
/// column rows, ordered stably by key index: each column by its arena index in `columns`, with
/// its transform.
pub open spec fn partition_loaded(
    p: CatalogTablePartition,
    info: DucklakePartitionInfo,
    pcs: Seq<DucklakePartitionColumn>,
    columns: CatalogColumns,
) -> bool {
    let ord = partition_order(pcs);
    &&& p.id == Some(info.partition_id)
    &&& p.columns@.len() == ord.len()
    &&& forall|k: int|
        0 <= k < ord.len() ==> {
            let c = pcs[#[trigger] ord[k].1 as int];
            &&& p.columns@[k].column == columns.by_id@[c.column_id]
            &&& Some(p.columns@[k].transform) == transform_spec(c.transform@)
        }
}

impl CatalogTablePartition {
    /// The partitioning described by a `ducklake_partition_info` row and its
    /// `ducklake_partition_column` rows, ordered by key index (stably). Fails on an unknown
    /// transform, or on a column ID that the table does not have.
    pub fn from_ducklake(
        partition_info: DucklakePartitionInfo,
        partition_columns: Vec<DucklakePartitionColumn>,
        columns: &CatalogColumns,
    ) -> (r: DucklakeResult<CatalogTablePartition>)
        requires
            partition_columns@.len() <= usize::MAX,
        ensures
            ({
                let pcs = partition_columns@;
                let ord = partition_order(pcs);
                &&& (r is Ok <==> forall|k: int|
                    0 <= k < ord.len() ==> transform_spec(pcs[#[trigger] ord[k].1 as int].transform@) is Some
                        && columns.by_id@.contains_key(pcs[ord[k].1 as int].column_id))
                &&& (r matches Ok(p) ==> partition_loaded(p, partition_info, pcs, *columns))
                &&& (r matches Err(e) ==> e is InvalidPartitionTransform || e is ColumnNotFound)
            }),
    {
        let ghost pcs = partition_columns@;
        let n = partition_columns.len();
        let mut pairs: Vec<(i64, usize)> = Vec::new();
        let mut j: usize = 0;
        while j < n
            invariant
                n == pcs.len(),
                partition_columns@ == pcs,
                j <= n,
                pairs@ == Seq::new(j as nat, |q: int| (pcs[q].partition_key_index, q as usize)),
            decreases n - j,
        {
            pairs.push((partition_columns[j].partition_key_index, j));
            j = j + 1;
            assert(pairs@ =~= Seq::new(j as nat, |q: int| (pcs[q].partition_key_index, q as usize)));
        }
        let ordered = sort_pairs(pairs);
        let ghost ps = Seq::new(n as nat, |q: int| (pcs[q].partition_key_index, q as usize));
        proof {
            lemma_stable_sort_elements(ps, pair_key());
            assert forall|k: int| 0 <= k < ordered@.len() implies (#[trigger] ordered@[k]).1 < n by {
                assert(stable_sort(ps, pair_key()).contains(ordered@[k]));
                assert(ps.contains(ordered@[k]));
            }
        }
        let mut result: Vec<CatalogPartitionColumn> = Vec::new();
        let mut k: usize = 0;
        while k < ordered.len()
            invariant
                n == pcs.len(),
                partition_columns@ == pcs,
                ordered@ == partition_order(pcs),
                forall|q: int| 0 <= q < ordered@.len() ==> (#[trigger] ordered@[q]).1 < n,
                k <= ordered@.len(),
                result@.len() == k,
                forall|q: int|
                    0 <= q < k ==> {
                        let c = pcs[#[trigger] ordered@[q].1 as int];
                        &&& transform_spec(c.transform@) is Some
                        &&& columns.by_id@.contains_key(c.column_id)
                        &&& result@[q].column == columns.by_id@[c.column_id]
                        &&& Some(result@[q].transform) == transform_spec(c.transform@)
                    },
            decreases ordered@.len() - k,
        {
            let pos = ordered[k].1;
            let c = &partition_columns[pos];
            let transform = match PartitionTransform::parse(c.transform.as_str()) {
                Ok(t) => t,
                Err(e) => {
                    assert(transform_spec(pcs[ordered@[k as int].1 as int].transform@) is None);
                    return Err(e);
                },
            };
            let column = match columns.by_id.get(&c.column_id) {
                Some(idx) => *idx,
                None => {
                    assert(!columns.by_id@.contains_key(pcs[ordered@[k as int].1 as int].column_id));
                    return Err(DucklakeError::ColumnNotFound { id: c.column_id });
                },
            };
            result.push(CatalogPartitionColumn { column, transform });
            k = k + 1;
        }
        Ok(CatalogTablePartition { id: Some(partition_info.partition_id), columns: result })
    }
}

/// A column of a table's partitioning as its users give it: a root column, by name, and the
/// transform applied to its values.
#[derive(Debug)]
pub struct PartitionColumn {
    pub column: String,
    pub transform: PartitionTransform,
}

/// The partitioning of a table: its partition columns, in partition-key order.
#[derive(Debug)]
pub struct Partition(pub Vec<PartitionColumn>);

/// Every partition column names a root column.
pub open spec fn partition_resolves(roots: Seq<(Seq<char>, usize)>, pcs: Seq<PartitionColumn>) -> bool {
    forall|k: int| 0 <= k < pcs.len() ==> field_lookup(roots, (#[trigger] pcs[k]).column@) is Some
}

/// `p` is the pending catalog partitioning for the partition columns `pcs`, with root columns
/// `roots`: each column by its arena index, with its transform, in order.
pub open spec fn partition_model(p: CatalogTablePartition, roots: Seq<(Seq<char>, usize)>, pcs: Seq<PartitionColumn>) -> bool {
    &&& p.id is None
    &&& p.columns@.len() == pcs.len()
    &&& forall|k: int|
        0 <= k < pcs.len() ==> (#[trigger] p.columns@[k]).column == ArenaIdx(field_lookup(roots, pcs[k].column@)->0)
            && p.columns@[k].transform == pcs[k].transform
}

impl CatalogTablePartition {
    /// The pending partitioning of a table with columns `columns`: each partition column's
    /// root column looked up by name. Fails when a name names no root column.
    pub fn from_partition(partition: Partition, columns: &CatalogColumns) -> (r: DucklakeResult<CatalogTablePartition>)
        requires
            columns.wf(),
        ensures
            r is Ok <==> partition_resolves(columns.roots(), partition.0@),
            r matches Ok(p) ==> partition_model(p, columns.roots(), partition.0@),
            r matches Err(e) ==> e is NotFound,
    {
        let ghost pcs = partition.0@;
        let Partition(cols) = partition;
        let n = cols.len();
        let mut result: Vec<CatalogPartitionColumn> = Vec::new();
        let mut k: usize = 0;
        while k < n
            invariant
                n == pcs.len(),
                cols@ == pcs,
                pcs == partition.0@,
                columns.wf(),
                k <= n,
                result@.len() == k,
                forall|j: int| 0 <= j < k ==> field_lookup(columns.roots(), (#[trigger] pcs[j]).column@) is Some,
                forall|j: int|
                    0 <= j < k ==> (#[trigger] result@[j]).column == ArenaIdx(field_lookup(columns.roots(), pcs[j].column@)->0)
                        && result@[j].transform == pcs[j].transform,
            decreases n - k,
        {
            let c = &cols[k];
            let path = vec![c.column.clone()];
            proof {
                assert(string_views(path@) =~= seq![pcs[k as int].column@]);
                assert(resolve_path(*columns, string_views(path@)) == field_lookup(columns.roots(), pcs[k as int].column@));
            }
            let column = match columns.arena_idx_by_path(path.as_slice()) {
                Ok(idx) => idx,
                Err(e) => {
                    assert(field_lookup(columns.roots(), pcs[k as int].column@) is None);
                    assert(!partition_resolves(columns.roots(), pcs));
                    return Err(e);
                },
            };
            result.push(CatalogPartitionColumn { column, transform: c.transform });
            k = k + 1;
        }
        Ok(CatalogTablePartition { id: None, columns: result })
    }

    /// The partitioning as its users give it: each partition column's name in `columns`.
    pub fn into_partition(&self, columns: &CatalogColumns) -> (r: Partition)
        requires
            forall|k: int| 0 <= k < self.columns@.len() ==> (#[trigger] self.columns@[k]).column.0 < columns.len(),
        ensures
            r.0@.len() == self.columns@.len(),
            forall|k: int|
                0 <= k < r.0@.len() ==> (#[trigger] r.0@[k]).column@ == columns.arena@[self.columns@[k].column.0 as int].name@
                    && r.0@[k].transform == self.columns@[k].transform,
    {
        let mut result: Vec<PartitionColumn> = Vec::new();
        let mut k: usize = 0;
        while k < self.columns.len()
            invariant
                k <= self.columns@.len(),
                forall|j: int| 0 <= j < self.columns@.len() ==> (#[trigger] self.columns@[j]).column.0 < columns.len(),
                result@.len() == k,
                forall|j: int|
                    0 <= j < k ==> (#[trigger] result@[j]).column@ == columns.arena@[self.columns@[j].column.0 as int].name@
                        && result@[j].transform == self.columns@[j].transform,
            decreases self.columns@.len() - k,
        {
            let c = self.columns[k];
            assert(c == self.columns@[k as int]);
            result.push(PartitionColumn { column: columns.arena[c.column.0].name.clone(), transform: c.transform });
            k = k + 1;
        }
        Partition(result)
    }
}

/// A schema in a catalog.
#[derive(Debug)]
pub struct CatalogSchema {
    pub id: Option<i64>,
    pub name: String,
    pub tables: IndexMap<String, ArenaIdx>,
    pub path: DucklakePath,
}

/// A table in a catalog.
#[derive(Debug)]
pub struct CatalogTable {
    pub id: Option<i64>,
    pub name: TableName,
    pub columns: CatalogColumns,
    pub partition: Option<CatalogTablePartition>,
    pub tags: Vec<Tag>,
    pub path: DucklakePath,
}

/// Reference to a schema in a catalog (its arena index): stable for the catalog's lifetime,
/// also for schemas created in a transaction, which have no ID yet.
#[derive(Debug, Clone, Copy, PartialEq, Eq, Hash, Structural)]
pub struct SchemaRef(pub ArenaIdx);

/// Reference to a table in a catalog (its arena index).
#[derive(Debug, Clone, Copy, PartialEq, Eq, Hash, Structural)]
pub struct TableRef(pub ArenaIdx);

/// Reference to a column of a table in a catalog.
#[derive(Debug, Clone, Copy, PartialEq, Eq, Hash, Structural)]
pub struct ColumnRef {
    pub table_ref: TableRef,
    pub column_idx: ArenaIdx,
}

impl TableRef {
    /// A reference to the table at arena index `i`.
    pub fn mock(i: usize) -> (r: TableRef)
        ensures
            r == TableRef(ArenaIdx(i)),
    {
        TableRef(ArenaIdx(i))
    }
}

impl SchemaRef {
    pub fn from_idx(idx: ArenaIdx) -> (r: SchemaRef)
        ensures
            r.0 == idx,
    {
        SchemaRef(idx)
    }
}

impl TableRef {
    pub fn from_idx(idx: ArenaIdx) -> (r: TableRef)
        ensures
            r.0 == idx,
    {
        TableRef(idx)
    }
}

impl ColumnRef {
    pub fn from_indices(table: ArenaIdx, column: ArenaIdx) -> (r: ColumnRef)
        ensures
            r.table_ref == TableRef(table),
            r.column_idx == column,
    {
        ColumnRef { table_ref: TableRef(table), column_idx: column }
    }
}

/// `s` if it is not empty, else what `on_empty` gives.
pub fn default_empty_string<F: FnOnce() -> String>(s: &str, on_empty: F) -> (r: String)
    requires
        s@.len() == 0 ==> call_requires(on_empty, ()),
    ensures
        s@.len() > 0 ==> r@ == s@,
        s@.len() == 0 ==> call_ensures(on_empty, (), r),
{
    if s.unicode_len() == 0 {
        on_empty()
    } else {
        to_owned_string(s)
    }
}

/// The text of a stored path: the given text, or `name/` when it is empty.
pub open spec fn stored_path_text(path: Seq<char>, name: Seq<char>) -> Seq<char> {
    if path.len() == 0 {
        name.push('/')
    } else {
        path
    }
}

/// `p` is the path stored as `text`: the text itself when relative; else the URL it parses
/// as, or a `file:` URL for an absolute file path.
pub open spec fn stored_path(p: DucklakePath, text: Seq<char>, rel: bool) -> bool {
    if rel {
        path_is(p, true, text)
    } else {
        match url_parse_spec(text) {
            UrlParse::Parsed(u) => path_is(p, false, u),
            _ => p matches DucklakePath::Absolute(u) && u@.take(7) == "file://"@,
        }
    }
}

/// A stored path of this text surely loads: it is relative or parses as a URL.
pub open spec fn loads_path(text: Seq<char>, rel: bool) -> bool {
    rel || url_parse_spec(text) is Parsed
}

/// The path stored for an entity named `name`.
fn load_path(path: &str, is_relative: bool, name: &str) -> (r: DucklakeResult<DucklakePath>)
    ensures
        r matches Ok(p) ==> stored_path(p, stored_path_text(path@, name@), is_relative),
        loads_path(stored_path_text(path@, name@), is_relative) ==> r is Ok,
        r matches Err(e) ==> e is InvalidPath,
{
    let text = default_empty_string(path, || -> (d: String)
        ensures
            d@ == name@.push('/'),
        {
            let d = concat_str(name, "/");
            proof {
                reveal_strlit("/");
            }
            assert(d@ =~= name@.push('/'));
            d
        });
    DucklakePath::new(text.as_str(), is_relative)
}

/// A point-in-time capture of the DuckLake catalog: schemas and tables in arenas, and the
/// schemas by name.
#[derive(Debug)]
pub struct Catalog {
    schema_arena: Arena<CatalogSchema>,
    table_arena: Arena<CatalogTable>,
    schemas: IndexMap<String, ArenaIdx>,
}

impl Catalog {
    /// The schemas, by arena index (deleted ones included).
    pub closed spec fn schema_list(&self) -> Seq<CatalogSchema> {
        self.schema_arena.entities()
    }

    /// The tables, by arena index (deleted ones included).
    pub closed spec fn table_list(&self) -> Seq<CatalogTable> {
        self.table_arena.entities()
    }

    /// Schema IDs and their arena indices.
    pub closed spec fn schema_ids(&self) -> Map<i64, ArenaIdx> {
        self.schema_arena.ids()
    }

    /// Table IDs and their arena indices.
    pub closed spec fn table_ids(&self) -> Map<i64, ArenaIdx> {
        self.table_arena.ids()
    }

    /// The live schemas: each name with its arena index, in order.
    pub closed spec fn schema_names(&self) -> Seq<(Seq<char>, usize)> {
        field_entries(self.schemas)
    }

    /// The tables of schema `i`: each name with its arena index.
    pub open spec fn tables_of(&self, i: int) -> Seq<(Seq<char>, usize)> {
        field_entries(self.schema_list()[i].tables)
    }

    /// Well-formedness: names are unique; named schemas, IDs and table entries point into the
    /// arenas; a schema's name entry matches its name.
    pub open spec fn wf(&self) -> bool {
        &&& unique_names(self.schema_names())
        &&& forall|k: int|
            0 <= k < self.schema_names().len() ==> (#[trigger] self.schema_names()[k]).1 < self.schema_list().len()
                && self.schema_list()[self.schema_names()[k].1 as int].name@ == self.schema_names()[k].0
        &&& forall|id: i64| #[trigger] self.schema_ids().contains_key(id) ==> self.schema_ids()[id].0 < self.schema_list().len()
        &&& forall|id: i64| #[trigger] self.table_ids().contains_key(id) ==> self.table_ids()[id].0 < self.table_list().len()
        &&& forall|i: int|
            0 <= i < self.schema_list().len() ==> unique_names(#[trigger] self.tables_of(i)) && forall|k: int|
                0 <= k < self.tables_of(i).len() ==> (#[trigger] self.tables_of(i)[k]).1 < self.table_list().len()
    }

    /// An empty catalog.
    pub fn new() -> (r: Catalog)
        ensures
            r.wf(),
            r.schema_list().len() == 0,
            r.table_list().len() == 0,
            r.schema_names().len() == 0,
            r.schema_ids() == Map::<i64, ArenaIdx>::empty(),
            r.table_ids() == Map::<i64, ArenaIdx>::empty(),
    {
        Catalog { schema_arena: Arena::new(), table_arena: Arena::new(), schemas: fields_new() }
    }

    /// The schema named `name`.
    pub fn schema_by_name(&self, name: &str) -> (r: DucklakeResult<SchemaRef>)
        ensures
            match field_lookup(self.schema_names(), name@) {
                Some(i) => r == Ok::<SchemaRef, DucklakeError>(SchemaRef(ArenaIdx(i))),
                None => r matches Err(e) && (e matches DucklakeError::NotFound { entity, name: n } && entity@ == "schema"@
                    && n@ == name@),
            },
    {
        match fields_get(&self.schemas, name) {
            Some(idx) => Ok(SchemaRef(idx)),
            None => Err(DucklakeError::schema_not_found(name)),
        }
    }

    /// The schema with ID `id`.
    pub fn schema_by_id(&self, id: i64) -> (r: DucklakeResult<SchemaRef>)
        ensures
            self.schema_ids().contains_key(id) ==> r == Ok::<SchemaRef, DucklakeError>(SchemaRef(self.schema_ids()[id])),
            !self.schema_ids().contains_key(id) ==> (r matches Err(e) && (e matches DucklakeError::EntityNotFound { id: x } && x == id)),
    {
        match self.schema_arena.map_id(id) {
            Some(idx) => Ok(SchemaRef(idx)),
            None => Err(DucklakeError::EntityNotFound { id }),
        }
    }

    /// The table with ID `id`.
    pub fn table_by_id(&self, id: i64) -> (r: DucklakeResult<TableRef>)
        ensures
            self.table_ids().contains_key(id) ==> r == Ok::<TableRef, DucklakeError>(TableRef(self.table_ids()[id])),
            !self.table_ids().contains_key(id) ==> (r matches Err(e) && (e matches DucklakeError::EntityNotFound { id: x } && x == id)),
    {
        match self.table_arena.map_id(id) {
            Some(idx) => Ok(TableRef(idx)),
            None => Err(DucklakeError::EntityNotFound { id }),
        }
    }

    /// The table with the given qualified name.
    pub fn table_by_name(&self, name: &TableName) -> (r: DucklakeResult<TableRef>)
        requires
            self.wf(),
        ensures
            match field_lookup(self.schema_names(), name.schema@) {
                None => r matches Err(e) && (e matches DucklakeError::NotFound { entity, .. } && entity@ == "schema"@),
                Some(i) => match field_lookup(self.tables_of(i as int), name.name@) {
                    Some(t) => r == Ok::<TableRef, DucklakeError>(TableRef(ArenaIdx(t))),
                    None => r matches Err(e) && (e matches DucklakeError::NotFound { entity, name: n } && entity@ == "table"@
                        && n@ == name.text()),
                },
            },
    {
        let schema = self.schema_by_name(name.schema.as_str())?;
        proof {
            lemma_field_position(self.schema_names(), name.schema@);
        }
        let entry = self.schema_arena.get(schema.0);
        match fields_get(&entry.tables, name.name.as_str()) {
            Some(idx) => Ok(TableRef(idx)),
            None => Err(DucklakeError::table_not_found(name)),
        }
    }

    /// Adds a pending schema (without ID) named `name`; fails when a schema of that name
    /// exists.
    pub fn add_schema(&mut self, name: &str, path: DucklakePath) -> (r: DucklakeResult<SchemaRef>)
        requires
            old(self).wf(),
        ensures
            final(self).wf(),
            r is Ok <==> field_lookup(old(self).schema_names(), name@) is None,
            r matches Err(e) ==> (e matches DucklakeError::AlreadyExists { entity, name: n } && entity@ == "schema"@ && n@
                == name@) && final(self).schema_list() == old(self).schema_list() && final(self).schema_names()
                == old(self).schema_names(),
            r matches Ok(s) ==> {
                let n = old(self).schema_list().len();
                &&& s == SchemaRef(ArenaIdx(n as usize))
                &&& final(self).schema_list().len() == n + 1
                &&& final(self).schema_list().take(n as int) == old(self).schema_list()
                &&& final(self).schema_list()[n as int].id is None
                &&& final(self).schema_list()[n as int].name@ == name@
                &&& field_entries(final(self).schema_list()[n as int].tables).len() == 0
                &&& final(self).schema_list()[n as int].path == path
                &&& final(self).schema_names() == old(self).schema_names().push((name@, n as usize))
            },
            final(self).table_list() == old(self).table_list(),
            final(self).schema_ids() == old(self).schema_ids(),
            final(self).table_ids() == old(self).table_ids(),
    {
        if fields_contains(&self.schemas, name) {
            return Err(DucklakeError::schema_already_exists(name));
        }
        let ghost old_list = self.schema_list();
        let schema = CatalogSchema { id: None, name: to_owned_string(name), tables: fields_new(), path };
        let idx = self.schema_arena.push(schema, None);
        proof {
            lemma_field_position(old(self).schema_names(), name@);
            lemma_insert_unique(old(self).schema_names(), name@, idx.0);
        }
        fields_insert(&mut self.schemas, to_owned_string(name), idx);
        proof {
            assert(self.schema_list().take(old_list.len() as int) =~= old_list);
            assert forall|id: i64| #[trigger] self.schema_ids().contains_key(id) implies self.schema_ids()[id].0 < self.schema_list().len() by {
                assert(old(self).schema_ids().contains_key(id));
            }
            assert forall|id: i64| #[trigger] self.table_ids().contains_key(id) implies self.table_ids()[id].0 < self.table_list().len() by {
                assert(old(self).table_ids().contains_key(id));
            }
            assert forall|i: int| 0 <= i < self.schema_list().len() implies unique_names(#[trigger] self.tables_of(i)) && forall|k: int|
                0 <= k < self.tables_of(i).len() ==> (#[trigger] self.tables_of(i)[k]).1 < self.table_list().len() by {
                if i < old_list.len() {
                    assert(self.tables_of(i) == old(self).tables_of(i));
                } else {
                    assert(self.tables_of(i).len() == 0);
                }
            }
            assert forall|k: int| 0 <= k < self.schema_names().len() implies (#[trigger] self.schema_names()[k]).1
                < self.schema_list().len() && self.schema_list()[self.schema_names()[k].1 as int].name@ == self.schema_names()[k].0 by {
                if k < old(self).schema_names().len() {
                    assert(self.schema_names()[k] == old(self).schema_names()[k]);
                }
            }
        }
        Ok(SchemaRef(idx))
    }
}


/// The schema names after adding the schemas of the first `k` rows, from arena index `base`.
pub open spec fn names_after(e: Seq<(Seq<char>, usize)>, rows: Seq<DucklakeSchema>, k: int, base: int) -> Seq<(Seq<char>, usize)>
    decreases k,
{
    if k <= 0 || k > rows.len() {
        e
    } else {
        field_insert(names_after(e, rows, k - 1, base), rows[k - 1].schema_name@, (base + k - 1) as usize)
    }
}

/// The schema IDs after registering the first `k` rows, from arena index `base`.
pub open spec fn ids_after(m: Map<i64, ArenaIdx>, rows: Seq<DucklakeSchema>, k: int, base: int) -> Map<i64, ArenaIdx>
    decreases k,
{
    if k <= 0 || k > rows.len() {
        m
    } else {
        ids_after(m, rows, k - 1, base).insert(rows[k - 1].schema_id, ArenaIdx((base + k - 1) as usize))
    }
}

/// The catalog schema of a `ducklake_schema` row, whatever tables it holds.
pub open spec fn schema_row_model(row: DucklakeSchema, s: CatalogSchema) -> bool {
    &&& s.id == Some(row.schema_id)
    &&& s.name == row.schema_name
    &&& stored_path(s.path, stored_path_text(row.path@, row.schema_name@), row.path_is_relative)
}

/// The catalog schema loaded from a `ducklake_schema` row, without tables yet.
pub open spec fn schema_model(row: DucklakeSchema, s: CatalogSchema) -> bool {
    &&& schema_row_model(row, s)
    &&& field_entries(s.tables).len() == 0
}

/// The catalog table loaded from a `ducklake_table` row in the schema named `schema`.
pub open spec fn table_model(row: DucklakeTable, schema: Seq<char>, t: CatalogTable) -> bool {
    &&& t.id == Some(row.table_id)
    &&& t.name.name == row.table_name
    &&& t.name.schema@ == schema
    &&& t.columns.wf()
    &&& stored_path(t.path, stored_path_text(row.path@, row.table_name@), row.path_is_relative)
}

/// The tags of a table, from its `ducklake_tag` rows.
fn tags_from_rows(rows: Vec<DucklakeTag>) -> (r: Vec<Tag>)
    ensures
        r@.len() == rows@.len(),
        forall|i: int| 0 <= i < rows@.len() ==> (#[trigger] r@[i]).key == rows@[i].key && r@[i].value == rows@[i].value,
{
    let mut r: Vec<Tag> = Vec::new();
    let mut i: usize = 0;
    while i < rows.len()
        invariant
            i <= rows@.len(),
            r@.len() == i,
            forall|q: int| 0 <= q < i ==> (#[trigger] r@[q]).key == rows@[q].key && r@[q].value == rows@[q].value,
        decreases rows@.len() - i,
    {
        r.push(Tag { key: rows[i].key.clone(), value: rows[i].value.clone() });
        i = i + 1;
    }
    r
}

fn partitions_error(prefix: &str, table: &String, suffix: &str) -> (e: DucklakeError)
    ensures
        e is InvalidPartitions,
{
    let a = concat_str(prefix, table.as_str());
    DucklakeError::InvalidPartitions(concat_str(a.as_str(), suffix))
}

impl Catalog {
    /// Adds the schemas of the given `ducklake_schema` rows, each with its ID, in order. A
    /// schema's path defaults to its name followed by `/`. Fails on a stored absolute path that
    /// is neither a URL nor an absolute file path; the schemas before it stay added.
    pub fn set_schemas(&mut self, schemas: Vec<DucklakeSchema>) -> (r: DucklakeResult<()>)
        requires
            old(self).wf(),
        ensures
            final(self).wf(),
            (forall|k: int|
                0 <= k < schemas@.len() ==> loads_path(
                    stored_path_text(#[trigger] schemas@[k].path@, schemas@[k].schema_name@),
                    schemas@[k].path_is_relative,
                )) ==> r is Ok,
            r matches Err(e) ==> e is InvalidPath,
            r is Ok ==> {
                let n = old(self).schema_list().len();
                &&& final(self).schema_list().len() == n + schemas@.len()
                &&& final(self).schema_list().take(n as int) == old(self).schema_list()
                &&& forall|k: int| 0 <= k < schemas@.len() ==> schema_model(schemas@[k], #[trigger] final(self).schema_list()[n + k])
                &&& final(self).schema_names() == names_after(old(self).schema_names(), schemas@, schemas@.len() as int, n as int)
                &&& final(self).schema_ids() == ids_after(old(self).schema_ids(), schemas@, schemas@.len() as int, n as int)
            },
            final(self).table_list() == old(self).table_list(),
            final(self).table_ids() == old(self).table_ids(),
    {
        let ghost rows = schemas@;
        let ghost n0 = self.schema_list().len();
        let mut i: usize = 0;
        while i < schemas.len()
            invariant
                rows == schemas@,
                self.wf(),
                i <= rows.len(),
                n0 == old(self).schema_list().len(),
                self.schema_list().len() == n0 + i,
                self.schema_list().take(n0 as int) == old(self).schema_list(),
                forall|k: int| 0 <= k < i ==> schema_model(rows[k], #[trigger] self.schema_list()[n0 + k]),
                self.schema_names() == names_after(old(self).schema_names(), rows, i as int, n0 as int),
                self.schema_ids() == ids_after(old(self).schema_ids(), rows, i as int, n0 as int),
                self.table_list() == old(self).table_list(),
                self.table_ids() == old(self).table_ids(),
            decreases rows.len() - i,
        {
            let row = &schemas[i];
            let path = load_path(row.path.as_str(), row.path_is_relative, row.schema_name.as_str())?;
            let ghost before = *self;
            let schema = CatalogSchema { id: Some(row.schema_id), name: row.schema_name.clone(), tables: fields_new(), path };
            let idx = self.schema_arena.push(schema, Some(row.schema_id));
            proof {
                lemma_insert_unique(before.schema_names(), row.schema_name@, idx.0);
            }
            fields_insert(&mut self.schemas, row.schema_name.clone(), idx);
            proof {
                lemma_field_position(before.schema_names(), row.schema_name@);
                assert(self.schema_list().take(n0 as int) =~= before.schema_list().take(n0 as int));
                assert forall|id: i64| #[trigger] self.schema_ids().contains_key(id) implies self.schema_ids()[id].0 < self.schema_list().len() by {
                    if id != row.schema_id {
                        assert(before.schema_ids().contains_key(id));
                    }
                }
                assert forall|id: i64| #[trigger] self.table_ids().contains_key(id) implies self.table_ids()[id].0 < self.table_list().len() by {
                    assert(before.table_ids().contains_key(id));
                }
                assert forall|j: int| 0 <= j < self.schema_list().len() implies unique_names(#[trigger] self.tables_of(j)) && forall|k: int|
                    0 <= k < self.tables_of(j).len() ==> (#[trigger] self.tables_of(j)[k]).1 < self.table_list().len() by {
                    if j < before.schema_list().len() {
                        assert(self.tables_of(j) == before.tables_of(j));
                    } else {
                        assert(self.tables_of(j).len() == 0);
                    }
                }
                assert forall|k: int| 0 <= k < self.schema_names().len() implies (#[trigger] self.schema_names()[k]).1
                    < self.schema_list().len() && self.schema_list()[self.schema_names()[k].1 as int].name@ == self.schema_names()[k].0 by {
                    let e = before.schema_names();
                    match field_position(e, row.schema_name@) {
                        Some(p) => {
                            if k != p {
                                assert(self.schema_names()[k] == e[k]);
                            }
                        },
                        None => {
                            if k < e.len() {
                                assert(self.schema_names()[k] == e[k]);
                            }
                        },
                    }
                }
                assert forall|k: int| 0 <= k < i + 1 implies schema_model(rows[k], #[trigger] self.schema_list()[n0 + k]) by {
                    if k < i {
                        assert(self.schema_list()[n0 + k] == before.schema_list()[n0 + k]);
                    }
                }
            }
            i = i + 1;
        }
        Ok(())
    }
}


/// The errors loading tables can fail with.
pub open spec fn load_error(e: DucklakeError) -> bool {
    ||| e is InvalidPartitions
    ||| e is InvalidPartitionTransform
    ||| e is ColumnNotFound
    ||| e is InvalidDataType
    ||| e is AlreadyExists
    ||| e is InvalidDefault
    ||| e is Parsing
    ||| e is InvalidPath
}

/// The name of the schema with ID `id`.
pub open spec fn schema_name_of(c: Catalog, id: i64) -> Seq<char> {
    c.schema_list()[c.schema_ids()[id].0 as int].name@
}

/// The table entries of schema `i` after adding the tables of the first `k` rows (the `k`-th
/// at arena index `base + k`), each to the schema its schema ID maps to in `ids`.
pub open spec fn tables_after(
    e: Seq<(Seq<char>, usize)>,
    rows: Seq<DucklakeTable>,
    k: int,
    ids: Map<i64, ArenaIdx>,
    i: int,
    base: int,
) -> Seq<(Seq<char>, usize)>
    decreases k,
{
    if k <= 0 || k > rows.len() {
        e
    } else {
        let prev = tables_after(e, rows, k - 1, ids, i, base);
        if ids[rows[k - 1].schema_id].0 == i {
            field_insert(prev, rows[k - 1].table_name@, (base + k - 1) as usize)
        } else {
            prev
        }
    }
}

/// Some table row before the `k`-th has table ID `id`.
pub open spec fn taken_before(rows: Seq<DucklakeTable>, k: int, id: i64) -> bool {
    exists|j: int| 0 <= j < k && (#[trigger] rows[j]).table_id == id
}

/// The rows a map holds for a table ID, if any.
pub open spec fn group_of<T>(m: Map<i64, Vec<T>>, id: i64) -> Seq<T> {
    if m.contains_key(id) {
        m[id]@
    } else {
        Seq::empty()
    }
}

/// The rows of map `m` that the `k`-th table row takes: those of its table ID, unless an
/// earlier row with the same ID took them.
pub open spec fn group_at<T>(m: Map<i64, Vec<T>>, rows: Seq<DucklakeTable>, k: int) -> Seq<T> {
    if taken_before(rows, k, rows[k].table_id) {
        Seq::empty()
    } else {
        group_of(m, rows[k].table_id)
    }
}

/// `cur` is map `m` once the first `k` table rows took their rows from it.
pub open spec fn taken_from<T>(m: Map<i64, Vec<T>>, cur: Map<i64, Vec<T>>, rows: Seq<DucklakeTable>, k: int) -> bool {
    &&& forall|id: i64| #[trigger] cur.contains_key(id) <==> m.contains_key(id) && !taken_before(rows, k, id)
    &&& forall|id: i64| #[trigger] cur.contains_key(id) ==> cur[id] == m[id]
}

/// A table row's partition columns are taken once a row of its ID took a partition info.
pub open spec fn partition_columns_taken(rows: Seq<DucklakeTable>, k: int, id: i64, infos: Map<i64, Vec<DucklakePartitionInfo>>) -> bool {
    taken_before(rows, k, id) && group_of(infos, id).len() > 0
}

/// `cur` is the partition column map `m` once the first `k` table rows took their partition
/// columns (those that had a partition info).
pub open spec fn partition_columns_from(
    m: Map<i64, Vec<DucklakePartitionColumn>>,
    cur: Map<i64, Vec<DucklakePartitionColumn>>,
    infos: Map<i64, Vec<DucklakePartitionInfo>>,
    rows: Seq<DucklakeTable>,
    k: int,
) -> bool {
    &&& forall|id: i64| #[trigger] cur.contains_key(id) <==> m.contains_key(id) && !partition_columns_taken(rows, k, id, infos)
    &&& forall|id: i64| #[trigger] cur.contains_key(id) ==> cur[id] == m[id]
}

/// The partition column rows of partition `pid`, in order.
pub open spec fn partition_rows(pcs: Seq<DucklakePartitionColumn>, pid: i64) -> Seq<DucklakePartitionColumn>
    decreases pcs.len(),
{
    if pcs.len() == 0 {
        Seq::empty()
    } else if pcs.last().partition_id == pid {
        partition_rows(pcs.drop_last(), pid).push(pcs.last())
    } else {
        partition_rows(pcs.drop_last(), pid)
    }
}

/// The catalog table loaded from a `ducklake_table` row in the schema named `schema`, with the
/// rows that belong to it: its columns and column tags, its partition info (none or one) and
/// the partition columns of its table, and its tags.
pub open spec fn table_loaded(
    row: DucklakeTable,
    schema: Seq<char>,
    t: CatalogTable,
    columns: Seq<DucklakeColumn>,
    column_tags: Seq<DucklakeColumnTag>,
    infos: Seq<DucklakePartitionInfo>,
    partition_columns: Seq<DucklakePartitionColumn>,
    tags: Seq<DucklakeTag>,
) -> bool {
    &&& table_model(row, schema, t)
    &&& columns_loaded(t.columns, columns, column_tags)
    &&& t.tags@.len() == tags.len()
    &&& forall|i: int| 0 <= i < tags.len() ==> (#[trigger] t.tags@[i]).key == tags[i].key && t.tags@[i].value == tags[i].value
    &&& match t.partition {
        None => infos.len() == 0,
        Some(p) => infos.len() == 1 && partition_loaded(
            p,
            infos[0],
            partition_rows(partition_columns, infos[0].partition_id),
            t.columns,
        ),
    }
}

/// Some of the (sorted) column rows has ID `id`.
pub open spec fn has_column(s: Seq<DucklakeColumn>, id: i64) -> bool {
    exists|i: int| 0 <= i < s.len() && (#[trigger] s[i]).column_id == id
}

/// Each of the partition columns, in key order, has a known transform and names one of the
/// column rows.
pub open spec fn partition_columns_fit(pcs: Seq<DucklakePartitionColumn>, s: Seq<DucklakeColumn>) -> bool {
    let ord = partition_order(pcs);
    forall|k: int|
        0 <= k < ord.len() ==> transform_spec(pcs[#[trigger] ord[k].1 as int].transform@) is Some && has_column(
            s,
            pcs[ord[k].1 as int].column_id,
        )
}

/// A table row with the given rows surely loads: no column row has a fault; it has at most
/// one partition info, and then partition columns of that partition, which fit the columns;
/// and its stored path loads.
pub open spec fn table_loads(
    row: DucklakeTable,
    columns: Seq<DucklakeColumn>,
    infos: Seq<DucklakePartitionInfo>,
    partition_columns: Seq<DucklakePartitionColumn>,
) -> bool {
    let s = stable_sort(columns, column_order_key());
    &&& forall|i: int| 0 <= i < s.len() ==> column_fault(s, i) is None
    &&& infos.len() <= 1
    &&& infos.len() == 1 ==> {
        let sel = partition_rows(partition_columns, infos[0].partition_id);
        sel.len() > 0 && partition_columns_fit(sel, s)
    }
    &&& loads_path(stored_path_text(row.path@, row.table_name@), row.path_is_relative)
}

/// The error a table row with the given rows fails to load with: the error of its first
/// faulty column row; else `InvalidPartitions` when it has more than one partition info, or
/// one without partition columns; else `InvalidPartitionTransform` or `ColumnNotFound` when
/// its partition columns do not fit; else `InvalidPath` for its stored path.
pub open spec fn table_error(
    row: DucklakeTable,
    columns: Seq<DucklakeColumn>,
    infos: Seq<DucklakePartitionInfo>,
    partition_columns: Seq<DucklakePartitionColumn>,
    e: DucklakeError,
) -> bool {
    let s = stable_sort(columns, column_order_key());
    if !(forall|i: int| 0 <= i < s.len() ==> column_fault(s, i) is None) {
        exists|i: int| 0 <= i < s.len() && #[trigger] fails_first_at(s, i, e)
    } else if infos.len() > 1 {
        e is InvalidPartitions
    } else if infos.len() == 1 && partition_rows(partition_columns, infos[0].partition_id).len() == 0 {
        e is InvalidPartitions
    } else if infos.len() == 1 && !partition_columns_fit(partition_rows(partition_columns, infos[0].partition_id), s) {
        e is InvalidPartitionTransform || e is ColumnNotFound
    } else {
        e is InvalidPath
    }
}

/// Takes the rows of table `id` out of a map (none if it has none).
fn take_group<T>(m: &mut HashMap<i64, Vec<T>>, id: i64) -> (r: Vec<T>)
    ensures
        r@ == group_of(old(m)@, id),
        final(m)@ == old(m)@.remove(id),
{
    match m.remove(&id) {
        Some(v) => v,
        None => Vec::new(),
    }
}

/// The partition column rows of partition `pid`, in order.
fn select_partition_columns(all: Vec<DucklakePartitionColumn>, pid: i64) -> (r: Vec<DucklakePartitionColumn>)
    ensures
        r@ == partition_rows(all@, pid),
{
    let ghost orig = all@;
    let n: usize = all.len();
    let mut rest = all;
    let mut selected: Vec<DucklakePartitionColumn> = Vec::new();
    let mut j: usize = 0;
    while rest.len() > 0
        invariant
            orig.len() == n,
            j <= orig.len(),
            rest@ == orig.subrange(j as int, orig.len() as int),
            selected@ == partition_rows(orig.take(j as int), pid),
        decreases rest@.len(),
    {
        let c = rest.remove(0);
        assert(c == orig[j as int]);
        assert(orig.take(j + 1).drop_last() =~= orig.take(j as int));
        assert(orig.take(j + 1).last() == c);
        if c.partition_id == pid {
            selected.push(c);
        }
        j = j + 1;
        assert(rest@ =~= orig.subrange(j as int, orig.len() as int));
    }
    assert(orig.take(j as int) =~= orig);
    selected
}

/// Loads one table from its `ducklake_table` row and the rows that belong to it (the
/// partition columns are taken from their map when the table has a partition info).
fn load_table(
    row: &DucklakeTable,
    schema_name: String,
    columns: Vec<DucklakeColumn>,
    column_tags: Vec<DucklakeColumnTag>,
    infos: Vec<DucklakePartitionInfo>,
    partition_columns: &mut HashMap<i64, Vec<DucklakePartitionColumn>>,
    tags: Vec<DucklakeTag>,
) -> (r: DucklakeResult<CatalogTable>)
    requires
        distinct_ids(columns@),
        parents_present(columns@),
    ensures
        r matches Err(e) ==> load_error(e),
        r matches Err(e) ==> table_error(*row, columns@, infos@, group_of(old(partition_columns)@, row.table_id), e),
        table_loads(*row, columns@, infos@, group_of(old(partition_columns)@, row.table_id)) ==> r is Ok,
        r matches Ok(t) ==> table_loaded(
            *row,
            schema_name@,
            t,
            columns@,
            column_tags@,
            infos@,
            group_of(old(partition_columns)@, row.table_id),
            tags@,
        ) && final(partition_columns)@ == if infos@.len() > 0 {
            old(partition_columns)@.remove(row.table_id)
        } else {
            old(partition_columns)@
        },
{
    let tid = row.table_id;
    let ghost info_rows = infos@;
    let table_columns = match CatalogColumns::from_ducklake(columns, column_tags) {
        Ok(c) => c,
        Err(e) => {
            return Err(e);
        },
    };
    let mut infos = infos;
    if infos.len() > 1 {
        let suffix = concat_str(" but found ", decimal_text(infos.len() as u64).as_str());
        return Err(partitions_error("expected at most one partition for table ", &row.table_name, suffix.as_str()));
    }
    let partition = match infos.pop() {
        Some(info) => {
            assert(info == info_rows[0]);
            let all = take_group(partition_columns, tid);
            let selected = select_partition_columns(all, info.partition_id);
            if selected.len() == 0 {
                return Err(
                    partitions_error(
                        "partition info exists for table ",
                        &row.table_name,
                        " but no partition columns found",
                    ),
                );
            }
            match CatalogTablePartition::from_ducklake(info, selected, &table_columns) {
                Ok(p) => Some(p),
                Err(e) => {
                    return Err(e);
                },
            }
        },
        None => None,
    };
    let table_tags = tags_from_rows(tags);
    let path = load_path(row.path.as_str(), row.path_is_relative, row.table_name.as_str())?;
    Ok(CatalogTable {
        id: Some(tid),
        name: TableName { schema: schema_name, name: row.table_name.clone() },
        columns: table_columns,
        partition,
        tags: table_tags,
        path,
    })
}

/// Taking the rows of the `k`-th table row from a map keeps it the map the first `k + 1` rows
/// took from; what the row got is its group.
proof fn lemma_take_step<T>(m: Map<i64, Vec<T>>, cur: Map<i64, Vec<T>>, rows: Seq<DucklakeTable>, k: int)
    requires
        0 <= k < rows.len(),
        taken_from(m, cur, rows, k),
    ensures
        taken_from(m, cur.remove(rows[k].table_id), rows, k + 1),
        group_of(cur, rows[k].table_id) == group_at(m, rows, k),
{
    let tid = rows[k].table_id;
    assert forall|id: i64| taken_before(rows, k + 1, id) <==> taken_before(rows, k, id) || id == tid by {
        if taken_before(rows, k + 1, id) && !taken_before(rows, k, id) {
            let j = choose|j: int| 0 <= j < k + 1 && (#[trigger] rows[j]).table_id == id;
            if j < k {
                assert(taken_before(rows, k, id));
            }
        }
        if id == tid {
            assert(rows[k].table_id == id);
        }
        if taken_before(rows, k, id) {
            let j = choose|j: int| 0 <= j < k && (#[trigger] rows[j]).table_id == id;
            assert(0 <= j < k + 1 && rows[j].table_id == id);
        }
    }
}

/// Taking the partition columns of the `k`-th table row when it took a partition info keeps
/// the map the one the first `k + 1` rows took from; what the row got is its group.
proof fn lemma_partition_columns_step(
    m: Map<i64, Vec<DucklakePartitionColumn>>,
    cur: Map<i64, Vec<DucklakePartitionColumn>>,
    infos: Map<i64, Vec<DucklakePartitionInfo>>,
    rows: Seq<DucklakeTable>,
    k: int,
    took: bool,
)
    requires
        0 <= k < rows.len(),
        partition_columns_from(m, cur, infos, rows, k),
        took == (group_at(infos, rows, k).len() > 0),
    ensures
        partition_columns_from(m, if took { cur.remove(rows[k].table_id) } else { cur }, infos, rows, k + 1),
        took ==> group_of(cur, rows[k].table_id) == group_at(m, rows, k),
{
    let tid = rows[k].table_id;
    assert forall|id: i64| taken_before(rows, k + 1, id) <==> taken_before(rows, k, id) || id == tid by {
        if taken_before(rows, k + 1, id) && !taken_before(rows, k, id) {
            let j = choose|j: int| 0 <= j < k + 1 && (#[trigger] rows[j]).table_id == id;
            if j < k {
                assert(taken_before(rows, k, id));
            }
        }
        if id == tid {
            assert(rows[k].table_id == id);
        }
        if taken_before(rows, k, id) {
            let j = choose|j: int| 0 <= j < k && (#[trigger] rows[j]).table_id == id;
            assert(0 <= j < k + 1 && rows[j].table_id == id);
        }
    }
}

impl Catalog {
    /// Adds the tables of the given `ducklake_table` rows, each with its ID, in order, to
    /// their schemas. Each table takes (and removes from the given maps, keyed by table ID)
    /// its column rows and column tags, its partition info (at most one) with the partition
    /// columns of that partition (at least one), and its tags. A table's path defaults to its
    /// name followed by `/`. Fails at the first table whose columns, partitioning or path
    /// cannot be loaded; the tables before it stay added.
    pub fn set_tables(
        &mut self,
        tables: Vec<DucklakeTable>,
        columns: &mut HashMap<i64, Vec<DucklakeColumn>>,
        column_tags: &mut HashMap<i64, Vec<DucklakeColumnTag>>,
        partition_infos: &mut HashMap<i64, Vec<DucklakePartitionInfo>>,
        partition_columns: &mut HashMap<i64, Vec<DucklakePartitionColumn>>,
        tags: &mut HashMap<i64, Vec<DucklakeTag>>,
    ) -> (r: DucklakeResult<()>)
        requires
            old(self).wf(),
            forall|k: int| 0 <= k < tables@.len() ==> old(self).schema_ids().contains_key(#[trigger] tables@[k].schema_id),
            forall|id: i64|
                #[trigger] old(columns)@.contains_key(id) ==> distinct_ids(old(columns)@[id]@) && parents_present(
                    old(columns)@[id]@,
                ),
        ensures
            final(self).wf(),
            final(self).schema_list().len() == old(self).schema_list().len(),
            forall|j: int|
                0 <= j < old(self).schema_list().len() ==> #[trigger] final(self).schema_list()[j] == (CatalogSchema {
                    tables: final(self).schema_list()[j].tables,
                    ..old(self).schema_list()[j]
                }),
            final(self).schema_names() == old(self).schema_names(),
            final(self).schema_ids() == old(self).schema_ids(),
            r matches Err(e) ==> load_error(e),
            r matches Err(e) ==> exists|j: int|
                0 <= j < tables@.len() && final(self).table_list().len() == old(self).table_list().len() + j && #[trigger] table_error(
                    tables@[j],
                    group_at(old(columns)@, tables@, j),
                    group_at(old(partition_infos)@, tables@, j),
                    group_at(old(partition_columns)@, tables@, j),
                    e,
                ),
            r is Err ==> exists|j: int|
                0 <= j < tables@.len() && final(self).table_list().len() == old(self).table_list().len() + j && !#[trigger] table_loads(
                    tables@[j],
                    group_at(old(columns)@, tables@, j),
                    group_at(old(partition_infos)@, tables@, j),
                    group_at(old(partition_columns)@, tables@, j),
                ) && final(self).table_list().take(old(self).table_list().len() as int) == old(self).table_list() && forall|k: int|
                    0 <= k < j ==> table_loaded(
                        tables@[k],
                        schema_name_of(*old(self), tables@[k].schema_id),
                        #[trigger] final(self).table_list()[old(self).table_list().len() + k],
                        group_at(old(columns)@, tables@, k),
                        group_at(old(column_tags)@, tables@, k),
                        group_at(old(partition_infos)@, tables@, k),
                        group_at(old(partition_columns)@, tables@, k),
                        group_at(old(tags)@, tables@, k),
                    ),
            (forall|k: int|
                0 <= k < tables@.len() ==> #[trigger] table_loads(
                    tables@[k],
                    group_at(old(columns)@, tables@, k),
                    group_at(old(partition_infos)@, tables@, k),
                    group_at(old(partition_columns)@, tables@, k),
                )) ==> r is Ok,
            r is Ok ==> {
                let n = old(self).table_list().len();
                &&& forall|j: int|
                    0 <= j < old(self).schema_list().len() ==> #[trigger] final(self).tables_of(j) == tables_after(
                        old(self).tables_of(j),
                        tables@,
                        tables@.len() as int,
                        old(self).schema_ids(),
                        j,
                        n as int,
                    )
                &&& final(self).table_list().len() == n + tables@.len()
                &&& final(self).table_list().take(n as int) == old(self).table_list()
                &&& forall|k: int|
                    0 <= k < tables@.len() ==> table_loaded(
                        tables@[k],
                        schema_name_of(*old(self), tables@[k].schema_id),
                        #[trigger] final(self).table_list()[n + k],
                        group_at(old(columns)@, tables@, k),
                        group_at(old(column_tags)@, tables@, k),
                        group_at(old(partition_infos)@, tables@, k),
                        group_at(old(partition_columns)@, tables@, k),
                        group_at(old(tags)@, tables@, k),
                    )
                &&& forall|k: int| 0 <= k < tables@.len() ==> final(self).table_ids().contains_key(#[trigger] tables@[k].table_id)
                &&& taken_from(old(columns)@, final(columns)@, tables@, tables@.len() as int)
                &&& taken_from(old(column_tags)@, final(column_tags)@, tables@, tables@.len() as int)
                &&& taken_from(old(partition_infos)@, final(partition_infos)@, tables@, tables@.len() as int)
                &&& taken_from(old(tags)@, final(tags)@, tables@, tables@.len() as int)
                &&& partition_columns_from(
                    old(partition_columns)@,
                    final(partition_columns)@,
                    old(partition_infos)@,
                    tables@,
                    tables@.len() as int,
                )
            },
    {
        let ghost rows = tables@;
        let ghost n0 = self.table_list().len();
        let mut i: usize = 0;
        while i < tables.len()
            invariant
                rows == tables@,
                self.wf(),
                i <= rows.len(),
                n0 == old(self).table_list().len(),
                self.table_list().len() == n0 + i,
                self.table_list().take(n0 as int) == old(self).table_list(),
                forall|k: int|
                    0 <= k < i ==> table_loaded(
                        rows[k],
                        schema_name_of(*old(self), rows[k].schema_id),
                        #[trigger] self.table_list()[n0 + k],
                        group_at(old(columns)@, rows, k),
                        group_at(old(column_tags)@, rows, k),
                        group_at(old(partition_infos)@, rows, k),
                        group_at(old(partition_columns)@, rows, k),
                        group_at(old(tags)@, rows, k),
                    ),
                taken_from(old(columns)@, columns@, rows, i as int),
                taken_from(old(column_tags)@, column_tags@, rows, i as int),
                taken_from(old(partition_infos)@, partition_infos@, rows, i as int),
                taken_from(old(tags)@, tags@, rows, i as int),
                partition_columns_from(old(partition_columns)@, partition_columns@, old(partition_infos)@, rows, i as int),
                forall|k: int| 0 <= k < i ==> self.table_ids().contains_key(#[trigger] rows[k].table_id),
                forall|k: int| 0 <= k < rows.len() ==> self.schema_ids().contains_key(#[trigger] rows[k].schema_id),
                forall|id: i64|
                    #[trigger] columns@.contains_key(id) ==> distinct_ids(columns@[id]@) && parents_present(columns@[id]@),
                self.schema_list().len() == old(self).schema_list().len(),
                forall|j: int|
                    0 <= j < self.schema_list().len() ==> #[trigger] self.schema_list()[j] == (CatalogSchema {
                        tables: self.schema_list()[j].tables,
                        ..old(self).schema_list()[j]
                    }),
                forall|j: int|
                    0 <= j < self.schema_list().len() ==> #[trigger] self.tables_of(j) == tables_after(
                        old(self).tables_of(j),
                        rows,
                        i as int,
                        old(self).schema_ids(),
                        j,
                        n0 as int,
                    ),
                self.schema_names() == old(self).schema_names(),
                self.schema_ids() == old(self).schema_ids(),
            decreases rows.len() - i,
        {
            let row = &tables[i];
            let tid = row.table_id;
            let sref = self.schema_by_id(row.schema_id).unwrap();
            let schema_name = self.schema_arena.get(sref.0).name.clone();
            let ghost cols_cur = columns@;
            let ghost col_tags_cur = column_tags@;
            let ghost infos_cur = partition_infos@;
            let ghost tags_cur = tags@;
            let ghost pcs_cur = partition_columns@;
            let table_column_rows = take_group(columns, tid);
            let table_column_tags = take_group(column_tags, tid);
            let infos = take_group(partition_infos, tid);
            let table_tags = take_group(tags, tid);
            proof {
                lemma_take_step(old(columns)@, cols_cur, rows, i as int);
                lemma_take_step(old(column_tags)@, col_tags_cur, rows, i as int);
                lemma_take_step(old(partition_infos)@, infos_cur, rows, i as int);
                lemma_take_step(old(tags)@, tags_cur, rows, i as int);
                assert(rows[i as int] == *row);
                if cols_cur.contains_key(tid) {
                    assert(distinct_ids(cols_cur[tid]@) && parents_present(cols_cur[tid]@));
                } else {
                    assert(distinct_ids(Seq::<DucklakeColumn>::empty()));
                }
            }
            let ghost took = infos@.len() > 0;
            let ghost info_rows = infos@;
            let ghost column_rows = table_column_rows@;
            proof {
                lemma_partition_columns_step(old(partition_columns)@, pcs_cur, old(partition_infos)@, rows, i as int, took);
            }
            let table = match load_table(row, schema_name, table_column_rows, table_column_tags, infos, partition_columns, table_tags) {
                Ok(t) => t,
                Err(e) => {
                    proof {
                        let k = i as int;
                        assert(!table_loads(*row, column_rows, info_rows, group_of(pcs_cur, tid)));
                        if info_rows.len() == 1 {
                            assert(group_of(pcs_cur, tid) == group_at(old(partition_columns)@, rows, k));
                        }
                        assert(!table_loads(
                            rows[k],
                            group_at(old(columns)@, rows, k),
                            group_at(old(partition_infos)@, rows, k),
                            group_at(old(partition_columns)@, rows, k),
                        ));
                        assert(table_error(
                            rows[k],
                            group_at(old(columns)@, rows, k),
                            group_at(old(partition_infos)@, rows, k),
                            group_at(old(partition_columns)@, rows, k),
                            e,
                        ));
                    }
                    return Err(e);
                },
            };
            proof {
                let k = i as int;
                if table.partition is Some {
                    assert(group_of(pcs_cur, tid) == group_at(old(partition_columns)@, rows, k));
                }
                assert(table_loaded(
                    rows[k],
                    schema_name_of(*old(self), rows[k].schema_id),
                    table,
                    group_at(old(columns)@, rows, k),
                    group_at(old(column_tags)@, rows, k),
                    group_at(old(partition_infos)@, rows, k),
                    group_at(old(partition_columns)@, rows, k),
                    group_at(old(tags)@, rows, k),
                ));
            }
            let ghost before = *self;
            let idx = self.table_arena.push(table, Some(tid));
            let ghost mid = *self;
            let entry = self.schema_arena.get_mut(sref.0);
            fields_insert(&mut entry.tables, row.table_name.clone(), idx);
            proof {
                let si = sref.0.0 as int;
                assert(si < self.schema_list().len());
                assert(mid.tables_of(si) == before.tables_of(si));
                assert(unique_names(before.tables_of(si)));
                lemma_insert_unique(mid.tables_of(si), row.table_name@, idx.0);
                assert(self.table_list().take(n0 as int) =~= before.table_list().take(n0 as int));
                assert forall|id: i64| #[trigger] self.table_ids().contains_key(id) implies self.table_ids()[id].0 < self.table_list().len() by {
                    if id != tid {
                        assert(before.table_ids().contains_key(id));
                    }
                }
                assert forall|id: i64| #[trigger] self.schema_ids().contains_key(id) implies self.schema_ids()[id].0 < self.schema_list().len() by {
                    assert(before.schema_ids().contains_key(id));
                }
                assert forall|j: int| 0 <= j < self.schema_list().len() implies #[trigger] self.tables_of(j) == tables_after(
                    old(self).tables_of(j),
                    rows,
                    i + 1,
                    old(self).schema_ids(),
                    j,
                    n0 as int,
                ) by {
                    assert(before.tables_of(j) == tables_after(old(self).tables_of(j), rows, i as int, old(self).schema_ids(), j, n0 as int));
                    if j != si {
                        assert(self.tables_of(j) == before.tables_of(j));
                    }
                }
                assert forall|j: int| 0 <= j < self.schema_list().len() implies unique_names(#[trigger] self.tables_of(j)) && forall|k: int|
                    0 <= k < self.tables_of(j).len() ==> (#[trigger] self.tables_of(j)[k]).1 < self.table_list().len() by {
                    if j != si {
                        assert(self.tables_of(j) == before.tables_of(j));
                        assert forall|k: int| 0 <= k < self.tables_of(j).len() implies (#[trigger] self.tables_of(j)[k]).1 < self.table_list().len() by {
                            assert(before.tables_of(j)[k].1 < before.table_list().len());
                        }
                    } else {
                        let e = before.tables_of(j);
                        lemma_field_position(e, row.table_name@);
                        assert forall|k: int| 0 <= k < self.tables_of(j).len() implies (#[trigger] self.tables_of(j)[k]).1 < self.table_list().len() by {
                            match field_position(e, row.table_name@) {
                                Some(p) => {
                                    if k != p {
                                        assert(self.tables_of(j)[k] == e[k]);
                                    }
                                },
                                None => {
                                    if k < e.len() {
                                        assert(self.tables_of(j)[k] == e[k]);
                                    }
                                },
                            }
                        }
                    }
                }
                assert forall|k: int| 0 <= k < self.schema_names().len() implies (#[trigger] self.schema_names()[k]).1
                    < self.schema_list().len() && self.schema_list()[self.schema_names()[k].1 as int].name@ == self.schema_names()[k].0 by {
                    assert(before.schema_names()[k].1 < before.schema_list().len());
                }
                assert forall|k: int|
                    0 <= k < i + 1 implies table_loaded(
                        rows[k],
                        schema_name_of(*old(self), rows[k].schema_id),
                        #[trigger] self.table_list()[n0 + k],
                        group_at(old(columns)@, rows, k),
                        group_at(old(column_tags)@, rows, k),
                        group_at(old(partition_infos)@, rows, k),
                        group_at(old(partition_columns)@, rows, k),
                        group_at(old(tags)@, rows, k),
                    ) by {
                    if k < i {
                        assert(self.table_list()[n0 + k] == before.table_list()[n0 + k]);
                    }
                }
            }
            i = i + 1;
        }
        Ok(())
    }
}


/// A table to create: its qualified name, its columns (distinct by name, as in a schema), its
/// partitioning and its tags.
#[derive(Debug)]
pub struct TableInfo {
    pub name: TableName,
    pub schema: Vec<Column>,
    pub partitioning: Option<Partition>,
    pub tags: Vec<Tag>,
}

/// The partitioning of a new table with the given columns can be set up: there is none, or
/// each of its columns names a root column.
pub open spec fn partition_fits(partitioning: Option<Partition>, schema: Seq<Column>) -> bool {
    match partitioning {
        None => true,
        Some(p) => partition_resolves(schema_roots(schema), p.0@),
    }
}

/// `t` is the pending table made of `info` and `path`.
pub open spec fn new_table_model(t: CatalogTable, info: TableInfo, path: DucklakePath) -> bool {
    &&& t.id is None
    &&& t.name == info.name
    &&& laid_out(t.columns, info.schema@)
    &&& match (t.partition, info.partitioning) {
        (None, None) => true,
        (Some(cp), Some(p)) => partition_model(cp, schema_roots(info.schema@), p.0@),
        _ => false,
    }
    &&& t.tags@ == info.tags@
    &&& t.path == path
}

/// For each root column of `cols`, in order, a reference to each column of its subtree, in
/// pre-order.
pub open spec fn column_refs_model(refs: Seq<Vec<ColumnRef>>, t: TableRef, cols: CatalogColumns) -> bool {
    &&& refs.len() == cols.roots().len()
    &&& forall|k: int|
        0 <= k < refs.len() ==> (#[trigger] refs[k])@.len() == cols.subtree_of(cols.roots()[k].1 as int).len() && forall|j: int|
            0 <= j < refs[k]@.len() ==> #[trigger] refs[k]@[j] == (ColumnRef {
                table_ref: t,
                column_idx: cols.subtree_of(cols.roots()[k].1 as int)[j],
            })
}

/// A reference to each partition column, in order, if the table is partitioned.
pub open spec fn partition_refs_model(refs: Option<Vec<ColumnRef>>, t: TableRef, p: Option<CatalogTablePartition>) -> bool {
    match (refs, p) {
        (None, None) => true,
        (Some(v), Some(cp)) => v@.len() == cp.columns@.len() && forall|k: int|
            0 <= k < v@.len() ==> #[trigger] v@[k] == (ColumnRef { table_ref: t, column_idx: cp.columns@[k].column }),
        _ => false,
    }
}

/// References to the given columns of table `t`.
fn column_refs(t: TableRef, idxs: &Vec<ArenaIdx>) -> (r: Vec<ColumnRef>)
    ensures
        r@.len() == idxs@.len(),
        forall|j: int| 0 <= j < r@.len() ==> #[trigger] r@[j] == (ColumnRef { table_ref: t, column_idx: idxs@[j] }),
{
    let mut r: Vec<ColumnRef> = Vec::new();
    let mut j: usize = 0;
    while j < idxs.len()
        invariant
            j <= idxs@.len(),
            r@.len() == j,
            forall|q: int| 0 <= q < j ==> #[trigger] r@[q] == (ColumnRef { table_ref: t, column_idx: idxs@[q] }),
        decreases idxs@.len() - j,
    {
        r.push(ColumnRef { table_ref: t, column_idx: idxs[j] });
        j = j + 1;
    }
    r
}

/// References to the partition columns of table `t`.
fn partition_refs(t: TableRef, p: &CatalogTablePartition) -> (r: Vec<ColumnRef>)
    ensures
        r@.len() == p.columns@.len(),
        forall|k: int| 0 <= k < r@.len() ==> #[trigger] r@[k] == (ColumnRef { table_ref: t, column_idx: p.columns@[k].column }),
{
    let mut r: Vec<ColumnRef> = Vec::new();
    let mut k: usize = 0;
    while k < p.columns.len()
        invariant
            k <= p.columns@.len(),
            r@.len() == k,
            forall|q: int| 0 <= q < k ==> #[trigger] r@[q] == (ColumnRef { table_ref: t, column_idx: p.columns@[q].column }),
        decreases p.columns@.len() - k,
    {
        r.push(ColumnRef { table_ref: t, column_idx: p.columns[k].column });
        k = k + 1;
    }
    r
}

impl Catalog {
    /// A table of this qualified name is in the catalog.
    pub open spec fn table_listed(&self, name: TableName) -> bool {
        match field_lookup(self.schema_names(), name.schema@) {
            Some(i) => field_lookup(self.tables_of(i as int), name.name@) is Some,
            None => false,
        }
    }

    /// Adds a pending table (without ID) to its schema. Fails when a table of that name
    /// exists, when a partition column names no root column, or when the schema does not
    /// exist; in the last case the table was already put in the arena, unnamed. On success,
    /// returns references to the schema, the table, the columns of each root column and the
    /// partition columns.
    pub fn add_table(&mut self, table: TableInfo, path: DucklakePath) -> (r: DucklakeResult<
        (SchemaRef, TableRef, Vec<Vec<ColumnRef>>, Option<Vec<ColumnRef>>),
    >)
        requires
            old(self).wf(),
            distinct_names(table.schema@),
            prefix_size(table.schema@, table.schema@.len() as int) <= usize::MAX,
        ensures
            final(self).wf(),
            old(self).table_listed(table.name) ==> (r matches Err(e) && (e matches DucklakeError::AlreadyExists { entity, name: n }
                && entity@ == "table"@ && n@ == table.name.text()) && *final(self) == *old(self)),
            !old(self).table_listed(table.name) && !partition_fits(table.partitioning, table.schema@) ==> (r matches Err(e)
                && e is NotFound && *final(self) == *old(self)),
            !old(self).table_listed(table.name) && partition_fits(table.partitioning, table.schema@) ==> ({
                let n = old(self).table_list().len();
                &&& final(self).table_list().len() == n + 1
                &&& final(self).table_list().take(n as int) == old(self).table_list()
                &&& new_table_model(final(self).table_list()[n as int], table, path)
                &&& final(self).schema_names() == old(self).schema_names()
                &&& final(self).schema_ids() == old(self).schema_ids()
                &&& final(self).table_ids() == old(self).table_ids()
                &&& final(self).schema_list().len() == old(self).schema_list().len()
                &&& match field_lookup(old(self).schema_names(), table.name.schema@) {
                    None => r matches Err(e) && (e matches DucklakeError::NotFound { entity, name: m } && entity@ == "schema"@
                        && m@ == table.name.schema@) && final(self).schema_list() == old(self).schema_list(),
                    Some(i) => {
                        let t = TableRef(ArenaIdx(n as usize));
                        &&& r matches Ok((sr, tr, crefs, prefs)) && sr == SchemaRef(ArenaIdx(i)) && tr == t
                            && column_refs_model(crefs@, t, final(self).table_list()[n as int].columns)
                            && partition_refs_model(prefs, t, final(self).table_list()[n as int].partition)
                        &&& final(self).tables_of(i as int) == old(self).tables_of(i as int).push((table.name.name@, n as usize))
                        &&& forall|j: int|
                            0 <= j < old(self).schema_list().len() && j != i ==> #[trigger] final(self).schema_list()[j]
                                == old(self).schema_list()[j]
                        &&& final(self).schema_list()[i as int] == (CatalogSchema {
                            tables: final(self).schema_list()[i as int].tables,
                            ..old(self).schema_list()[i as int]
                        })
                    },
                }
            }),
    {
        let ghost info = table;
        match self.table_by_name(&table.name) {
            Ok(_) => {
                return Err(DucklakeError::table_already_exists(&table.name));
            },
            Err(_) => {},
        }
        let TableInfo { name, schema, partitioning, tags } = table;
        let columns = CatalogColumns::from_schema(schema);
        let partition = match partitioning {
            Some(p) => match CatalogTablePartition::from_partition(p, &columns) {
                Ok(cp) => Some(cp),
                Err(e) => {
                    return Err(e);
                },
            },
            None => None,
        };
        let n = self.table_arena.len();
        let table_ref = TableRef(ArenaIdx(n));
        let prefs = match &partition {
            Some(cp) => Some(partition_refs(table_ref, cp)),
            None => None,
        };
        let column_idxs = columns.root_column_indices();
        let mut crefs: Vec<Vec<ColumnRef>> = Vec::new();
        let mut k: usize = 0;
        while k < column_idxs.len()
            invariant
                k <= column_idxs@.len(),
                crefs@.len() == k,
                forall|q: int|
                    0 <= q < k ==> (#[trigger] crefs@[q])@.len() == column_idxs@[q]@.len() && forall|j: int|
                        0 <= j < crefs@[q]@.len() ==> #[trigger] crefs@[q]@[j] == (ColumnRef {
                            table_ref,
                            column_idx: column_idxs@[q]@[j],
                        }),
            decreases column_idxs@.len() - k,
        {
            crefs.push(column_refs(table_ref, &column_idxs[k]));
            k = k + 1;
        }
        let table_name = name.duplicate();
        let ghost before = *self;
        let catalog_table = CatalogTable { id: None, name, columns, partition, tags, path };
        let idx = self.table_arena.push(catalog_table, None);
        let ghost mid = *self;
        proof {
            assert(mid.table_list().take(n as int) =~= before.table_list());
            lemma_wf_frame_grown(before, mid);
        }
        let schema_ref = match self.schema_by_name(table_name.schema.as_str()) {
            Ok(sr) => sr,
            Err(e) => {
                return Err(e);
            },
        };
        proof {
            lemma_field_position(self.schema_names(), table_name.schema@);
            let q = field_position(self.schema_names(), table_name.schema@)->0;
            assert(self.schema_names()[q].1 < self.schema_list().len());
        }
        let entry = self.schema_arena.get_mut(schema_ref.0);
        fields_insert(&mut entry.tables, table_name.name, idx);
        proof {
            let si = schema_ref.0.0 as int;
            lemma_field_position(before.schema_names(), info.name.schema@);
            assert(si < self.schema_list().len());
            assert(mid.tables_of(si) == before.tables_of(si));
            let e = before.tables_of(si);
            lemma_field_position(e, info.name.name@);
            lemma_insert_unique(e, info.name.name@, idx.0);
            assert(field_insert(e, info.name.name@, idx.0) == e.push((info.name.name@, idx.0)));
            assert forall|id: i64| #[trigger] self.table_ids().contains_key(id) implies self.table_ids()[id].0 < self.table_list().len() by {
                assert(before.table_ids().contains_key(id));
            }
            assert forall|id: i64| #[trigger] self.schema_ids().contains_key(id) implies self.schema_ids()[id].0 < self.schema_list().len() by {
                assert(before.schema_ids().contains_key(id));
            }
            assert forall|j: int| 0 <= j < self.schema_list().len() implies unique_names(#[trigger] self.tables_of(j)) && forall|q: int|
                0 <= q < self.tables_of(j).len() ==> (#[trigger] self.tables_of(j)[q]).1 < self.table_list().len() by {
                if j != si {
                    assert(self.tables_of(j) == before.tables_of(j));
                    assert forall|q: int| 0 <= q < self.tables_of(j).len() implies (#[trigger] self.tables_of(j)[q]).1 < self.table_list().len() by {
                        assert(before.tables_of(j)[q].1 < before.table_list().len());
                    }
                } else {
                    assert forall|q: int| 0 <= q < self.tables_of(j).len() implies (#[trigger] self.tables_of(j)[q]).1 < self.table_list().len() by {
                        if q < e.len() {
                            assert(self.tables_of(j)[q] == e[q]);
                        }
                    }
                }
            }
            assert forall|q: int| 0 <= q < self.schema_names().len() implies (#[trigger] self.schema_names()[q]).1
                < self.schema_list().len() && self.schema_list()[self.schema_names()[q].1 as int].name@ == self.schema_names()[q].0 by {
                assert(before.schema_names()[q].1 < before.schema_list().len());
            }
        }
        Ok((schema_ref, table_ref, crefs, prefs))
    }
}

/// Appending a table to the arena keeps the catalog well-formed.
proof fn lemma_wf_frame_grown(a: Catalog, b: Catalog)
    requires
        a.wf(),
        b.schema_names() == a.schema_names(),
        b.schema_list() == a.schema_list(),
        b.table_list().len() == a.table_list().len() + 1,
        b.schema_ids() == a.schema_ids(),
        b.table_ids() == a.table_ids(),
    ensures
        b.wf(),
{
    assert forall|i: int| 0 <= i < b.schema_list().len() implies unique_names(#[trigger] b.tables_of(i)) && forall|k: int|
        0 <= k < b.tables_of(i).len() ==> (#[trigger] b.tables_of(i)[k]).1 < b.table_list().len() by {
        assert(b.tables_of(i) == a.tables_of(i));
        assert forall|k: int| 0 <= k < b.tables_of(i).len() implies (#[trigger] b.tables_of(i)[k]).1 < b.table_list().len() by {
            assert(a.tables_of(i)[k].1 < a.table_list().len());
        }
    }
    assert forall|id: i64| #[trigger] b.table_ids().contains_key(id) implies b.table_ids()[id].0 < b.table_list().len() by {
        assert(a.table_ids().contains_key(id));
    }
}

/// The rows of the catalog tables at one snapshot, as the catalog database returns them.
#[derive(Debug)]
pub struct CatalogRows {
    pub schemas: Vec<DucklakeSchema>,
    pub tables: Vec<DucklakeTable>,
    pub columns: Vec<DucklakeColumn>,
    pub tags: Vec<DucklakeTag>,
    pub column_tags: Vec<DucklakeColumnTag>,
    pub partition_infos: Vec<DucklakePartitionInfo>,
    pub partition_columns: Vec<DucklakePartitionColumn>,
}

/// The rows of a catalog table that the `k`-th table row takes: those of its table ID, unless
/// an earlier table row has the same ID.
pub open spec fn rows_at<T: KeyedRow>(all: Seq<T>, tables: Seq<DucklakeTable>, k: int) -> Seq<T> {
    if taken_before(tables, k, tables[k].table_id) {
        Seq::empty()
    } else {
        rows_of(all, tables[k].table_id)
    }
}

/// What a table row takes from a map of grouped rows is what it takes of the rows.
proof fn lemma_group_at_rows<T: KeyedRow>(m: Map<i64, Vec<T>>, all: Seq<T>, tables: Seq<DucklakeTable>, k: int)
    requires
        forall|id: i64| #[trigger] m.contains_key(id) <==> rows_of(all, id).len() > 0,
        forall|id: i64| #[trigger] m.contains_key(id) ==> m[id]@ == rows_of(all, id),
    ensures
        group_at(m, tables, k) == rows_at(all, tables, k),
{
    let id = tables[k].table_id;
    if !m.contains_key(id) {
        assert(rows_of(all, id) =~= Seq::<T>::empty());
    }
}

/// Some schema row has ID `id`.
pub open spec fn has_schema_row(schemas: Seq<DucklakeSchema>, id: i64) -> bool {
    exists|j: int| 0 <= j < schemas.len() && (#[trigger] schemas[j]).schema_id == id
}

/// The schema IDs registered for the first `k` rows are those of the rows.
proof fn lemma_ids_after(rows: Seq<DucklakeSchema>, k: int, id: i64)
    requires
        0 <= k <= rows.len(),
    ensures
        ids_after(Map::<i64, ArenaIdx>::empty(), rows, k, 0).contains_key(id) <==> has_schema_row(rows.take(k), id),
    decreases k,
{
    if k > 0 {
        lemma_ids_after(rows, k - 1, id);
        if has_schema_row(rows.take(k - 1), id) {
            let j = choose|j: int| 0 <= j < rows.take(k - 1).len() && (#[trigger] rows.take(k - 1)[j]).schema_id == id;
            assert(rows.take(k)[j] == rows.take(k - 1)[j]);
        }
        if has_schema_row(rows.take(k), id) {
            let j = choose|j: int| 0 <= j < rows.take(k).len() && (#[trigger] rows.take(k)[j]).schema_id == id;
            if j < k - 1 {
                assert(rows.take(k - 1)[j] == rows.take(k)[j]);
            }
        }
        if rows[k - 1].schema_id == id {
            assert(rows.take(k)[k - 1] == rows[k - 1]);
        }
    }
}

impl Catalog {
    /// The catalog made of the rows of one snapshot: the schemas in order, then the tables in
    /// order, each table with its columns, column tags, partitioning and tags, taken from the
    /// rows that belong to it. Every table row's schema is among the schema rows, and each
    /// table's column rows have distinct IDs and name existing parents.
    pub fn from_rows(rows: CatalogRows) -> (r: DucklakeResult<Catalog>)
        requires
            forall|k: int| 0 <= k < rows.tables@.len() ==> has_schema_row(rows.schemas@, (#[trigger] rows.tables@[k]).schema_id),
            forall|id: i64| distinct_ids(#[trigger] rows_of(rows.columns@, id)) && parents_present(rows_of(rows.columns@, id)),
        ensures
            r matches Ok(c) ==> {
                &&& c.wf()
                &&& c.schema_list().len() == rows.schemas@.len()
                &&& forall|k: int| 0 <= k < rows.schemas@.len() ==> schema_row_model(rows.schemas@[k], #[trigger] c.schema_list()[k])
                &&& forall|j: int|
                    0 <= j < rows.schemas@.len() ==> #[trigger] c.tables_of(j) == tables_after(
                        Seq::empty(),
                        rows.tables@,
                        rows.tables@.len() as int,
                        c.schema_ids(),
                        j,
                        0,
                    )
                &&& c.schema_names() == names_after(Seq::empty(), rows.schemas@, rows.schemas@.len() as int, 0)
                &&& c.schema_ids() == ids_after(Map::empty(), rows.schemas@, rows.schemas@.len() as int, 0)
                &&& c.table_list().len() == rows.tables@.len()
                &&& forall|k: int|
                    0 <= k < rows.tables@.len() ==> table_loaded(
                        rows.tables@[k],
                        schema_name_of(c, rows.tables@[k].schema_id),
                        #[trigger] c.table_list()[k],
                        rows_at(rows.columns@, rows.tables@, k),
                        rows_at(rows.column_tags@, rows.tables@, k),
                        rows_at(rows.partition_infos@, rows.tables@, k),
                        rows_at(rows.partition_columns@, rows.tables@, k),
                        rows_at(rows.tags@, rows.tables@, k),
                    )
                &&& forall|k: int| 0 <= k < rows.tables@.len() ==> c.table_ids().contains_key(#[trigger] rows.tables@[k].table_id)
            },
            r matches Err(e) ==> load_error(e),
            r matches Err(e) ==> e is InvalidPath || exists|j: int|
                0 <= j < rows.tables@.len() && #[trigger] table_error(
                    rows.tables@[j],
                    rows_at(rows.columns@, rows.tables@, j),
                    rows_at(rows.partition_infos@, rows.tables@, j),
                    rows_at(rows.partition_columns@, rows.tables@, j),
                    e,
                ),
            (forall|k: int|
                0 <= k < rows.schemas@.len() ==> loads_path(
                    stored_path_text(#[trigger] rows.schemas@[k].path@, rows.schemas@[k].schema_name@),
                    rows.schemas@[k].path_is_relative,
                )) && (forall|k: int|
                0 <= k < rows.tables@.len() ==> #[trigger] table_loads(
                    rows.tables@[k],
                    rows_at(rows.columns@, rows.tables@, k),
                    rows_at(rows.partition_infos@, rows.tables@, k),
                    rows_at(rows.partition_columns@, rows.tables@, k),
                )) ==> r is Ok,
    {
        let ghost input = rows;
        let CatalogRows { schemas, tables, columns, tags, column_tags, partition_infos, partition_columns } = rows;
        let mut grouped_columns = group_rows(columns);
        let mut grouped_tags = group_rows(tags);
        let mut grouped_column_tags = group_rows(column_tags);
        let mut grouped_partition_infos = group_rows(partition_infos);
        let mut grouped_partition_columns = group_rows(partition_columns);
        let mut catalog = Catalog::new();
        let ghost empty = catalog;
        match catalog.set_schemas(schemas) {
            Ok(()) => {},
            Err(e) => {
                return Err(e);
            },
        }
        let ghost loaded = catalog;
        let ghost grouped_columns_before = grouped_columns@;
        let ghost grouped_column_tags_before = grouped_column_tags@;
        let ghost grouped_partition_infos_before = grouped_partition_infos@;
        let ghost grouped_partition_columns_before = grouped_partition_columns@;
        let ghost grouped_tags_before = grouped_tags@;
        proof {
            assert forall|k: int| 0 <= k < tables@.len() implies loaded.schema_ids().contains_key(#[trigger] tables@[k].schema_id) by {
                lemma_ids_after(input.schemas@, input.schemas@.len() as int, tables@[k].schema_id);
                assert(input.schemas@.take(input.schemas@.len() as int) =~= input.schemas@);
            }
            assert forall|id: i64| #[trigger] grouped_columns@.contains_key(id) implies distinct_ids(grouped_columns@[id]@)
                && parents_present(grouped_columns@[id]@) by {
                assert(distinct_ids(rows_of(input.columns@, id)));
            }
        }
        match catalog.set_tables(
            tables,
            &mut grouped_columns,
            &mut grouped_column_tags,
            &mut grouped_partition_infos,
            &mut grouped_partition_columns,
            &mut grouped_tags,
        ) {
            Ok(()) => {},
            Err(e) => {
                proof {
                    assert forall|k: int|
                        0 <= k < input.tables@.len() implies group_at(grouped_columns_before, input.tables@, k) == rows_at(
                            input.columns@,
                            input.tables@,
                            k,
                        ) && group_at(grouped_partition_infos_before, input.tables@, k) == rows_at(
                            input.partition_infos@,
                            input.tables@,
                            k,
                        ) && group_at(grouped_partition_columns_before, input.tables@, k) == rows_at(
                            input.partition_columns@,
                            input.tables@,
                            k,
                        ) by {
                        lemma_group_at_rows(grouped_columns_before, input.columns@, input.tables@, k);
                        lemma_group_at_rows(grouped_partition_infos_before, input.partition_infos@, input.tables@, k);
                        lemma_group_at_rows(grouped_partition_columns_before, input.partition_columns@, input.tables@, k);
                    }
                    let j = choose|j: int|
                        0 <= j < input.tables@.len() && #[trigger] table_error(
                            input.tables@[j],
                            group_at(grouped_columns_before, input.tables@, j),
                            group_at(grouped_partition_infos_before, input.tables@, j),
                            group_at(grouped_partition_columns_before, input.tables@, j),
                            e,
                        );
                    if !(e is InvalidPath) {
                        assert(table_error(
                            input.tables@[j],
                            rows_at(input.columns@, input.tables@, j),
                            rows_at(input.partition_infos@, input.tables@, j),
                            rows_at(input.partition_columns@, input.tables@, j),
                            e,
                        ));
                    }
                }
                return Err(e);
            },
        }
        proof {
            assert forall|k: int| 0 <= k < input.schemas@.len() implies schema_row_model(input.schemas@[k], #[trigger] catalog.schema_list()[k]) by {
                assert(schema_model(input.schemas@[k], loaded.schema_list()[empty.schema_list().len() + k]));
            }
            assert forall|j: int| 0 <= j < input.schemas@.len() implies #[trigger] catalog.tables_of(j) == tables_after(
                Seq::empty(),
                input.tables@,
                input.tables@.len() as int,
                catalog.schema_ids(),
                j,
                0,
            ) by {
                assert(schema_model(input.schemas@[j], loaded.schema_list()[empty.schema_list().len() + j]));
                assert(loaded.tables_of(j) =~= Seq::empty());
            }
            assert(empty.schema_names() =~= Seq::empty());
            assert forall|k: int| 0 <= k < input.tables@.len() implies table_loaded(
                input.tables@[k],
                schema_name_of(catalog, input.tables@[k].schema_id),
                #[trigger] catalog.table_list()[k],
                rows_at(input.columns@, input.tables@, k),
                rows_at(input.column_tags@, input.tables@, k),
                rows_at(input.partition_infos@, input.tables@, k),
                rows_at(input.partition_columns@, input.tables@, k),
                rows_at(input.tags@, input.tables@, k),
            ) by {
                let id = input.tables@[k].schema_id;
                lemma_group_at_rows(grouped_columns_before, input.columns@, input.tables@, k);
                lemma_group_at_rows(grouped_column_tags_before, input.column_tags@, input.tables@, k);
                lemma_group_at_rows(grouped_partition_infos_before, input.partition_infos@, input.tables@, k);
                lemma_group_at_rows(grouped_partition_columns_before, input.partition_columns@, input.tables@, k);
                lemma_group_at_rows(grouped_tags_before, input.tags@, input.tables@, k);
                assert(table_loaded(
                    input.tables@[k],
                    schema_name_of(loaded, id),
                    catalog.table_list()[loaded.table_list().len() + k],
                    group_at(grouped_columns_before, input.tables@, k),
                    group_at(grouped_column_tags_before, input.tables@, k),
                    group_at(grouped_partition_infos_before, input.tables@, k),
                    group_at(grouped_partition_columns_before, input.tables@, k),
                    group_at(grouped_tags_before, input.tables@, k),
                ));
                assert(loaded.schema_ids().contains_key(id));
                let x = loaded.schema_ids()[id].0 as int;
                assert(catalog.schema_list()[x] == (CatalogSchema { tables: catalog.schema_list()[x].tables, ..loaded.schema_list()[x] }));
            }
            assert forall|k: int| 0 <= k < input.tables@.len() implies catalog.table_ids().contains_key(#[trigger] input.tables@[k].table_id) by {
                assert(catalog.table_ids().contains_key(tables@[k].table_id));
            }
        }
        Ok(catalog)
    }
}

impl Catalog {
    /// The named schemas, in order.
    pub fn list_schemas(&self) -> (r: Vec<SchemaRef>)
        ensures
            r@.len() == self.schema_names().len(),
            forall|k: int| 0 <= k < r@.len() ==> #[trigger] r@[k] == SchemaRef(ArenaIdx(self.schema_names()[k].1)),
    {
        let idxs = fields_values(&self.schemas);
        let mut r: Vec<SchemaRef> = Vec::new();
        let mut k: usize = 0;
        while k < idxs.len()
            invariant
                idxs@.len() == self.schema_names().len(),
                forall|j: int| 0 <= j < idxs@.len() ==> idxs@[j].0 == self.schema_names()[j].1,
                k <= idxs@.len(),
                r@.len() == k,
                forall|j: int| 0 <= j < k ==> #[trigger] r@[j] == SchemaRef(ArenaIdx(self.schema_names()[j].1)),
            decreases idxs@.len() - k,
        {
            r.push(SchemaRef(idxs[k]));
            k = k + 1;
        }
        r
    }

    /// The schema a name, ID or reference denotes.
    pub fn schema<R: TryIntoRef<SchemaRef>>(&self, schema_ref: R) -> (r: DucklakeResult<&CatalogSchema>)
        requires
            schema_ref.can_resolve(self),
            forall|s: SchemaRef|
                #[trigger] schema_ref.resolves_to(self, Ok(s)) ==> s.0.0 < self.schema_list().len(),
        ensures
            exists|x: DucklakeResult<SchemaRef>|
                #[trigger] schema_ref.resolves_to(self, x) && match x {
                    Ok(s) => r matches Ok(v) && *v == self.schema_list()[s.0.0 as int],
                    Err(e) => r matches Err(f) && f == e,
                },
    {
        let ghost name = schema_ref;
        let x = schema_ref.try_into_ref(self);
        assert(name.resolves_to(self, x));
        match x {
            Ok(s) => Ok(self.schema_arena.get(s.0)),
            Err(e) => Err(e),
        }
    }

    /// The table a name, ID or reference denotes.
    pub fn table<R: TryIntoRef<TableRef>>(&self, table_ref: R) -> (r: DucklakeResult<&CatalogTable>)
        requires
            table_ref.can_resolve(self),
            forall|t: TableRef| #[trigger] table_ref.resolves_to(self, Ok(t)) ==> t.0.0 < self.table_list().len(),
        ensures
            exists|x: DucklakeResult<TableRef>|
                #[trigger] table_ref.resolves_to(self, x) && match x {
                    Ok(t) => r matches Ok(v) && *v == self.table_list()[t.0.0 as int],
                    Err(e) => r matches Err(f) && f == e,
                },
    {
        let ghost name = table_ref;
        let x = table_ref.try_into_ref(self);
        assert(name.resolves_to(self, x));
        match x {
            Ok(t) => Ok(self.table_arena.get(t.0)),
            Err(e) => Err(e),
        }
    }
}

impl Catalog {
    /// The tables of a schema, in order.
    pub fn list_tables(&self, schema: SchemaRef) -> (r: Vec<TableRef>)
        requires
            schema.0.0 < self.schema_list().len(),
        ensures
            r@.len() == self.tables_of(schema.0.0 as int).len(),
            forall|k: int| 0 <= k < r@.len() ==> #[trigger] r@[k] == TableRef(ArenaIdx(self.tables_of(schema.0.0 as int)[k].1)),
    {
        let idxs = fields_values(&self.schema_arena.get(schema.0).tables);
        let mut r: Vec<TableRef> = Vec::new();
        let mut k: usize = 0;
        while k < idxs.len()
            invariant
                schema.0.0 < self.schema_list().len(),
                idxs@.len() == self.tables_of(schema.0.0 as int).len(),
                forall|j: int| 0 <= j < idxs@.len() ==> idxs@[j].0 == self.tables_of(schema.0.0 as int)[j].1,
                k <= idxs@.len(),
                r@.len() == k,
                forall|j: int| 0 <= j < k ==> #[trigger] r@[j] == TableRef(ArenaIdx(self.tables_of(schema.0.0 as int)[j].1)),
            decreases idxs@.len() - k,
        {
            r.push(TableRef(idxs[k]));
            k = k + 1;
        }
        r
    }

    /// What a table is made of, as its users give it: its name, its schema (the live root
    /// columns), its partitioning (partition columns by name) and its tags.
    pub fn table_info(&self, table: TableRef) -> (r: TableInfo)
        requires
            table.0.0 < self.table_list().len(),
            self.table_list()[table.0.0 as int].columns.wf(),
            self.table_list()[table.0.0 as int].columns.containers_whole(),
            self.table_list()[table.0.0 as int].partition matches Some(p) ==> forall|k: int|
                0 <= k < p.columns@.len() ==> (#[trigger] p.columns@[k]).column.0 < self.table_list()[table.0.0 as int].columns.len(),
        ensures
            ({
                let t = self.table_list()[table.0.0 as int];
                let ts = live_only(t.columns, field_targets(t.columns.roots()));
                &&& r.name == t.name
                &&& r.schema@.len() == ts.len()
                &&& forall|k: int| 0 <= k < ts.len() ==> reads_back(t.columns, #[trigger] ts[k] as int, r.schema@[k])
                &&& match t.partition {
                    None => r.partitioning is None,
                    Some(p) => r.partitioning matches Some(q) && q.0@.len() == p.columns@.len() && forall|k: int|
                        0 <= k < q.0@.len() ==> (#[trigger] q.0@[k]).column@ == t.columns.arena@[p.columns@[k].column.0 as int].name@
                            && q.0@[k].transform == p.columns@[k].transform,
                }
                &&& r.tags@ == t.tags@
            }),
    {
        let t = self.table_arena.get(table.0);
        let partitioning = match &t.partition {
            Some(p) => Some(p.into_partition(&t.columns)),
            None => None,
        };
        TableInfo { name: t.name.duplicate(), schema: t.columns.to_schema(), partitioning, tags: copy_tags(&t.tags) }
    }

    /// The schema data type of each existing column of a table, by column ID.
    pub fn column_data_types(&self, table: TableRef) -> (r: HashMap<i64, DataType>)
        requires
            table.0.0 < self.table_list().len(),
            self.table_list()[table.0.0 as int].columns.wf(),
            self.table_list()[table.0.0 as int].columns.containers_whole(),
        ensures
            ({
                let cols = self.table_list()[table.0.0 as int].columns;
                &&& forall|id: i64| #[trigger] r@.contains_key(id) <==> last_existing(cols, cols.root_order(), id) is Some
                &&& forall|id: i64|
                    #[trigger] r@.contains_key(id) ==> {
                        let i = last_existing(cols, cols.root_order(), id)->0;
                        &&& 0 <= i < cols.len()
                        &&& dtype_reads_back(cols, i, r@[id])
                    }
            }),
    {
        self.table_arena.get(table.0).columns.existing_dtypes()
    }

    /// Replaces a table's partitioning: none, or the given partition columns looked up by
    /// name among its root columns (pending, without ID). Fails, changing nothing, when a
    /// partition column names no root column. Returns references to the partition columns.
    pub fn update_table_partitioning(&mut self, table: TableRef, partitioning: Option<Partition>) -> (r: DucklakeResult<
        Option<Vec<ColumnRef>>,
    >)
        requires
            old(self).wf(),
            table.0.0 < old(self).table_list().len(),
            old(self).table_list()[table.0.0 as int].columns.wf(),
        ensures
            final(self).wf(),
            final(self).schema_list() == old(self).schema_list(),
            final(self).schema_names() == old(self).schema_names(),
            final(self).schema_ids() == old(self).schema_ids(),
            final(self).table_ids() == old(self).table_ids(),
            ({
                let t = old(self).table_list()[table.0.0 as int];
                match partitioning {
                    None => r matches Ok(None) && final(self).table_list() == old(self).table_list().update(
                        table.0.0 as int,
                        CatalogTable { partition: None, ..t },
                    ),
                    Some(p) => {
                        &&& (r is Ok <==> partition_resolves(t.columns.roots(), p.0@))
                        &&& (r matches Err(e) ==> e is NotFound && final(self).table_list() == old(self).table_list())
                        &&& (r matches Ok(refs) ==> {
                            let np = final(self).table_list()[table.0.0 as int].partition;
                            &&& np matches Some(cp) && partition_model(cp, t.columns.roots(), p.0@)
                            &&& final(self).table_list() == old(self).table_list().update(
                                table.0.0 as int,
                                CatalogTable { partition: np, ..t },
                            )
                            &&& partition_refs_model(refs, table, np)
                        })
                    },
                }
            }),
    {
        let new_partition = match partitioning {
            Some(p) => match CatalogTablePartition::from_partition(p, &self.table_arena.get(table.0).columns) {
                Ok(cp) => Some(cp),
                Err(e) => {
                    return Err(e);
                },
            },
            None => None,
        };
        let refs = match &new_partition {
            Some(cp) => Some(partition_refs(table, cp)),
            None => None,
        };
        let ghost before = *self;
        let entry = self.table_arena.get_mut(table.0);
        entry.partition = new_partition;
        proof {
            lemma_wf_frame(before, *self);
            assert(self.table_list() == before.table_list().update(
                table.0.0 as int,
                CatalogTable { partition: self.table_list()[table.0.0 as int].partition, ..before.table_list()[table.0.0 as int] },
            ));
        }
        Ok(refs)
    }

    /// Sets the ID of a table's pending partitioning (after it was created in the catalog
    /// database).
    pub fn resolve_table_partition_id(&mut self, table: TableRef, id: i64)
        requires
            old(self).wf(),
            table.0.0 < old(self).table_list().len(),
            old(self).table_list()[table.0.0 as int].partition matches Some(p) && p.id is None,
        ensures
            final(self).wf(),
            final(self).schema_list() == old(self).schema_list(),
            final(self).schema_names() == old(self).schema_names(),
            final(self).schema_ids() == old(self).schema_ids(),
            final(self).table_ids() == old(self).table_ids(),
            ({
                let t = old(self).table_list()[table.0.0 as int];
                let p = t.partition->0;
                final(self).table_list() == old(self).table_list().update(
                    table.0.0 as int,
                    CatalogTable { partition: Some(CatalogTablePartition { id: Some(id), ..p }), ..t },
                )
            }),
    {
        let ghost before = *self;
        let entry = self.table_arena.get_mut(table.0);
        let taken = entry.partition.take();
        entry.partition = match taken {
            Some(p) => Some(CatalogTablePartition { id: Some(id), columns: p.columns }),
            None => None,
        };
        proof {
            lemma_wf_frame(before, *self);
        }
    }

    /// Adds a column (with the columns nested in it) to a table: at the root level when the
    /// path is empty, else as a field of the struct column the path denotes. Fails when the
    /// path denotes no column, or when a sibling has the column's name. Returns a reference
    /// to the parent, if any, and to each new column.
    pub fn add_table_column(&mut self, table: TableRef, path: &[String], column: Column) -> (r: DucklakeResult<
        (Option<ColumnRef>, Vec<ColumnRef>),
    >)
        requires
            old(self).wf(),
            table.0.0 < old(self).table_list().len(),
            old(self).table_list()[table.0.0 as int].columns.wf(),
            old(self).table_list()[table.0.0 as int].columns.len() + col_size(column) <= usize::MAX,
            path@.len() > 0 ==> (resolve_path(old(self).table_list()[table.0.0 as int].columns, string_views(path@)) matches Some(
                p,
            ) ==> old(self).table_list()[table.0.0 as int].columns.arena@[p as int].dtype is Struct),
        ensures
            final(self).wf(),
            final(self).schema_list() == old(self).schema_list(),
            final(self).schema_names() == old(self).schema_names(),
            final(self).schema_ids() == old(self).schema_ids(),
            final(self).table_ids() == old(self).table_ids(),
            ({
                let t = old(self).table_list()[table.0.0 as int];
                let found = resolve_path(t.columns, string_views(path@));
                let parent = if path@.len() == 0 {
                    None
                } else {
                    Some(ArenaIdx(found->0))
                };
                let n0 = t.columns.len();
                if path@.len() > 0 && found is None {
                    r matches Err(e) && e is NotFound && final(self).table_list() == old(self).table_list()
                } else {
                    &&& (r is Ok <==> !t.columns.name_taken(parent, column.name@))
                    &&& (r matches Err(e) ==> {
                        let cols = final(self).table_list()[table.0.0 as int].columns;
                        &&& e is AlreadyExists
                        &&& final(self).table_list() == old(self).table_list().update(table.0.0 as int, CatalogTable { columns: cols, ..t })
                        &&& cols.arena@ == t.columns.arena@
                        &&& cols.by_id@ == t.columns.by_id@
                        &&& cols.root_columns == t.columns.root_columns
                    })
                    &&& (r matches Ok((pref, refs)) ==> {
                        let cols = final(self).table_list()[table.0.0 as int].columns;
                        &&& pref == match parent {
                            Some(p) => Some(ColumnRef { table_ref: table, column_idx: p }),
                            None => None,
                        }
                        &&& refs@.len() == col_size(column)
                        &&& forall|j: int|
                            0 <= j < refs@.len() ==> #[trigger] refs@[j] == (ColumnRef {
                                table_ref: table,
                                column_idx: ArenaIdx((n0 + j) as usize),
                            })
                        &&& cols.wf()
                        &&& column_added(t.columns, cols, parent, column)
                        &&& cols.by_id@ == t.columns.by_id@
                        &&& final(self).table_list() == old(self).table_list().update(
                            table.0.0 as int,
                            CatalogTable { columns: cols, ..t },
                        )
                    })
                }
            }),
    {
        let parent_idx = if path.len() > 0 {
            match self.table_arena.get(table.0).columns.arena_idx_by_path(path) {
                Ok(idx) => Some(idx),
                Err(e) => {
                    return Err(e);
                },
            }
        } else {
            None
        };
        let ghost before = *self;
        let entry = self.table_arena.get_mut(table.0);
        let idxs = match entry.columns.add_column(parent_idx, column) {
            Ok(idxs) => idxs,
            Err(e) => {
                proof {
                    lemma_wf_frame(before, *self);
                }
                return Err(e);
            },
        };
        proof {
            lemma_wf_frame(before, *self);
        }
        let refs = column_refs(table, &idxs);
        let parent_ref = match parent_idx {
            Some(p) => Some(ColumnRef { table_ref: table, column_idx: p }),
            None => None,
        };
        Ok((parent_ref, refs))
    }

    /// Removes a column (with the columns nested in it) from a table: marks them deleted and
    /// forgets their IDs. Fails when the table is partitioned by the column, changing
    /// nothing, or when a column to delete was added in the same transaction (the columns
    /// before it in pre-order stay marked). Returns references to the deleted columns.
    pub fn remove_table_column(&mut self, table: TableRef, column: ArenaIdx) -> (r: DucklakeResult<Vec<ColumnRef>>)
        requires
            old(self).wf(),
            table.0.0 < old(self).table_list().len(),
            old(self).table_list()[table.0.0 as int].columns.wf(),
            column.0 < old(self).table_list()[table.0.0 as int].columns.len(),
        ensures
            final(self).wf(),
            final(self).schema_list() == old(self).schema_list(),
            final(self).schema_names() == old(self).schema_names(),
            final(self).schema_ids() == old(self).schema_ids(),
            final(self).table_ids() == old(self).table_ids(),
            ({
                let t = old(self).table_list()[table.0.0 as int];
                let partitioned_by = t.partition matches Some(p) && exists|k: int|
                    0 <= k < p.columns@.len() && (#[trigger] p.columns@[k]).column == column;
                if partitioned_by {
                    r matches Err(e) && e is InvalidChanges && final(self).table_list() == old(self).table_list()
                } else {
                    let m = mark_all(t.columns.arena@, t.columns.by_id@, Seq::empty(), t.columns.subtree_of(column.0 as int));
                    let cols = final(self).table_list()[table.0.0 as int].columns;
                    &&& final(self).table_list() == old(self).table_list().update(table.0.0 as int, CatalogTable { columns: cols, ..t })
                    &&& cols.wf()
                    &&& cols.arena@ == m.0
                    &&& cols.by_id@ == m.1
                    &&& cols.root_columns == t.columns.root_columns
                    &&& (r is Ok <==> m.3)
                    &&& (r matches Err(e) ==> e is InvalidChanges)
                    &&& (r matches Ok(refs) ==> refs@.len() == m.2.len() && forall|j: int|
                        0 <= j < refs@.len() ==> #[trigger] refs@[j] == (ColumnRef { table_ref: table, column_idx: m.2[j] }))
                }
            }),
    {
        let partitioned_by = match &self.table_arena.get(table.0).partition {
            Some(p) => {
                let mut found = false;
                let mut k: usize = 0;
                while k < p.columns.len()
                    invariant
                        k <= p.columns@.len(),
                        found == exists|j: int| 0 <= j < k && (#[trigger] p.columns@[j]).column == column,
                    decreases p.columns@.len() - k,
                {
                    if p.columns[k].column == column {
                        found = true;
                    }
                    k = k + 1;
                }
                found
            },
            None => false,
        };
        if partitioned_by {
            return Err(
                DucklakeError::InvalidChanges(
                    to_owned_string(
                        "cannot remove column from table as the table is partitioned by it - reset or change the partitioning on this table in order to drop this column",
                    ),
                ),
            );
        }
        let ghost before = *self;
        let entry = self.table_arena.get_mut(table.0);
        let removed = entry.columns.remove_column(column);
        proof {
            lemma_wf_frame(before, *self);
        }
        match removed {
            Ok(idxs) => Ok(column_refs(table, &idxs)),
            Err(e) => Err(e),
        }
    }

    /// Renames a column of a table; fails when a sibling has the new name.
    pub fn rename_table_column(&mut self, table: TableRef, column: ArenaIdx, new_name: &str) -> (r: DucklakeResult<()>)
        requires
            old(self).wf(),
            table.0.0 < old(self).table_list().len(),
            old(self).table_list()[table.0.0 as int].columns.wf(),
            column.0 < old(self).table_list()[table.0.0 as int].columns.len(),
            old(self).table_list()[table.0.0 as int].columns.can_hold_fields(
                old(self).table_list()[table.0.0 as int].columns.arena@[column.0 as int].parent_column,
            ),
        ensures
            final(self).wf(),
            final(self).schema_list() == old(self).schema_list(),
            final(self).schema_names() == old(self).schema_names(),
            final(self).schema_ids() == old(self).schema_ids(),
            final(self).table_ids() == old(self).table_ids(),
            ({
                let t = old(self).table_list()[table.0.0 as int];
                let c = t.columns.arena@[column.0 as int];
                let cols = final(self).table_list()[table.0.0 as int].columns;
                &&& (r is Ok <==> !t.columns.name_taken(c.parent_column, new_name@))
                &&& (r matches Err(e) ==> e is AlreadyExists && final(self).table_list() == old(self).table_list().update(
                    table.0.0 as int,
                    CatalogTable { columns: cols, ..t },
                ) && cols.arena@ == t.columns.arena@ && cols.by_id@ == t.columns.by_id@ && cols.root_columns
                    == t.columns.root_columns)
                &&& (r is Ok ==> {
                    &&& final(self).table_list() == old(self).table_list().update(table.0.0 as int, CatalogTable { columns: cols, ..t })
                    &&& cols.arena@ == t.columns.arena@.update(column.0 as int, CatalogColumn { name: cols.arena@[column.0 as int].name, ..c })
                    &&& cols.arena@[column.0 as int].name@ == new_name@
                    &&& cols.by_id@ == t.columns.by_id@
                    &&& cols.root_columns == t.columns.root_columns
                    &&& cols.wf()
                })
            }),
    {
        let ghost before = *self;
        let entry = self.table_arena.get_mut(table.0);
        let renamed = entry.columns.rename_column(column, new_name);
        proof {
            lemma_wf_frame(before, *self);
        }
        match renamed {
            Ok(_) => Ok(()),
            Err(e) => Err(e),
        }
    }

    /// Deletes a table: its ID is forgotten and its name leaves its schema.
    pub fn delete_table(&mut self, table: TableRef)
        requires
            old(self).wf(),
            table.0.0 < old(self).table_list().len(),
            old(self).schema_index(old(self).table_list()[table.0.0 as int].name.schema@) is Some,
        ensures
            final(self).wf(),
            final(self).table_list() == old(self).table_list(),
            final(self).schema_names() == old(self).schema_names(),
            final(self).schema_ids() == old(self).schema_ids(),
            ({
                let t = old(self).table_list()[table.0.0 as int];
                let si = old(self).schema_index(t.name.schema@)->0 as int;
                &&& final(self).table_ids() == match t.id {
                    Some(id) => old(self).table_ids().remove(id),
                    None => old(self).table_ids(),
                }
                &&& final(self).tables_of(si) == field_remove(old(self).tables_of(si), t.name.name@)
                &&& final(self).schema_list()[si] == (CatalogSchema { tables: final(self).schema_list()[si].tables, ..old(self).schema_list()[si] })
                &&& forall|j: int|
                    0 <= j < old(self).schema_list().len() && j != si ==> #[trigger] final(self).schema_list()[j]
                        == old(self).schema_list()[j]
                &&& final(self).schema_list().len() == old(self).schema_list().len()
            }),
    {
        let ghost before = *self;
        let id = self.table_arena.get(table.0).id;
        let schema_name = self.table_arena.get(table.0).name.schema.clone();
        let table_name = self.table_arena.get(table.0).name.name.clone();
        if let Some(id) = id {
            self.table_arena.unregister_id(id);
        }
        let schema = self.schema_by_name(schema_name.as_str()).unwrap();
        proof {
            lemma_field_position(before.schema_names(), schema_name@);
            let q = field_position(before.schema_names(), schema_name@)->0;
            assert(before.schema_names()[q].1 < before.schema_list().len());
        }
        let ghost mid = *self;
        let entry = self.schema_arena.get_mut(schema.0);
        fields_remove(&mut entry.tables, table_name.as_str());
        proof {
            let si = schema.0.0 as int;
            let e = before.tables_of(si);
            assert(mid.tables_of(si) == e);
            assert(unique_names(e));
            lemma_remove_keeps(e, table_name@);
            assert forall|id: i64| #[trigger] self.table_ids().contains_key(id) implies self.table_ids()[id].0 < self.table_list().len() by {
                assert(before.table_ids().contains_key(id));
            }
            assert forall|id: i64| #[trigger] self.schema_ids().contains_key(id) implies self.schema_ids()[id].0 < self.schema_list().len() by {
                assert(before.schema_ids().contains_key(id));
            }
            assert forall|j: int| 0 <= j < self.schema_list().len() implies unique_names(#[trigger] self.tables_of(j)) && forall|k: int|
                0 <= k < self.tables_of(j).len() ==> (#[trigger] self.tables_of(j)[k]).1 < self.table_list().len() by {
                if j != si {
                    assert(self.tables_of(j) == before.tables_of(j));
                    assert forall|k: int| 0 <= k < self.tables_of(j).len() implies (#[trigger] self.tables_of(j)[k]).1 < self.table_list().len() by {
                        assert(before.tables_of(j)[k].1 < before.table_list().len());
                    }
                } else {
                    assert forall|k: int| 0 <= k < self.tables_of(j).len() implies (#[trigger] self.tables_of(j)[k]).1 < self.table_list().len() by {
                        let q = choose|q: int| 0 <= q < e.len() && e[q] == self.tables_of(j)[k];
                        assert(e[q].1 < before.table_list().len());
                    }
                }
            }
            assert forall|k: int| 0 <= k < self.schema_names().len() implies (#[trigger] self.schema_names()[k]).1
                < self.schema_list().len() && self.schema_list()[self.schema_names()[k].1 as int].name@ == self.schema_names()[k].0 by {
                assert(before.schema_names()[k].1 < before.schema_list().len());
            }
        }
    }
}

/// Removing a name keeps names unique, and each remaining entry is one of the entries.
proof fn lemma_remove_keeps(e: Seq<(Seq<char>, usize)>, key: Seq<char>)
    requires
        unique_names(e),
    ensures
        unique_names(field_remove(e, key)),
        forall|k: int|
            0 <= k < field_remove(e, key).len() ==> exists|q: int| 0 <= q < e.len() && e[q] == #[trigger] field_remove(e, key)[k],
{
    lemma_field_position(e, key);
    let r = field_remove(e, key);
    match field_position(e, key) {
        Some(p) => {
            assert forall|k: int| 0 <= k < r.len() implies exists|q: int| 0 <= q < e.len() && e[q] == #[trigger] r[k] by {
                if k < p {
                    assert(e[k] == r[k]);
                } else {
                    assert(e[k + 1] == r[k]);
                }
            }
            assert forall|i: int, j: int| 0 <= i < r.len() && 0 <= j < r.len() && i != j implies r[i].0 != r[j].0 by {
                let ii = if i < p { i } else { i + 1 };
                let jj = if j < p { j } else { j + 1 };
                assert(r[i] == e[ii]);
                assert(r[j] == e[jj]);
            }
        },
        None => {
            assert forall|k: int| 0 <= k < r.len() implies exists|q: int| 0 <= q < e.len() && e[q] == #[trigger] r[k] by {
                assert(e[k] == r[k]);
            }
        },
    }
}

/// Well-formedness only depends on the names, the table entries of the schemas, the IDs and
/// the arena sizes.
proof fn lemma_wf_frame(a: Catalog, b: Catalog)
    requires
        a.wf(),
        b.schema_names() == a.schema_names(),
        b.schema_list().len() == a.schema_list().len(),
        b.table_list().len() == a.table_list().len(),
        forall|i: int|
            0 <= i < a.schema_list().len() ==> (#[trigger] b.schema_list()[i]).name == a.schema_list()[i].name && b.tables_of(i)
                == a.tables_of(i),
        forall|id: i64| #[trigger] b.schema_ids().contains_key(id) ==> a.schema_ids().contains_key(id) && b.schema_ids()[id] == a.schema_ids()[id] || b.schema_ids()[id].0 < b.schema_list().len(),
        forall|id: i64| #[trigger] b.table_ids().contains_key(id) ==> a.table_ids().contains_key(id) && b.table_ids()[id] == a.table_ids()[id] || b.table_ids()[id].0 < b.table_list().len(),
    ensures
        b.wf(),
{
    assert forall|k: int| 0 <= k < b.schema_names().len() implies (#[trigger] b.schema_names()[k]).1 < b.schema_list().len()
        && b.schema_list()[b.schema_names()[k].1 as int].name@ == b.schema_names()[k].0 by {
        assert(a.schema_names()[k].1 < a.schema_list().len());
        assert(b.schema_list()[a.schema_names()[k].1 as int].name == a.schema_list()[a.schema_names()[k].1 as int].name);
    }
    assert forall|i: int| 0 <= i < b.schema_list().len() implies unique_names(#[trigger] b.tables_of(i)) && forall|k: int|
        0 <= k < b.tables_of(i).len() ==> (#[trigger] b.tables_of(i)[k]).1 < b.table_list().len() by {
        assert(b.schema_list()[i].name == a.schema_list()[i].name);
        assert(unique_names(a.tables_of(i)));
        assert forall|k: int| 0 <= k < b.tables_of(i).len() implies (#[trigger] b.tables_of(i)[k]).1 < b.table_list().len() by {
            assert(a.tables_of(i)[k].1 < a.table_list().len());
        }
    }
}

impl Catalog {
    /// The arena index of the schema named `name`, if any.
    pub open spec fn schema_index(&self, name: Seq<char>) -> Option<usize> {
        field_lookup(self.schema_names(), name)
    }

    /// Sets the ID of a pending schema (after it was created in the catalog database).
    pub fn resolve_schema_id(&mut self, schema: SchemaRef, id: i64)
        requires
            old(self).wf(),
            schema.0.0 < old(self).schema_list().len(),
            old(self).schema_list()[schema.0.0 as int].id is None,
        ensures
            final(self).wf(),
            final(self).schema_list() == old(self).schema_list().update(
                schema.0.0 as int,
                CatalogSchema { id: Some(id), ..old(self).schema_list()[schema.0.0 as int] },
            ),
            final(self).schema_ids() == old(self).schema_ids().insert(id, schema.0),
            final(self).schema_names() == old(self).schema_names(),
            final(self).table_list() == old(self).table_list(),
            final(self).table_ids() == old(self).table_ids(),
    {
        let entry = self.schema_arena.get_mut(schema.0);
        entry.id = Some(id);
        self.schema_arena.register_id(schema.0, id);
        proof {
            lemma_wf_frame(*old(self), *self);
            assert forall|i: int| 0 <= i < self.schema_list().len() implies unique_names(#[trigger] self.tables_of(i)) && forall|k: int|
                0 <= k < self.tables_of(i).len() ==> (#[trigger] self.tables_of(i)[k]).1 < self.table_list().len() by {
                assert(self.tables_of(i) == old(self).tables_of(i));
            }
            assert forall|k: int| 0 <= k < self.schema_names().len() implies (#[trigger] self.schema_names()[k]).1
                < self.schema_list().len() && self.schema_list()[self.schema_names()[k].1 as int].name@ == self.schema_names()[k].0 by {
                assert(old(self).schema_names()[k].1 < old(self).schema_list().len());
            }
            assert forall|x: i64| #[trigger] self.schema_ids().contains_key(x) implies self.schema_ids()[x].0 < self.schema_list().len() by {
                if x != id {
                    assert(old(self).schema_ids().contains_key(x));
                }
            }
        }
    }

    /// Sets the ID of a pending table (after it was created in the catalog database).
    pub fn resolve_table_id(&mut self, table: TableRef, id: i64)
        requires
            old(self).wf(),
            table.0.0 < old(self).table_list().len(),
            old(self).table_list()[table.0.0 as int].id is None,
        ensures
            final(self).wf(),
            final(self).table_list() == old(self).table_list().update(
                table.0.0 as int,
                CatalogTable { id: Some(id), ..old(self).table_list()[table.0.0 as int] },
            ),
            final(self).table_ids() == old(self).table_ids().insert(id, table.0),
            final(self).schema_list() == old(self).schema_list(),
            final(self).schema_names() == old(self).schema_names(),
            final(self).schema_ids() == old(self).schema_ids(),
    {
        let entry = self.table_arena.get_mut(table.0);
        entry.id = Some(id);
        self.table_arena.register_id(table.0, id);
        proof {
            lemma_wf_frame(*old(self), *self);
            assert forall|i: int| 0 <= i < self.schema_list().len() implies unique_names(#[trigger] self.tables_of(i)) && forall|k: int|
                0 <= k < self.tables_of(i).len() ==> (#[trigger] self.tables_of(i)[k]).1 < self.table_list().len() by {
                assert(self.tables_of(i) == old(self).tables_of(i));
            }
            assert forall|x: i64| #[trigger] self.table_ids().contains_key(x) implies self.table_ids()[x].0 < self.table_list().len() by {
                if x != id {
                    assert(old(self).table_ids().contains_key(x));
                }
            }
        }
    }

    /// Sets a tag of a table: a tag with the same key is replaced, and the new tag goes last.
    pub fn add_table_tag(&mut self, table: TableRef, tag: Tag)
        requires
            old(self).wf(),
            table.0.0 < old(self).table_list().len(),
        ensures
            final(self).wf(),
            final(self).table_list()[table.0.0 as int].tags@ == without_key(
                old(self).table_list()[table.0.0 as int].tags@,
                tag.key@,
            ).push(tag),
            final(self).table_list() == old(self).table_list().update(
                table.0.0 as int,
                CatalogTable { tags: final(self).table_list()[table.0.0 as int].tags, ..old(self).table_list()[table.0.0 as int] },
            ),
            final(self).schema_list() == old(self).schema_list(),
            final(self).schema_names() == old(self).schema_names(),
            final(self).schema_ids() == old(self).schema_ids(),
            final(self).table_ids() == old(self).table_ids(),
    {
        let entry = self.table_arena.get_mut(table.0);
        upsert_tag(&mut entry.tags, tag);
        proof {
            lemma_wf_frame(*old(self), *self);
            assert forall|i: int| 0 <= i < self.schema_list().len() implies unique_names(#[trigger] self.tables_of(i)) && forall|k: int|
                0 <= k < self.tables_of(i).len() ==> (#[trigger] self.tables_of(i)[k]).1 < self.table_list().len() by {
                assert(self.tables_of(i) == old(self).tables_of(i));
            }
        }
    }

    /// Removes the tags of a table with the given key; fails when there is none.
    pub fn remove_table_tag(&mut self, table: TableRef, key: &str) -> (r: DucklakeResult<()>)
        requires
            old(self).wf(),
            table.0.0 < old(self).table_list().len(),
        ensures
            final(self).wf(),
            r is Ok <==> has_key(old(self).table_list()[table.0.0 as int].tags@, key@),
            r is Ok ==> final(self).table_list()[table.0.0 as int].tags@ == without_key(
                old(self).table_list()[table.0.0 as int].tags@,
                key@,
            ),
            r is Err ==> final(self).table_list()[table.0.0 as int].tags@ == old(self).table_list()[table.0.0 as int].tags@,
            r matches Err(e) ==> e is NotFound,
            final(self).table_list() == old(self).table_list().update(
                table.0.0 as int,
                CatalogTable { tags: final(self).table_list()[table.0.0 as int].tags, ..old(self).table_list()[table.0.0 as int] },
            ),
            final(self).schema_list() == old(self).schema_list(),
            final(self).schema_names() == old(self).schema_names(),
    {
        let entry = self.table_arena.get_mut(table.0);
        let r = remove_tag(&mut entry.tags, key);
        proof {
            lemma_wf_frame(*old(self), *self);
            assert forall|i: int| 0 <= i < self.schema_list().len() implies unique_names(#[trigger] self.tables_of(i)) && forall|k: int|
                0 <= k < self.tables_of(i).len() ==> (#[trigger] self.tables_of(i)[k]).1 < self.table_list().len() by {
                assert(self.tables_of(i) == old(self).tables_of(i));
            }
        }
        r
    }

    /// Deletes an empty schema: it is no longer found by name. Fails when it has tables.
    pub fn delete_schema(&mut self, schema: SchemaRef) -> (r: DucklakeResult<()>)
        requires
            old(self).wf(),
            schema.0.0 < old(self).schema_list().len(),
        ensures
            final(self).wf(),
            r is Ok <==> old(self).tables_of(schema.0.0 as int).len() == 0,
            r matches Err(e) ==> e is InvalidChanges && final(self).schema_names() == old(self).schema_names(),
            r is Ok ==> final(self).schema_names() == field_remove(
                old(self).schema_names(),
                old(self).schema_list()[schema.0.0 as int].name@,
            ),
            final(self).schema_list() == old(self).schema_list(),
            final(self).table_list() == old(self).table_list(),
            final(self).schema_ids() == old(self).schema_ids(),
            final(self).table_ids() == old(self).table_ids(),
    {
        let entry = self.schema_arena.get(schema.0);
        if fields_len(&entry.tables) != 0 {
            let msg = concat_str(concat_str("cannot delete schema ", entry.name.as_str()).as_str(), " which is not empty");
            return Err(DucklakeError::InvalidChanges(msg));
        }
        let name = entry.name.clone();
        let _ = fields_remove(&mut self.schemas, name.as_str());
        proof {
            assert forall|x: i64| #[trigger] self.schema_ids().contains_key(x) implies self.schema_ids()[x].0 < self.schema_list().len() by {
                assert(old(self).schema_ids().contains_key(x));
            }
            assert forall|x: i64| #[trigger] self.table_ids().contains_key(x) implies self.table_ids()[x].0 < self.table_list().len() by {
                assert(old(self).table_ids().contains_key(x));
            }
            assert forall|i: int| 0 <= i < self.schema_list().len() implies unique_names(#[trigger] self.tables_of(i)) && forall|k: int|
                0 <= k < self.tables_of(i).len() ==> (#[trigger] self.tables_of(i)[k]).1 < self.table_list().len() by {
                assert(self.tables_of(i) == old(self).tables_of(i));
            }
            let e = old(self).schema_names();
            lemma_field_position(e, name@);
            assert forall|k: int| 0 <= k < self.schema_names().len() implies (#[trigger] self.schema_names()[k]).1
                < self.schema_list().len() && self.schema_list()[self.schema_names()[k].1 as int].name@ == self.schema_names()[k].0 by {
                match field_position(e, name@) {
                    Some(p) => {
                        if k < p {
                            assert(self.schema_names()[k] == e[k]);
                        } else {
                            assert(self.schema_names()[k] == e[k + 1]);
                        }
                    },
                    None => {
                        assert(self.schema_names()[k] == e[k]);
                    },
                }
            }
            assert(unique_names(self.schema_names())) by {
                match field_position(e, name@) {
                    Some(p) => {
                        assert forall|a: int, b: int| 0 <= a < self.schema_names().len() && 0 <= b < self.schema_names().len() && a != b implies
                            self.schema_names()[a].0 != self.schema_names()[b].0 by {
                            let a2 = if a < p { a } else { a + 1 };
                            let b2 = if b < p { b } else { b + 1 };
                            assert(self.schema_names()[a] == e[a2]);
                            assert(self.schema_names()[b] == e[b2]);
                        }
                    },
                    None => {},
                }
            }
        }
        Ok(())
    }

    /// Renames a table within its schema; fails when the schema has a table of the new name.
    pub fn rename_table(&mut self, table: TableRef, new_name: &str) -> (r: DucklakeResult<()>)
        requires
            old(self).wf(),
            table.0.0 < old(self).table_list().len(),
            old(self).schema_index(old(self).table_list()[table.0.0 as int].name.schema@) matches Some(si) && field_lookup(
                old(self).tables_of(si as int),
                old(self).table_list()[table.0.0 as int].name.name@,
            ) == Some(table.0.0),
        ensures
            final(self).wf(),
            ({
                let t = old(self).table_list()[table.0.0 as int];
                let si = old(self).schema_index(t.name.schema@).unwrap() as int;
                &&& (r is Ok <==> field_lookup(old(self).tables_of(si), new_name@) is None)
                &&& (r matches Err(e) ==> (e matches DucklakeError::AlreadyExists { entity, .. } && entity@ == "table"@)
                    && final(self).table_list() == old(self).table_list() && final(self).schema_list() == old(self).schema_list())
                &&& (r is Ok ==> {
                    &&& final(self).tables_of(si) == field_remove(old(self).tables_of(si), t.name.name@).push(
                        (new_name@, table.0.0),
                    )
                    &&& final(self).table_list()[table.0.0 as int].name.name@ == new_name@
                    &&& final(self).table_list()[table.0.0 as int].name.schema == t.name.schema
                    &&& forall|j: int|
                        0 <= j < old(self).schema_list().len() && j != si ==> #[trigger] final(self).schema_list()[j]
                            == old(self).schema_list()[j]
                    &&& forall|j: int|
                        0 <= j < old(self).table_list().len() && j != table.0.0 ==> #[trigger] final(self).table_list()[j]
                            == old(self).table_list()[j]
                })
            }),
            final(self).schema_list().len() == old(self).schema_list().len(),
            final(self).table_list().len() == old(self).table_list().len(),
            final(self).schema_names() == old(self).schema_names(),
            final(self).schema_ids() == old(self).schema_ids(),
            final(self).table_ids() == old(self).table_ids(),
    {
        let tname = self.table_arena.get(table.0).name.duplicate();
        let sref = match fields_get(&self.schemas, tname.schema.as_str()) {
            Some(i) => i,
            None => {
                return Err(DucklakeError::schema_not_found(tname.schema.as_str()));
            },
        };
        let ghost si = sref.0 as int;
        proof {
            lemma_field_position(self.schema_names(), tname.schema@);
        }
        if fields_contains(&self.schema_arena.get(sref).tables, new_name) {
            let taken = TableName { schema: tname.schema.clone(), name: to_owned_string(new_name) };
            return Err(DucklakeError::table_already_exists(&taken));
        }
        let ghost before = *self;
        let entry = self.schema_arena.get_mut(sref);
        let _ = fields_remove(&mut entry.tables, tname.name.as_str());
        let ghost removed = field_entries(entry.tables);
        fields_insert(&mut entry.tables, to_owned_string(new_name), table.0);
        let tentry = self.table_arena.get_mut(table.0);
        tentry.name = TableName { schema: tname.schema, name: to_owned_string(new_name) };
        proof {
            let e = before.tables_of(si);
            lemma_field_position(e, tname.name@);
            lemma_field_position(removed, new_name@);
            assert(field_lookup(removed, new_name@) is None) by {
                if field_lookup(removed, new_name@) is Some {
                    let q = field_position(removed, new_name@).unwrap();
                    let p = field_position(e, tname.name@).unwrap();
                    if q < p {
                        assert(removed[q] == e[q]);
                    } else {
                        assert(removed[q] == e[q + 1]);
                    }
                    lemma_field_position(e, new_name@);
                }
            }
            assert(field_insert(removed, new_name@, table.0.0) == removed.push((new_name@, table.0.0)));
            assert(unique_names(removed)) by {
                let p = field_position(e, tname.name@).unwrap();
                assert forall|a: int, b: int| 0 <= a < removed.len() && 0 <= b < removed.len() && a != b implies removed[a].0 != removed[b].0 by {
                    let a2 = if a < p { a } else { a + 1 };
                    let b2 = if b < p { b } else { b + 1 };
                    assert(removed[a] == e[a2]);
                    assert(removed[b] == e[b2]);
                }
            }
            lemma_insert_unique(removed, new_name@, table.0.0);
            assert forall|i: int| 0 <= i < self.schema_list().len() implies unique_names(#[trigger] self.tables_of(i)) && forall|k: int|
                0 <= k < self.tables_of(i).len() ==> (#[trigger] self.tables_of(i)[k]).1 < self.table_list().len() by {
                if i != si {
                    assert(self.tables_of(i) == before.tables_of(i));
                    assert forall|k: int| 0 <= k < self.tables_of(i).len() implies (#[trigger] self.tables_of(i)[k]).1 < self.table_list().len() by {
                        assert(before.tables_of(i)[k].1 < before.table_list().len());
                    }
                } else {
                    let p = field_position(e, tname.name@).unwrap();
                    assert forall|k: int| 0 <= k < self.tables_of(i).len() implies (#[trigger] self.tables_of(i)[k]).1 < self.table_list().len() by {
                        if k < removed.len() {
                            if k < p {
                                assert(removed[k] == e[k]);
                            } else {
                                assert(removed[k] == e[k + 1]);
                            }
                        }
                    }
                }
            }
            assert forall|k: int| 0 <= k < self.schema_names().len() implies (#[trigger] self.schema_names()[k]).1
                < self.schema_list().len() && self.schema_list()[self.schema_names()[k].1 as int].name@ == self.schema_names()[k].0 by {
                assert(before.schema_names()[k].1 < before.schema_list().len());
            }
            assert forall|x: i64| #[trigger] self.table_ids().contains_key(x) implies self.table_ids()[x].0 < self.table_list().len() by {
                assert(before.table_ids().contains_key(x));
            }
            assert forall|x: i64| #[trigger] self.schema_ids().contains_key(x) implies self.schema_ids()[x].0 < self.schema_list().len() by {
                assert(before.schema_ids().contains_key(x));
            }
        }
        Ok(())
    }
}


/// Values that name an entity of a container (a schema or table of a catalog): names, IDs,
/// and the references themselves.
pub trait TryIntoRef<Ref, Container = Catalog> {
    /// Whether the container is in a state in which the name can be looked up.
    spec fn can_resolve(&self, container: &Container) -> bool;

    /// What looking the name up in the container gives.
    spec fn resolves_to(&self, container: &Container, r: DucklakeResult<Ref>) -> bool;

    /// The reference this name resolves to, or the error for a name that names nothing.
    fn try_into_ref(self, container: &Container) -> (r: DucklakeResult<Ref>)
        requires
            self.can_resolve(container),
        ensures
            self.resolves_to(container, r),
    ;
}

impl TryIntoRef<SchemaRef> for SchemaRef {
    open spec fn can_resolve(&self, container: &Catalog) -> bool {
        true
    }

    open spec fn resolves_to(&self, container: &Catalog, r: DucklakeResult<SchemaRef>) -> bool {
        r == Ok::<SchemaRef, DucklakeError>(*self)
    }

    fn try_into_ref(self, container: &Catalog) -> DucklakeResult<SchemaRef> {
        Ok(self)
    }
}

impl TryIntoRef<TableRef> for TableRef {
    open spec fn can_resolve(&self, container: &Catalog) -> bool {
        true
    }

    open spec fn resolves_to(&self, container: &Catalog, r: DucklakeResult<TableRef>) -> bool {
        r == Ok::<TableRef, DucklakeError>(*self)
    }

    fn try_into_ref(self, container: &Catalog) -> DucklakeResult<TableRef> {
        Ok(self)
    }
}

impl<'a> TryIntoRef<SchemaRef> for &'a str {
    open spec fn can_resolve(&self, container: &Catalog) -> bool {
        true
    }

    open spec fn resolves_to(&self, container: &Catalog, r: DucklakeResult<SchemaRef>) -> bool {
        match field_lookup(container.schema_names(), self@) {
            Some(i) => r == Ok::<SchemaRef, DucklakeError>(SchemaRef(ArenaIdx(i))),
            None => r matches Err(e) && e is NotFound,
        }
    }

    fn try_into_ref(self, container: &Catalog) -> DucklakeResult<SchemaRef> {
        container.schema_by_name(self)
    }
}

impl TryIntoRef<SchemaRef> for i64 {
    open spec fn can_resolve(&self, container: &Catalog) -> bool {
        true
    }

    open spec fn resolves_to(&self, container: &Catalog, r: DucklakeResult<SchemaRef>) -> bool {
        if container.schema_ids().contains_key(*self) {
            r == Ok::<SchemaRef, DucklakeError>(SchemaRef(container.schema_ids()[*self]))
        } else {
            r matches Err(e) && e is EntityNotFound
        }
    }

    fn try_into_ref(self, container: &Catalog) -> DucklakeResult<SchemaRef> {
        container.schema_by_id(self)
    }
}

impl TryIntoRef<TableRef> for i64 {
    open spec fn can_resolve(&self, container: &Catalog) -> bool {
        true
    }

    open spec fn resolves_to(&self, container: &Catalog, r: DucklakeResult<TableRef>) -> bool {
        if container.table_ids().contains_key(*self) {
            r == Ok::<TableRef, DucklakeError>(TableRef(container.table_ids()[*self]))
        } else {
            r matches Err(e) && e is EntityNotFound
        }
    }

    fn try_into_ref(self, container: &Catalog) -> DucklakeResult<TableRef> {
        container.table_by_id(self)
    }
}

impl<'a> TryIntoRef<TableRef> for &'a TableName {
    open spec fn can_resolve(&self, container: &Catalog) -> bool {
        container.wf()
    }

    open spec fn resolves_to(&self, container: &Catalog, r: DucklakeResult<TableRef>) -> bool {
        match field_lookup(container.schema_names(), self.schema@) {
            None => r matches Err(e) && e is NotFound,
            Some(i) => match field_lookup(container.tables_of(i as int), self.name@) {
                Some(t) => r == Ok::<TableRef, DucklakeError>(TableRef(ArenaIdx(t))),
                None => r matches Err(e) && e is NotFound,
            },
        }
    }

    fn try_into_ref(self, container: &Catalog) -> DucklakeResult<TableRef> {
        container.table_by_name(self)
    }
}

/// The arena index of the table of this name in the schema of this name, if any.
pub open spec fn table_lookup(c: Catalog, schema: Seq<char>, table: Seq<char>) -> Option<usize> {
    match field_lookup(c.schema_names(), schema) {
        Some(i) => field_lookup(c.tables_of(i as int), table),
        None => None,
    }
}

/// A schema added under a new name is found by that name; every other name is found as
/// before.
pub proof fn lemma_add_schema_read_back(before: Catalog, after: Catalog, name: Seq<char>, n: usize, other: Seq<char>)
    requires
        field_lookup(before.schema_names(), name) is None,
        after.schema_names() == before.schema_names().push((name, n)),
    ensures
        field_lookup(after.schema_names(), name) == Some(n),
        other != name ==> field_lookup(after.schema_names(), other) == field_lookup(before.schema_names(), other),
{
    lemma_field_position(before.schema_names(), name);
    assert(field_insert(before.schema_names(), name, n) == before.schema_names().push((name, n)));
    lemma_lookup_after_insert(before.schema_names(), name, n, other);
}

/// A table added to its schema is found by its qualified name; every other qualified name
/// denotes what it denoted before.
pub proof fn lemma_add_table_read_back(
    before: Catalog,
    after: Catalog,
    schema: Seq<char>,
    table: Seq<char>,
    n: usize,
    other_schema: Seq<char>,
    other_table: Seq<char>,
)
    requires
        before.wf(),
        field_lookup(before.schema_names(), schema) is Some,
        table_lookup(before, schema, table) is None,
        after.schema_names() == before.schema_names(),
        ({
            let i = field_lookup(before.schema_names(), schema)->0 as int;
            &&& after.tables_of(i) == before.tables_of(i).push((table, n))
            &&& forall|j: int| 0 <= j < before.schema_list().len() && j != i ==> #[trigger] after.tables_of(j) == before.tables_of(j)
        }),
    ensures
        table_lookup(after, schema, table) == Some(n),
        other_schema != schema || other_table != table ==> table_lookup(after, other_schema, other_table) == table_lookup(
            before,
            other_schema,
            other_table,
        ),
{
    let i = field_lookup(before.schema_names(), schema)->0 as int;
    let e = before.tables_of(i);
    lemma_field_position(e, table);
    assert(field_insert(e, table, n) == e.push((table, n)));
    lemma_lookup_after_insert(e, table, n, other_table);
    lemma_field_position(before.schema_names(), schema);
    match field_lookup(before.schema_names(), other_schema) {
        Some(j) => {
            lemma_field_position(before.schema_names(), other_schema);
            let q = field_position(before.schema_names(), other_schema)->0;
            assert(before.schema_names()[q].1 < before.schema_list().len());
            if other_schema != schema {
                let p = field_position(before.schema_names(), schema)->0;
                assert(before.schema_names()[p].0 != before.schema_names()[q].0);
                assert(p != q);
            }
            if j as int != i {
                assert(after.tables_of(j as int) == before.tables_of(j as int));
            }
        },
        None => {},
    }
}

/// After a table is renamed, its new name denotes it and its old name denotes nothing; every
/// other name of its schema denotes what it denoted before.
pub proof fn lemma_rename_table_read_back(e: Seq<(Seq<char>, usize)>, renamed: Seq<(Seq<char>, usize)>, old_name: Seq<char>, new_name: Seq<char>, t: usize, other: Seq<char>)
    requires
        unique_names(e),
        field_lookup(e, old_name) == Some(t),
        field_lookup(e, new_name) is None,
        renamed == field_remove(e, old_name).push((new_name, t)),
    ensures
        field_lookup(renamed, new_name) == Some(t),
        field_lookup(renamed, old_name) is None,
        other != old_name && other != new_name ==> field_lookup(renamed, other) == field_lookup(e, other),
{
    let r = field_remove(e, old_name);
    lemma_lookup_after_remove(e, old_name, new_name);
    lemma_lookup_after_remove(e, old_name, other);
    lemma_field_position(r, new_name);
    assert(field_insert(r, new_name, t) == r.push((new_name, t)));
    lemma_lookup_after_insert(r, new_name, t, old_name);
    lemma_lookup_after_insert(r, new_name, t, other);
}

/// After a schema is deleted, its name denotes nothing; every other name denotes what it
/// denoted before.
pub proof fn lemma_delete_schema_read_back(before: Catalog, after: Catalog, name: Seq<char>, other: Seq<char>)
    requires
        before.wf(),
        after.schema_names() == field_remove(before.schema_names(), name),
    ensures
        field_lookup(after.schema_names(), name) is None,
        other != name ==> field_lookup(after.schema_names(), other) == field_lookup(before.schema_names(), other),
{
    lemma_lookup_after_remove(before.schema_names(), name, other);
}

} // verus!
