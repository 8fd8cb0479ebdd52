use std::collections::HashMap;
use std::sync::Arc;

use vstd::prelude::*;

use crate::catalog::Catalog;
use crate::error::{DucklakeError, DucklakeResult};
use crate::value::{value_kind, value_order, Order, Value, ValueModel};

verus! {

broadcast use vstd::std_specs::hash::group_hash_axioms;

/// Statistics of a single column of a table.
#[derive(Debug)]
pub struct ColumnStats {
    contains_null: Option<bool>,
    contains_nan: Option<bool>,
    min_value: Option<Value>,
    max_value: Option<Value>,
    /// Whether the column stats have been persisted to the database. This is used to determine
    /// whether to insert or update upon changes.
    is_persisted: bool,
}

/// Statistics of a table.
#[derive(Debug)]
pub struct TableStats {
    next_row_id: i64,
    record_count: Option<i64>,
    file_size_bytes: Option<i64>,
    column_stats: HashMap<i64, ColumnStats>,
    /// Whether the table stats have been persisted to the database. This is used to determine
    /// whether to insert or update upon changes.
    is_persisted: bool,
}

/// Model of an optional value.
pub open spec fn opt_model(v: Option<Value>) -> Option<ValueModel> {
    match v {
        Some(x) => Some(x@),
        None => None,
    }
}

/// Three-valued "or" of two optional flags: a known `true` on either side wins; otherwise the
/// result is known only if both sides are known.
pub open spec fn merge_flag(old: Option<bool>, new: Option<bool>) -> Option<bool> {
    match (old, new) {
        (Some(a), Some(b)) => Some(a || b),
        (None, Some(true)) => Some(true),
        (Some(true), None) => Some(true),
        _ => None,
    }
}

/// The lower bound kept when a candidate minimum is merged into a current one: the smaller of
/// the two if both exist and are comparable, nothing if they are incomparable, and whichever
/// exists otherwise.
pub open spec fn merge_min(old: Option<Value>, new: Option<Value>) -> Option<ValueModel> {
    match (old, new) {
        (Some(o), Some(n)) => match value_order(o, n) {
            Some(Order::Greater) => Some(n@),
            Some(_) => Some(o@),
            None => None,
        },
        (Some(o), None) => Some(o@),
        (None, Some(n)) => Some(n@),
        (None, None) => None,
    }
}

/// The upper bound kept when a candidate maximum is merged into a current one.
pub open spec fn merge_max(old: Option<Value>, new: Option<Value>) -> Option<ValueModel> {
    match (old, new) {
        (Some(o), Some(n)) => match value_order(o, n) {
            Some(Order::Less) => Some(n@),
            Some(_) => Some(o@),
            None => None,
        },
        (Some(o), None) => Some(o@),
        (None, Some(n)) => Some(n@),
        (None, None) => None,
    }
}

/// Two values are the same: the same kind (and so the same width) and the same model.
pub open spec fn same_value(a: Value, b: Value) -> bool {
    a@ == b@ && value_kind(a) == value_kind(b)
}

/// Two optional values are the same (see `same_value`).
pub open spec fn same_opt(a: Option<Value>, b: Option<Value>) -> bool {
    match (a, b) {
        (Some(x), Some(y)) => same_value(x, y),
        (None, None) => true,
        _ => false,
    }
}

/// The stored lower bound after a candidate minimum is merged into the current one (see
/// `merge_min`): the smaller value itself, as it was given.
pub open spec fn merge_min_raw(old: Option<Value>, new: Option<Value>) -> Option<Value> {
    match (old, new) {
        (Some(o), Some(n)) => match value_order(o, n) {
            Some(Order::Greater) => Some(n),
            Some(_) => Some(o),
            None => None,
        },
        (Some(o), None) => Some(o),
        (None, Some(n)) => Some(n),
        (None, None) => None,
    }
}

/// The stored upper bound after a candidate maximum is merged into the current one.
pub open spec fn merge_max_raw(old: Option<Value>, new: Option<Value>) -> Option<Value> {
    match (old, new) {
        (Some(o), Some(n)) => match value_order(o, n) {
            Some(Order::Less) => Some(n),
            Some(_) => Some(o),
            None => None,
        },
        (Some(o), None) => Some(o),
        (None, Some(n)) => Some(n),
        (None, None) => None,
    }
}

/// Adds an optional count to an optional total, treating a missing total as zero.
pub open spec fn add_optional(total: Option<i64>, n: int) -> int {
    match total {
        Some(t) => t + n,
        None => n,
    }
}

impl ColumnStats {
    pub closed spec fn contains_null_spec(&self) -> Option<bool> {
        self.contains_null
    }

    pub closed spec fn contains_nan_spec(&self) -> Option<bool> {
        self.contains_nan
    }

    pub closed spec fn min_spec(&self) -> Option<ValueModel> {
        opt_model(self.min_value)
    }

    pub closed spec fn max_spec(&self) -> Option<ValueModel> {
        opt_model(self.max_value)
    }

    pub closed spec fn persisted_spec(&self) -> bool {
        self.is_persisted
    }

    /// The stored lower bound.
    pub closed spec fn min_raw(&self) -> Option<Value> {
        self.min_value
    }

    /// The stored upper bound.
    pub closed spec fn max_raw(&self) -> Option<Value> {
        self.max_value
    }

    pub broadcast proof fn lemma_bounds_models(&self)
        ensures
            #[trigger] self.min_spec() == opt_model(self.min_raw()),
            #[trigger] self.max_spec() == opt_model(self.max_raw()),
    {
    }

    /// The statistics of a column that holds no rows yet.
    pub open spec fn is_fresh(&self) -> bool {
        &&& self.contains_null_spec() == Some(false)
        &&& self.contains_nan_spec() == Some(false)
        &&& self.min_spec() is None
        &&& self.max_spec() is None
        &&& !self.persisted_spec()
    }

    pub fn default() -> (result: Self)
        ensures
            result.is_fresh(),
    {
        ColumnStats {
            contains_null: Some(false),
            contains_nan: Some(false),
            min_value: None,
            max_value: None,
            is_persisted: false,
        }
    }

    /// Column statistics as loaded from the catalog database, which are persisted.
    pub fn persisted(
        contains_null: Option<bool>,
        contains_nan: Option<bool>,
        min_value: Option<Value>,
        max_value: Option<Value>,
    ) -> (result: Self)
        ensures
            result.contains_null_spec() == contains_null,
            result.contains_nan_spec() == contains_nan,
            result.min_spec() == opt_model(min_value),
            result.max_spec() == opt_model(max_value),
            result.min_raw() == min_value,
            result.max_raw() == max_value,
            result.persisted_spec(),
    {
        ColumnStats { contains_null, contains_nan, min_value, max_value, is_persisted: true }
    }

    pub fn contains_null(&self) -> (result: Option<bool>)
        ensures
            result == self.contains_null_spec(),
    {
        self.contains_null
    }

    pub fn contains_nan(&self) -> (result: Option<bool>)
        ensures
            result == self.contains_nan_spec(),
    {
        self.contains_nan
    }

    pub fn min_value(&self) -> (result: Option<&Value>)
        ensures
            match result {
                Some(v) => self.min_spec() == Some(v@) && self.min_raw() == Some(*v),
                None => self.min_spec() is None && self.min_raw() is None,
            },
    {
        self.min_value.as_ref()
    }

    pub fn max_value(&self) -> (result: Option<&Value>)
        ensures
            match result {
                Some(v) => self.max_spec() == Some(v@) && self.max_raw() == Some(*v),
                None => self.max_spec() is None && self.max_raw() is None,
            },
    {
        self.max_value.as_ref()
    }

    pub fn is_persisted(&self) -> (result: bool)
        ensures
            result == self.persisted_spec(),
    {
        self.is_persisted
    }

    pub fn update_contains_null(&mut self, contains_null: Option<bool>)
        ensures
            final(self).contains_null_spec() == merge_flag(
                old(self).contains_null_spec(),
                contains_null,
            ),
            final(self).contains_nan_spec() == old(self).contains_nan_spec(),
            final(self).min_spec() == old(self).min_spec(),
            final(self).max_spec() == old(self).max_spec(),
            final(self).min_raw() == old(self).min_raw(),
            final(self).max_raw() == old(self).max_raw(),
            final(self).persisted_spec() == old(self).persisted_spec(),
    {
        self.contains_null = match (self.contains_null, contains_null) {
            (Some(old), Some(new)) => Some(old || new),
            (None, Some(true)) | (Some(true), None) => Some(true),
            _ => None,
        };
    }

    pub fn update_contains_nan(&mut self, contains_nan: Option<bool>)
        ensures
            final(self).contains_nan_spec() == merge_flag(
                old(self).contains_nan_spec(),
                contains_nan,
            ),
            final(self).contains_null_spec() == old(self).contains_null_spec(),
            final(self).min_spec() == old(self).min_spec(),
            final(self).max_spec() == old(self).max_spec(),
            final(self).min_raw() == old(self).min_raw(),
            final(self).max_raw() == old(self).max_raw(),
            final(self).persisted_spec() == old(self).persisted_spec(),
    {
        self.contains_nan = match (self.contains_nan, contains_nan) {
            (Some(old), Some(new)) => Some(old || new),
            (None, Some(true)) | (Some(true), None) => Some(true),
            _ => None,
        };
    }

    pub fn update_min_value(&mut self, min_value: Option<&Value>)
        ensures
            same_opt(
                final(self).min_raw(),
                merge_min_raw(
                    old(self).min_raw(),
                    match min_value {
                        Some(v) => Some(*v),
                        None => None,
                    },
                ),
            ),
            final(self).max_raw() == old(self).max_raw(),
            final(self).min_spec() == merge_min(
                old(self).min_raw(),
                match min_value {
                    Some(v) => Some(*v),
                    None => None,
                },
            ),
            final(self).contains_null_spec() == old(self).contains_null_spec(),
            final(self).contains_nan_spec() == old(self).contains_nan_spec(),
            final(self).max_spec() == old(self).max_spec(),
            final(self).persisted_spec() == old(self).persisted_spec(),
    {
        let current = self.min_value.take();
        self.min_value = match (current, min_value) {
            (Some(old), Some(new)) => match old.compare(new) {
                Some(Order::Greater) => Some(new.duplicate()),
                Some(_) => Some(old),
                None => None,
            },
            (Some(old), None) => Some(old),
            (None, Some(new)) => Some(new.duplicate()),
            (None, None) => None,
        };
    }

    pub fn update_max_value(&mut self, max_value: Option<&Value>)
        ensures
            same_opt(
                final(self).max_raw(),
                merge_max_raw(
                    old(self).max_raw(),
                    match max_value {
                        Some(v) => Some(*v),
                        None => None,
                    },
                ),
            ),
            final(self).min_raw() == old(self).min_raw(),
            final(self).max_spec() == merge_max(
                old(self).max_raw(),
                match max_value {
                    Some(v) => Some(*v),
                    None => None,
                },
            ),
            final(self).contains_null_spec() == old(self).contains_null_spec(),
            final(self).contains_nan_spec() == old(self).contains_nan_spec(),
            final(self).min_spec() == old(self).min_spec(),
            final(self).persisted_spec() == old(self).persisted_spec(),
    {
        let current = self.max_value.take();
        self.max_value = match (current, max_value) {
            (Some(old), Some(new)) => match old.compare(new) {
                Some(Order::Less) => Some(new.duplicate()),
                Some(_) => Some(old),
                None => None,
            },
            (Some(old), None) => Some(old),
            (None, Some(new)) => Some(new.duplicate()),
            (None, None) => None,
        };
    }

    pub fn set_persisted(&mut self)
        ensures
            final(self).persisted_spec(),
            final(self).contains_null_spec() == old(self).contains_null_spec(),
            final(self).contains_nan_spec() == old(self).contains_nan_spec(),
            final(self).min_spec() == old(self).min_spec(),
            final(self).max_spec() == old(self).max_spec(),
            final(self).min_raw() == old(self).min_raw(),
            final(self).max_raw() == old(self).max_raw(),
    {
        self.is_persisted = true;
    }
}

impl TableStats {
    pub closed spec fn next_row_id_spec(&self) -> int {
        self.next_row_id as int
    }

    pub closed spec fn record_count_spec(&self) -> Option<i64> {
        self.record_count
    }

    pub closed spec fn file_size_bytes_spec(&self) -> Option<i64> {
        self.file_size_bytes
    }

    pub closed spec fn persisted_spec(&self) -> bool {
        self.is_persisted
    }

    /// The column statistics, by column ID.
    pub closed spec fn columns_spec(&self) -> Map<i64, ColumnStats> {
        self.column_stats@
    }

    /// The statistics of a table that holds no rows yet.
    pub fn default() -> (result: Self)
        ensures
            result.next_row_id_spec() == 0,
            result.record_count_spec() == Some(0i64),
            result.file_size_bytes_spec() == Some(0i64),
            result.columns_spec() == Map::<i64, ColumnStats>::empty(),
            !result.persisted_spec(),
    {
        TableStats {
            next_row_id: 0,
            record_count: Some(0),
            file_size_bytes: Some(0),
            column_stats: HashMap::new(),
            is_persisted: false,
        }
    }

    /// Table statistics as loaded from the catalog database, which are persisted and carry no
    /// column statistics yet.
    pub fn persisted(next_row_id: i64, record_count: Option<i64>, file_size_bytes: Option<i64>) -> (result: Self)
        ensures
            result.next_row_id_spec() == next_row_id,
            result.record_count_spec() == record_count,
            result.file_size_bytes_spec() == file_size_bytes,
            result.columns_spec() == Map::<i64, ColumnStats>::empty(),
            result.persisted_spec(),
    {
        TableStats {
            next_row_id,
            record_count,
            file_size_bytes,
            column_stats: HashMap::new(),
            is_persisted: true,
        }
    }

    pub fn next_row_id(&self) -> (result: i64)
        ensures
            result == self.next_row_id_spec(),
    {
        self.next_row_id
    }

    pub fn record_count(&self) -> (result: Option<i64>)
        ensures
            result == self.record_count_spec(),
    {
        self.record_count
    }

    pub fn file_size_bytes(&self) -> (result: Option<i64>)
        ensures
            result == self.file_size_bytes_spec(),
    {
        self.file_size_bytes
    }

    pub fn is_persisted(&self) -> (result: bool)
        ensures
            result == self.persisted_spec(),
    {
        self.is_persisted
    }

    pub fn column_stats(&self, column_id: i64) -> (result: Option<&ColumnStats>)
        ensures
            match result {
                Some(c) => self.columns_spec().contains_key(column_id) && *c == self.columns_spec()[column_id],
                None => !self.columns_spec().contains_key(column_id),
            },
    {
        self.column_stats.get(&column_id)
    }

    pub fn advance_row_id(&mut self, record_count: i64)
        requires
            i64::MIN <= old(self).next_row_id_spec() + record_count <= i64::MAX,
        ensures
            final(self).next_row_id_spec() == old(self).next_row_id_spec() + record_count,
            final(self).record_count_spec() == old(self).record_count_spec(),
            final(self).file_size_bytes_spec() == old(self).file_size_bytes_spec(),
            final(self).columns_spec() == old(self).columns_spec(),
            final(self).persisted_spec() == old(self).persisted_spec(),
    {
        self.next_row_id = self.next_row_id + record_count;
    }

    pub fn add_record_count(&mut self, record_count: i64)
        requires
            i64::MIN <= add_optional(old(self).record_count_spec(), record_count as int) <= i64::MAX,
        ensures
            final(self).record_count_spec() == Some(
                add_optional(old(self).record_count_spec(), record_count as int) as i64,
            ),
            final(self).next_row_id_spec() == old(self).next_row_id_spec(),
            final(self).file_size_bytes_spec() == old(self).file_size_bytes_spec(),
            final(self).columns_spec() == old(self).columns_spec(),
            final(self).persisted_spec() == old(self).persisted_spec(),
    {
        let current = match self.record_count {
            Some(n) => n,
            None => 0,
        };
        self.record_count = Some(current + record_count);
    }

    pub fn add_file_size_bytes(&mut self, file_size_bytes: Option<i64>)
        requires
            file_size_bytes matches Some(n) ==> i64::MIN <= add_optional(
                old(self).file_size_bytes_spec(),
                n as int,
            ) <= i64::MAX,
        ensures
            final(self).file_size_bytes_spec() == match file_size_bytes {
                Some(n) => Some(add_optional(old(self).file_size_bytes_spec(), n as int) as i64),
                None => old(self).file_size_bytes_spec(),
            },
            final(self).next_row_id_spec() == old(self).next_row_id_spec(),
            final(self).record_count_spec() == old(self).record_count_spec(),
            final(self).columns_spec() == old(self).columns_spec(),
            final(self).persisted_spec() == old(self).persisted_spec(),
    {
        self.file_size_bytes = match file_size_bytes {
            Some(n) => {
                let current = match self.file_size_bytes {
                    Some(t) => t,
                    None => 0,
                };
                Some(current + n)
            },
            None => self.file_size_bytes,
        };
    }

    pub fn set_persisted(&mut self)
        ensures
            final(self).persisted_spec(),
            final(self).next_row_id_spec() == old(self).next_row_id_spec(),
            final(self).record_count_spec() == old(self).record_count_spec(),
            final(self).file_size_bytes_spec() == old(self).file_size_bytes_spec(),
            final(self).columns_spec() == old(self).columns_spec(),
    {
        self.is_persisted = true;
    }

    /// The statistics of a column, created fresh if the table has none for it yet.
    pub fn column_stats_mut(&mut self, column_id: i64) -> (result: &mut ColumnStats)
        ensures
            old(self).columns_spec().contains_key(column_id) ==> *result == old(
                self,
            ).columns_spec()[column_id],
            !old(self).columns_spec().contains_key(column_id) ==> result.is_fresh(),
            final(self).columns_spec() == old(self).columns_spec().insert(column_id, *final(result)),
            final(self).next_row_id_spec() == old(self).next_row_id_spec(),
            final(self).record_count_spec() == old(self).record_count_spec(),
            final(self).file_size_bytes_spec() == old(self).file_size_bytes_spec(),
            final(self).persisted_spec() == old(self).persisted_spec(),
    {
        self.column_stats.entry(column_id).or_insert(ColumnStats::default())
    }
}

/// A row of `ducklake_table_stats`.
#[derive(Debug, Clone, Copy)]
pub struct DucklakeTableStats {
    pub table_id: i64,
    pub record_count: Option<i64>,
    pub next_row_id: i64,
    pub file_size_bytes: Option<i64>,
}

/// A row of `ducklake_table_column_stats`, with its bounds read as values of the column's
/// type.
#[derive(Debug)]
pub struct DucklakeTableColumnStats {
    pub table_id: i64,
    pub column_id: i64,
    pub contains_null: Option<bool>,
    pub contains_nan: Option<bool>,
    pub min_value: Option<Value>,
    pub max_value: Option<Value>,
}

/// The last table statistics row of table `id`, if any.
pub open spec fn last_table_row(t: Seq<DucklakeTableStats>, id: i64) -> Option<DucklakeTableStats>
    decreases t.len(),
{
    if t.len() == 0 {
        None
    } else if t.last().table_id == id {
        Some(t.last())
    } else {
        last_table_row(t.drop_last(), id)
    }
}

/// The last column statistics row of column `cid` of table `tid`, if any.
pub open spec fn last_column_row(c: Seq<DucklakeTableColumnStats>, tid: i64, cid: i64) -> Option<DucklakeTableColumnStats>
    decreases c.len(),
{
    if c.len() == 0 {
        None
    } else if c.last().table_id == tid && c.last().column_id == cid {
        Some(c.last())
    } else {
        last_column_row(c.drop_last(), tid, cid)
    }
}

/// Persisted column statistics with the flags and bounds of a row.
pub open spec fn column_stats_of(s: ColumnStats, row: DucklakeTableColumnStats) -> bool {
    &&& s.contains_null_spec() == row.contains_null
    &&& s.contains_nan_spec() == row.contains_nan
    &&& same_opt(s.min_raw(), row.min_value)
    &&& same_opt(s.max_raw(), row.max_value)
    &&& s.persisted_spec()
}

/// Persisted table statistics with the counts of a row.
pub open spec fn table_counts_of(s: TableStats, row: DucklakeTableStats) -> bool {
    &&& s.next_row_id_spec() == row.next_row_id
    &&& s.record_count_spec() == row.record_count
    &&& s.file_size_bytes_spec() == row.file_size_bytes
    &&& s.persisted_spec()
}

/// The statistics of table `id` loaded from its last row and the last row of each of its
/// columns among `columns`.
pub open spec fn table_stats_of(s: TableStats, row: DucklakeTableStats, columns: Seq<DucklakeTableColumnStats>) -> bool {
    &&& table_counts_of(s, row)
    &&& forall|cid: i64| #[trigger] s.columns_spec().contains_key(cid) <==> last_column_row(columns, row.table_id, cid) is Some
    &&& forall|cid: i64|
        #[trigger] s.columns_spec().contains_key(cid) ==> column_stats_of(
            s.columns_spec()[cid],
            last_column_row(columns, row.table_id, cid)->0,
        )
}

/// Some row of `t` is of table `id`.
pub open spec fn has_table_row(t: Seq<DucklakeTableStats>, id: i64) -> bool {
    exists|q: int| 0 <= q < t.len() && #[trigger] t[q].table_id == id
}

/// Every column statistics row is of a table with a table statistics row.
pub open spec fn columns_have_tables(t: Seq<DucklakeTableStats>, c: Seq<DucklakeTableColumnStats>) -> bool {
    forall|k: int| 0 <= k < c.len() ==> has_table_row(t, #[trigger] c[k].table_id)
}

/// A table with a row in `t` has a last row.
proof fn lemma_last_table_row(t: Seq<DucklakeTableStats>, k: int)
    requires
        0 <= k < t.len(),
    ensures
        last_table_row(t, t[k].table_id) matches Some(r) && r.table_id == t[k].table_id,
    decreases t.len(),
{
    if t.last().table_id != t[k].table_id {
        assert(k < t.len() - 1);
        assert(t.drop_last()[k] == t[k]);
        lemma_last_table_row(t.drop_last(), k);
    }
}

/// A table's last row names that table.
proof fn lemma_last_table_row_id(t: Seq<DucklakeTableStats>, id: i64)
    ensures
        last_table_row(t, id) matches Some(r) ==> r.table_id == id,
    decreases t.len(),
{
    if t.len() > 0 && t.last().table_id != id {
        lemma_last_table_row_id(t.drop_last(), id);
    }
}

/// A copy of an optional value.
fn copy_opt(v: &Option<Value>) -> (r: Option<Value>)
    ensures
        same_opt(r, *v),
{
    match v {
        Some(x) => Some(x.duplicate()),
        None => None,
    }
}

impl TableStats {
    /// The statistics of the tables of a snapshot, from the rows of `ducklake_table_stats` and
    /// `ducklake_table_column_stats`: each table and each of its columns takes its last row.
    /// Fails with `EntityNotFound` when a table is not in the catalog.
    pub fn load_all(
        catalog: &Catalog,
        tables: &Vec<DucklakeTableStats>,
        columns: &Vec<DucklakeTableColumnStats>,
    ) -> (r: DucklakeResult<HashMap<i64, TableStats>>)
        requires
            columns_have_tables(tables@, columns@),
        ensures
            r is Err <==> exists|k: int| 0 <= k < tables@.len() && !catalog.table_ids().contains_key(#[trigger] tables@[k].table_id),
            r matches Err(e) ==> exists|k: int|
                0 <= k < tables@.len() && !catalog.table_ids().contains_key(#[trigger] tables@[k].table_id) && e
                    == (DucklakeError::EntityNotFound { id: tables@[k].table_id }),
            r matches Ok(m) ==> {
                &&& forall|id: i64| #[trigger] m@.contains_key(id) <==> last_table_row(tables@, id) is Some
                &&& forall|id: i64|
                    #[trigger] m@.contains_key(id) ==> table_stats_of(m@[id], last_table_row(tables@, id)->0, columns@)
            },
    {
        let mut k: usize = 0;
        while k < tables.len()
            invariant
                k <= tables@.len(),
                forall|q: int| 0 <= q < k ==> catalog.table_ids().contains_key(#[trigger] tables@[q].table_id),
                columns_have_tables(tables@, columns@),
            decreases tables@.len() - k,
        {
            match catalog.table_by_id(tables[k].table_id) {
                Ok(_) => {},
                Err(e) => {
                    return Err(e);
                },
            }
            k = k + 1;
        }
        let mut map: HashMap<i64, TableStats> = HashMap::new();
        let mut i: usize = 0;
        while i < tables.len()
            invariant
                i <= tables@.len(),
                columns_have_tables(tables@, columns@),
                forall|id: i64| #[trigger] map@.contains_key(id) <==> last_table_row(tables@.take(i as int), id) is Some,
                forall|id: i64|
                    #[trigger] map@.contains_key(id) ==> table_counts_of(map@[id], last_table_row(tables@.take(i as int), id)->0)
                        && map@[id].columns_spec() == Map::<i64, ColumnStats>::empty(),
            decreases tables@.len() - i,
        {
            let row = &tables[i];
            let ts = TableStats::persisted(row.next_row_id, row.record_count, row.file_size_bytes);
            map.insert(row.table_id, ts);
            assert(tables@.take(i + 1).drop_last() =~= tables@.take(i as int));
            i = i + 1;
        }
        assert(tables@.take(tables@.len() as int) =~= tables@);
        let ghost cs = columns@;
        let mut j: usize = 0;
        while j < columns.len()
            invariant
                j <= cs.len(),
                cs == columns@,
                columns_have_tables(tables@, columns@),
                forall|id: i64| #[trigger] map@.contains_key(id) <==> last_table_row(tables@, id) is Some,
                forall|id: i64|
                    #[trigger] map@.contains_key(id) ==> table_stats_of(map@[id], last_table_row(tables@, id)->0, cs.take(j as int)),
            decreases cs.len() - j,
        {
            let c = &columns[j];
            let tid = c.table_id;
            proof {
                assert(has_table_row(tables@, columns@[j as int].table_id));
                let q = choose|q: int| 0 <= q < tables@.len() && #[trigger] tables@[q].table_id == columns@[j as int].table_id;
                lemma_last_table_row(tables@, q);
                lemma_last_table_row_id(tables@, tid);
            }
            let ghost before = map@;
            let mut ts = map.remove(&tid).unwrap();
            let ghost old_cols = ts.column_stats@;
            let stats = ColumnStats::persisted(c.contains_null, c.contains_nan, copy_opt(&c.min_value), copy_opt(&c.max_value));
            let ghost new_stats = stats;
            ts.column_stats.insert(c.column_id, stats);
            map.insert(tid, ts);
            proof {
                let pre = cs.take(j as int);
                let post = cs.take(j + 1);
                assert(post.drop_last() =~= pre);
                assert(post.last() == cs[j as int]);
                assert forall|id: i64| #[trigger] map@.contains_key(id) implies table_stats_of(
                    map@[id],
                    last_table_row(tables@, id)->0,
                    post,
                ) by {
                    lemma_last_table_row_id(tables@, id);
                    assert(before.contains_key(id));
                    assert(table_stats_of(before[id], last_table_row(tables@, id)->0, pre));
                    let t = map@[id];
                    if id == tid {
                        assert(t.columns_spec() == old_cols.insert(c.column_id, new_stats));
                        assert(old_cols == before[id].columns_spec());
                    } else {
                        assert(t == before[id]);
                    }
                    assert forall|cid: i64| #[trigger] t.columns_spec().contains_key(cid) <==> last_column_row(post, id, cid) is Some by {
                        if id == tid {
                            if cid != c.column_id {
                                assert(last_column_row(post, id, cid) == last_column_row(pre, id, cid));
                            }
                        } else {
                            assert(last_column_row(post, id, cid) == last_column_row(pre, id, cid));
                        }
                    }
                    assert forall|cid: i64| #[trigger] t.columns_spec().contains_key(cid) implies column_stats_of(
                        t.columns_spec()[cid],
                        last_column_row(post, id, cid)->0,
                    ) by {
                        if id == tid {
                            if cid != c.column_id {
                                assert(last_column_row(post, id, cid) == last_column_row(pre, id, cid));
                            }
                        } else {
                            assert(last_column_row(post, id, cid) == last_column_row(pre, id, cid));
                        }
                    }
                }
            }
            j = j + 1;
        }
        assert(cs.take(cs.len() as int) =~= cs);
        Ok(map)
    }
}

/// Cache of the table statistics of each catalog state, keyed by the next file ID of the
/// snapshot (table statistics only change when files are added).
pub struct TableStatsCache {
    table_stats: HashMap<i64, Arc<HashMap<i64, TableStats>>>,
}

impl TableStatsCache {
    /// The cached statistics, by next file ID.
    pub closed spec fn entries(&self) -> Map<i64, Arc<HashMap<i64, TableStats>>> {
        self.table_stats@
    }

    pub fn new() -> (result: Self)
        ensures
            result.entries() == Map::<i64, Arc<HashMap<i64, TableStats>>>::empty(),
    {
        TableStatsCache { table_stats: HashMap::new() }
    }

    /// The cached statistics for a next file ID, if they were loaded before.
    pub fn get(&self, next_file_id: i64) -> (result: Option<Arc<HashMap<i64, TableStats>>>)
        ensures
            match result {
                Some(s) => self.entries().contains_key(next_file_id) && s == self.entries()[next_file_id],
                None => !self.entries().contains_key(next_file_id),
            },
    {
        match self.table_stats.get(&next_file_id) {
            Some(stats) => Some(stats.clone()),
            None => None,
        }
    }

    /// Records freshly loaded statistics for a next file ID and hands out the shared copy.
    pub fn insert(&mut self, next_file_id: i64, stats: HashMap<i64, TableStats>) -> (result: Arc<HashMap<i64, TableStats>>)
        ensures
            *result == stats,
            final(self).entries() == old(self).entries().insert(next_file_id, result),
    {
        let shared = Arc::new(stats);
        self.table_stats.insert(next_file_id, shared.clone());
        shared
    }
}

/// Merging flags is commutative and associative: the merged flag of a series of updates does
/// not depend on their order.
pub proof fn lemma_merge_flag_order_independent(a: Option<bool>, b: Option<bool>, c: Option<bool>)
    ensures
        merge_flag(a, b) == merge_flag(b, a),
        merge_flag(merge_flag(a, b), c) == merge_flag(a, merge_flag(b, c)),
{
}

/// A known `true` flag stays `true` under every later update.
pub proof fn lemma_merge_flag_true_is_sticky(b: Option<bool>)
    ensures
        merge_flag(Some(true), b) == Some(true),
{
}

/// A stored bound that is the same value as another (same kind and model) merges like it:
/// repeated updates of a bound are determined by the values given, whatever copy was kept.
pub proof fn lemma_merge_same(a: Option<Value>, b: Option<Value>, n: Option<Value>)
    requires
        same_opt(a, b),
    ensures
        same_opt(merge_min_raw(a, n), merge_min_raw(b, n)),
        same_opt(merge_max_raw(a, n), merge_max_raw(b, n)),
{
}

} // verus!
