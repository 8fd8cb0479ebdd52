use std::collections::HashMap;

use indexmap::IndexMap;
use vstd::prelude::*;

use crate::arena::ArenaIdx;
use crate::dtype::{copy_opt_string, copy_tags, is_nested, Column, ColumnDefault, DataType, Tag};
use crate::flatten::{
    col_size, flat_node, flatten, flatten_fields, kind_children, lemma_flatten, lemma_flatten_fields, lemma_flatten_fields_step, lemma_prefix_size,
    prefix_size, seg_wf, struct_entries, FlatKind, FlatNode,
};
use crate::error::{DucklakeError, DucklakeResult};
use crate::fields::{
    field_entries, field_insert, field_lookup, field_position, field_targets, fields_contains,
    fields_get, fields_insert, fields_new, fields_values, lemma_field_position, lemma_insert_unique,
    lemma_lookup_after_insert, lemma_unique_lookup, unique_names,
};
use crate::text::{concat_str, str_eq, to_owned_string};

verus! {

broadcast use vstd::std_specs::hash::group_hash_axioms;

/// The state of an entity in the catalog.
///
/// When reading the catalog from DuckLake, all entities are `Existing`. Entities created
/// within a transaction are `Pending` (they have no ID yet); entities deleted within a
/// transaction are marked `Deleted` to keep their information until the changes are committed.
#[derive(Debug, Clone, Copy, PartialEq, Eq, Structural)]
pub enum CatalogState {
    Pending,
    Existing { id: i64 },
    Deleted { id: i64 },
}

impl CatalogState {
    /// The ID of the entity, if it has one.
    pub fn id(&self) -> (r: Option<i64>)
        ensures
            r == match *self {
                CatalogState::Existing { id } => Some(id),
                CatalogState::Deleted { id } => Some(id),
                CatalogState::Pending => None,
            },
    {
        match self {
            CatalogState::Existing { id } | CatalogState::Deleted { id } => Some(*id),
            CatalogState::Pending => None,
        }
    }
}

/// Data type of a catalog column; nested types refer to their children by arena index.
#[derive(Debug)]
pub enum CatalogDataType {
    Primitive(DataType),
    List(ArenaIdx),
    Struct(IndexMap<String, ArenaIdx>),
    MapOf(ArenaIdx, ArenaIdx),
}

/// A column within a table in a catalog: a root column or a child of a nested column.
#[derive(Debug)]
pub struct CatalogColumn {
    pub state: CatalogState,
    pub name: String,
    pub dtype: CatalogDataType,
    pub parent_column: Option<ArenaIdx>,
    pub nullable: bool,
    pub tags: Vec<Tag>,
    pub initial_default: Option<String>,
    pub default_value: ColumnDefault,
}

/// The columns of a table: all columns, nested ones included, in a flat arena.
#[derive(Debug)]
pub struct CatalogColumns {
    /// Arena holding all columns, including nested ones.
    pub arena: Vec<CatalogColumn>,
    /// Mapping from column ID to arena index. Does not include pending columns, which have no
    /// ID yet, nor deleted ones.
    pub by_id: HashMap<i64, ArenaIdx>,
    /// Arena indices of the root columns, by name, in schema order.
    pub root_columns: IndexMap<String, ArenaIdx>,
}

/// Arena indices of the children of a column of the given type, in order.
pub open spec fn dtype_children(t: CatalogDataType) -> Seq<usize> {
    match t {
        CatalogDataType::Primitive(_) => Seq::empty(),
        CatalogDataType::List(e) => seq![e.0],
        CatalogDataType::Struct(m) => field_targets(field_entries(m)),
        CatalogDataType::MapOf(k, v) => seq![k.0, v.0],
    }
}

/// Pre-order of the subtree rooted at `i` in a forest given by each node's children; only
/// children after their parent are followed.
pub open spec fn subtree(shape: Seq<Seq<usize>>, i: int) -> Seq<ArenaIdx>
    decreases shape.len() - i, (if 0 <= i < shape.len() { shape[i].len() + 1 } else { 0 }),
{
    if 0 <= i < shape.len() {
        seq![ArenaIdx(i as usize)] + subforest(shape, i, 0)
    } else {
        Seq::empty()
    }
}

/// Concatenated pre-orders of the subtrees of the children of `i` from the `k`-th on.
pub open spec fn subforest(shape: Seq<Seq<usize>>, i: int, k: int) -> Seq<ArenaIdx>
    decreases shape.len() - i, (if 0 <= i < shape.len() && 0 <= k <= shape[i].len() { shape[i].len() - k } else { 0 }),
{
    if 0 <= i < shape.len() && 0 <= k < shape[i].len() {
        let c = shape[i][k] as int;
        (if i < c < shape.len() { subtree(shape, c) } else { Seq::empty() }) + subforest(shape, i, k + 1)
    } else {
        Seq::empty()
    }
}

impl CatalogColumns {
    pub open spec fn len(&self) -> int {
        self.arena@.len() as int
    }

    /// The children of each column, by arena index.
    pub open spec fn shape(&self) -> Seq<Seq<usize>> {
        self.arena@.map_values(|c: CatalogColumn| dtype_children(c.dtype))
    }

    pub open spec fn children(&self, i: int) -> Seq<usize> {
        dtype_children(self.arena@[i].dtype)
    }

    pub open spec fn roots(&self) -> Seq<(Seq<char>, usize)> {
        field_entries(self.root_columns)
    }

    pub open spec fn node_wf(&self, i: int) -> bool {
        &&& forall|k: int|
            #![trigger self.children(i)[k]]
            0 <= k < self.children(i).len() ==> i < self.children(i)[k] < self.len()
                && self.arena@[self.children(i)[k] as int].parent_column == Some(ArenaIdx(i as usize))
        &&& (self.arena@[i].dtype matches CatalogDataType::Struct(m) ==> unique_names(field_entries(m)))
        &&& (self.arena@[i].dtype matches CatalogDataType::Primitive(d) ==> !is_nested(d))
    }

    /// Well-formedness: children come after their parent in the arena and point back to it;
    /// names are unique among root columns and among the fields of each struct; root columns
    /// have no parent; IDs map to columns in the arena.
    pub open spec fn wf(&self) -> bool {
        &&& forall|i: int| 0 <= i < self.len() ==> #[trigger] self.node_wf(i)
        &&& unique_names(self.roots())
        &&& forall|k: int|
            #![trigger self.roots()[k]]
            0 <= k < self.roots().len() ==> self.roots()[k].1 < self.len()
                && self.arena@[self.roots()[k].1 as int].parent_column is None
        &&& forall|id: i64| #[trigger] self.by_id@.contains_key(id) ==> self.by_id@[id].0 < self.len()
    }

    /// Pre-order of the subtree rooted at column `i`.
    pub open spec fn subtree_of(&self, i: int) -> Seq<ArenaIdx> {
        subtree(self.shape(), i)
    }

    /// Whether `name` is taken among the children of `parent` (or among the root columns).
    pub open spec fn name_taken(&self, parent: Option<ArenaIdx>, name: Seq<char>) -> bool {
        match parent {
            None => field_lookup(self.roots(), name) is Some,
            Some(p) => match self.arena@[p.0 as int].dtype {
                CatalogDataType::Struct(m) => field_lookup(field_entries(m), name) is Some,
                _ => false,
            },
        }
    }

    /// Whether columns may be attached under `parent`: the root level or a struct column.
    pub open spec fn can_hold_fields(&self, parent: Option<ArenaIdx>) -> bool {
        match parent {
            None => true,
            Some(p) => 0 <= p.0 < self.len() && self.arena@[p.0 as int].dtype is Struct,
        }
    }

    /// The shape of the arena has one entry per column: the children of that column.
    pub proof fn lemma_shape(&self, i: int)
        requires
            0 <= i < self.len(),
        ensures
            self.shape().len() == self.len(),
            self.shape()[i] == self.children(i),
    {
    }
}

/// One step of a path through nested columns: a struct field by name, `element` of a list,
/// `key` or `value` of a map.
pub open spec fn path_step(cols: CatalogColumns, i: int, part: Seq<char>) -> Option<usize> {
    match cols.arena@[i].dtype {
        CatalogDataType::Struct(m) => field_lookup(field_entries(m), part),
        CatalogDataType::List(e) => if part == "element"@ { Some(e.0) } else { None },
        CatalogDataType::MapOf(k, v) => if part == "key"@ {
            Some(k.0)
        } else if part == "value"@ {
            Some(v.0)
        } else {
            None
        },
        CatalogDataType::Primitive(_) => None,
    }
}

/// The column reached from column `i` by following the parts of `path` from the `k`-th on.
pub open spec fn follow_path(cols: CatalogColumns, i: int, path: Seq<Seq<char>>, k: int) -> Option<usize>
    decreases path.len() - k,
{
    if k >= path.len() || k < 0 {
        Some(i as usize)
    } else {
        match path_step(cols, i, path[k]) {
            Some(j) => follow_path(cols, j as int, path, k + 1),
            None => None,
        }
    }
}

/// The column a path of names denotes: a root column by its name, then nested columns.
pub open spec fn resolve_path(cols: CatalogColumns, path: Seq<Seq<char>>) -> Option<usize> {
    match field_lookup(cols.roots(), path[0]) {
        Some(r) => follow_path(cols, r as int, path, 1),
        None => None,
    }
}

/// Views of a slice of strings.
pub open spec fn string_views(path: Seq<String>) -> Seq<Seq<char>> {
    path.map_values(|s: String| s@)
}

/// Marks column `n` deleted, if it exists: its state becomes `Deleted` and its ID is no longer
/// mapped.
pub open spec fn mark_step(a: Seq<CatalogColumn>, ids: Map<i64, ArenaIdx>, n: usize) -> Option<(Seq<CatalogColumn>, Map<i64, ArenaIdx>)> {
    match a[n as int].state {
        CatalogState::Existing { id } => Some(
            (
                a.update(n as int, CatalogColumn { state: CatalogState::Deleted { id }, ..a[n as int] }),
                ids.remove(id),
            ),
        ),
        _ => None,
    }
}

/// Marks the columns of `order` deleted, one after the other, stopping at the first one that
/// does not exist (is pending or already deleted). Returns the arena, the ID mapping, the
/// columns marked, and whether every column was marked.
pub open spec fn mark_all(a: Seq<CatalogColumn>, ids: Map<i64, ArenaIdx>, done: Seq<ArenaIdx>, order: Seq<ArenaIdx>) -> (Seq<CatalogColumn>, Map<i64, ArenaIdx>, Seq<ArenaIdx>, bool)
    decreases order.len(),
{
    if order.len() == 0 {
        (a, ids, done, true)
    } else {
        match mark_step(a, ids, order[0].0) {
            Some((a2, ids2)) => mark_all(a2, ids2, done.push(order[0]), order.drop_first()),
            None => (a, ids, done, false),
        }
    }
}

/// Marking the columns of `o1 + o2` marks those of `o1` and then, if that succeeded, those of
/// `o2`.
pub proof fn lemma_mark_all_concat(a: Seq<CatalogColumn>, ids: Map<i64, ArenaIdx>, done: Seq<ArenaIdx>, o1: Seq<ArenaIdx>, o2: Seq<ArenaIdx>)
    ensures
        mark_all(a, ids, done, o1 + o2) == ({
            let r = mark_all(a, ids, done, o1);
            if r.3 {
                mark_all(r.0, r.1, r.2, o2)
            } else {
                r
            }
        }),
    decreases o1.len(),
{
    if o1.len() == 0 {
        assert(o1 + o2 =~= o2);
    } else {
        assert((o1 + o2).drop_first() =~= o1.drop_first() + o2);
        assert((o1 + o2)[0] == o1[0]);
        match mark_step(a, ids, o1[0].0) {
            Some((a2, ids2)) => {
                lemma_mark_all_concat(a2, ids2, done.push(o1[0]), o1.drop_first(), o2);
            },
            None => {},
        }
    }
}

impl CatalogColumns {
    /// The arena indices of the children of column `idx`, in order.
    fn child_indices(&self, idx: ArenaIdx) -> (r: Vec<ArenaIdx>)
        requires
            idx.0 < self.len(),
        ensures
            r@.len() == self.children(idx.0 as int).len(),
            forall|k: int| 0 <= k < r@.len() ==> r@[k].0 == self.children(idx.0 as int)[k],
    {
        match &self.arena[idx.0].dtype {
            CatalogDataType::Primitive(_) => Vec::new(),
            CatalogDataType::List(e) => {
                let mut v = Vec::new();
                v.push(*e);
                v
            },
            CatalogDataType::Struct(m) => fields_values(m),
            CatalogDataType::MapOf(k, val) => {
                let mut v = Vec::new();
                v.push(*k);
                v.push(*val);
                v
            },
        }
    }

    /// Appends the pre-order of the subtree rooted at `idx` to `result`.
    fn aggregate_column_indices(&self, idx: ArenaIdx, result: &mut Vec<ArenaIdx>)
        requires
            self.wf(),
            idx.0 < self.len(),
        ensures
            final(result)@ == old(result)@ + self.subtree_of(idx.0 as int),
        decreases self.len() - idx.0,
    {
        let ghost start = result@;
        let ghost i = idx.0 as int;
        proof {
            self.lemma_shape(i);
        }
        result.push(idx);
        let children = self.child_indices(idx);
        let n = children.len();
        let mut k: usize = 0;
        assert(self.subtree_of(i) == seq![idx] + subforest(self.shape(), i, 0));
        while k < n
            invariant
                self.wf(),
                0 <= i < self.len(),
                idx.0 == i,
                n == children@.len(),
                n == self.shape()[i].len(),
                self.shape().len() == self.len(),
                forall|j: int| 0 <= j < n ==> children@[j].0 == self.shape()[i][j],
                k <= n,
                result@ + subforest(self.shape(), i, k as int) == start + self.subtree_of(i),
            decreases n - k,
        {
            let c = children[k];
            assert(self.node_wf(i));
            assert(self.children(i)[k as int] == c.0);
            assert(i < c.0 < self.len());
            let ghost before = result@;
            self.aggregate_column_indices(c, result);
            assert(subforest(self.shape(), i, k as int) == self.subtree_of(c.0 as int) + subforest(self.shape(), i, k + 1));
            assert(before + subforest(self.shape(), i, k as int) =~= result@ + subforest(self.shape(), i, k + 1));
            k = k + 1;
        }
        assert(result@ + subforest(self.shape(), i, n as int) =~= result@);
    }

    /// For each root column, in schema order, the pre-order of its subtree.
    pub fn root_column_indices(&self) -> (r: Vec<Vec<ArenaIdx>>)
        requires
            self.wf(),
        ensures
            r@.len() == self.roots().len(),
            forall|k: int| 0 <= k < r@.len() ==> r@[k]@ == self.subtree_of(#[trigger] self.roots()[k].1 as int),
    {
        let roots = fields_values(&self.root_columns);
        let mut result: Vec<Vec<ArenaIdx>> = Vec::new();
        let mut k: usize = 0;
        while k < roots.len()
            invariant
                self.wf(),
                roots@.len() == self.roots().len(),
                forall|j: int| 0 <= j < roots@.len() ==> roots@[j].0 == self.roots()[j].1,
                k <= roots@.len(),
                result@.len() == k,
                forall|j: int| 0 <= j < k ==> result@[j]@ == self.subtree_of(#[trigger] self.roots()[j].1 as int),
            decreases roots@.len() - k,
        {
            let idx = roots[k];
            assert(self.roots()[k as int].1 < self.len());
            let mut indices: Vec<ArenaIdx> = Vec::new();
            self.aggregate_column_indices(idx, &mut indices);
            assert(indices@ =~= self.subtree_of(idx.0 as int));
            result.push(indices);
            k = k + 1;
        }
        result
    }

    /// The arena index of the column a path of names denotes.
    pub fn arena_idx_by_path(&self, path: &[String]) -> (r: DucklakeResult<ArenaIdx>)
        requires
            self.wf(),
            path@.len() >= 1,
        ensures
            match r {
                Ok(idx) => resolve_path(*self, string_views(path@)) == Some(idx.0) && idx.0 < self.len(),
                Err(e) => resolve_path(*self, string_views(path@)) is None && e is NotFound,
            },
    {
        let ghost p = string_views(path@);
        let mut idx = match fields_get(&self.root_columns, path[0].as_str()) {
            Some(idx) => idx,
            None => return Err(column_path_not_found(path)),
        };
        proof {
            lemma_field_position(self.roots(), p[0]);
        }
        let mut k: usize = 1;
        while k < path.len()
            invariant
                self.wf(),
                p == string_views(path@),
                1 <= k <= path@.len(),
                idx.0 < self.len(),
                resolve_path(*self, p) == follow_path(*self, idx.0 as int, p, k as int),
            decreases path@.len() - k,
        {
            let part = path[k].as_str();
            assert(p[k as int] == part@);
            let next = match &self.arena[idx.0].dtype {
                CatalogDataType::Struct(fields) => fields_get(fields, part),
                CatalogDataType::List(e) => if str_eq(part, "element") {
                    Some(*e)
                } else {
                    None
                },
                CatalogDataType::MapOf(key, value) => if str_eq(part, "key") {
                    Some(*key)
                } else if str_eq(part, "value") {
                    Some(*value)
                } else {
                    None
                },
                CatalogDataType::Primitive(_) => None,
            };
            assert(next == match path_step(*self, idx.0 as int, p[k as int]) {
                Some(j) => Some(ArenaIdx(j)),
                None => None::<ArenaIdx>,
            });
            match next {
                Some(j) => {
                    proof {
                        assert(self.node_wf(idx.0 as int));
                        match self.arena@[idx.0 as int].dtype {
                            CatalogDataType::Struct(m) => {
                                lemma_field_position(field_entries(m), p[k as int]);
                                let pos = field_position(field_entries(m), p[k as int]).unwrap();
                                assert(self.children(idx.0 as int)[pos] == j.0);
                            },
                            CatalogDataType::List(_) => {
                                assert(self.children(idx.0 as int)[0] == j.0);
                            },
                            CatalogDataType::MapOf(_, _) => {
                                if p[k as int] == "key"@ {
                                    assert(self.children(idx.0 as int)[0] == j.0);
                                } else {
                                    assert(self.children(idx.0 as int)[1] == j.0);
                                }
                            },
                            _ => {},
                        }
                    }
                    idx = j;
                },
                None => return Err(column_path_not_found(path)),
            }
            k = k + 1;
        }
        Ok(idx)
    }

    /// Checks that no sibling under `parent` (or no root column) is named `name`.
    fn ensure_column_unique_at_parent(&self, parent: Option<ArenaIdx>, name: &str) -> (r: DucklakeResult<()>)
        requires
            self.can_hold_fields(parent),
        ensures
            r is Ok <==> !self.name_taken(parent, name@),
            r matches Err(e) ==> (e matches DucklakeError::AlreadyExists { entity, name: n } && entity@ == "column"@ && n@ == name@),
    {
        let exists = match parent {
            None => fields_contains(&self.root_columns, name),
            Some(idx) => match &self.arena[idx.0].dtype {
                CatalogDataType::Struct(fields) => fields_contains(fields, name),
                _ => false,
            },
        };
        if exists {
            return Err(DucklakeError::column_already_exists(name));
        }
        Ok(())
    }

    /// Renames a column, provided no sibling already has the new name. Only the column itself
    /// takes the new name; the name under which its parent (or the root level) lists it is
    /// left as it is.
    pub fn rename_column(&mut self, idx: ArenaIdx, new_name: &str) -> (r: DucklakeResult<ArenaIdx>)
        requires
            old(self).wf(),
            idx.0 < old(self).len(),
            old(self).can_hold_fields(old(self).arena@[idx.0 as int].parent_column),
        ensures
            r is Ok <==> !old(self).name_taken(old(self).arena@[idx.0 as int].parent_column, new_name@),
            r matches Ok(i) ==> i == idx && final(self).arena@ == old(self).arena@.update(
                idx.0 as int,
                CatalogColumn { name: final(self).arena@[idx.0 as int].name, ..old(self).arena@[idx.0 as int] },
            ) && final(self).arena@[idx.0 as int].name@ == new_name@,
            r matches Err(e) ==> final(self).arena@ == old(self).arena@ && (e matches DucklakeError::AlreadyExists { entity, name }
                && entity@ == "column"@ && name@ == new_name@),
            final(self).by_id@ == old(self).by_id@,
            final(self).root_columns == old(self).root_columns,
            final(self).wf(),
    {
        let parent = self.arena[idx.0].parent_column;
        self.ensure_column_unique_at_parent(parent, new_name)?;
        let ghost before = self.arena@;
        self.arena[idx.0].name = new_name.to_owned();
        assert(self.shape() =~= old(self).shape());
        assert forall|i: int| 0 <= i < self.len() implies #[trigger] self.node_wf(i) by {
            assert(old(self).node_wf(i));
            assert(self.children(i) == old(self).children(i));
        }
        assert(self.arena@ =~= before.update(
            idx.0 as int,
            CatalogColumn { name: self.arena@[idx.0 as int].name, ..before[idx.0 as int] },
        ));
        Ok(idx)
    }
}

impl CatalogColumns {
    /// Marks the subtree rooted at `idx` deleted, in pre-order, stopping at the first column
    /// that does not exist.
    fn mark_column_deleted(&mut self, idx: ArenaIdx, deletions: &mut Vec<ArenaIdx>) -> (r: DucklakeResult<()>)
        requires
            old(self).wf(),
            idx.0 < old(self).len(),
        ensures
            final(self).wf(),
            final(self).shape() == old(self).shape(),
            final(self).root_columns == old(self).root_columns,
            forall|i: int| 0 <= i < final(self).len() ==> (#[trigger] final(self).arena@[i]).parent_column == old(self).arena@[i].parent_column,
            ({
                let m = mark_all(old(self).arena@, old(self).by_id@, old(deletions)@, old(self).subtree_of(idx.0 as int));
                &&& final(self).arena@ == m.0
                &&& final(self).by_id@ == m.1
                &&& final(deletions)@ == m.2
                &&& r is Ok <==> m.3
            }),
            r matches Err(e) ==> e is InvalidChanges,
        decreases old(self).len() - idx.0,
    {
        let ghost i = idx.0 as int;
        let ghost a0 = self.arena@;
        let ghost ids0 = self.by_id@;
        let ghost d0 = deletions@;
        proof {
            self.lemma_shape(i);
        }
        let state = self.arena[idx.0].state;
        match state {
            CatalogState::Existing { id } => {
                self.by_id.remove(&id);
                self.arena[idx.0].state = CatalogState::Deleted { id };
            },
            CatalogState::Pending => {
                assert(mark_all(a0, ids0, d0, self.subtree_of(i)) == (a0, ids0, d0, false));
                return Err(DucklakeError::InvalidChanges(
                    "cannot delete column which was created in the same transaction".to_owned(),
                ));
            },
            CatalogState::Deleted { .. } => {
                assert(mark_all(a0, ids0, d0, self.subtree_of(i)) == (a0, ids0, d0, false));
                return Err(DucklakeError::InvalidChanges(
                    "cannot delete column which is already deleted".to_owned(),
                ));
            },
        }
        deletions.push(idx);
        let ghost shape = old(self).shape();
        let ghost tail = subforest(shape, i, 0);
        assert(self.arena@ =~= mark_step(a0, ids0, idx.0).unwrap().0);
        assert(self.by_id@ =~= mark_step(a0, ids0, idx.0).unwrap().1);
        assert(self.shape() =~= shape);
        assert forall|j: int| 0 <= j < self.len() implies #[trigger] self.node_wf(j) by {
            assert(old(self).node_wf(j));
            assert(self.children(j) == old(self).children(j));
        }
        assert(old(self).subtree_of(i) == seq![idx] + tail);
        assert((seq![idx] + tail).drop_first() =~= tail);
        assert(mark_all(a0, ids0, d0, old(self).subtree_of(i)) == mark_all(self.arena@, self.by_id@, deletions@, tail));
        let children = self.child_indices(idx);
        let n = children.len();
        let mut k: usize = 0;
        let mut outcome: DucklakeResult<()> = Ok(());
        while k < n && outcome.is_ok()
            invariant
                self.wf(),
                self.shape() == shape,
                shape == old(self).shape(),
                shape.len() == self.len(),
                self.len() == old(self).len(),
                0 <= i < self.len(),
                idx.0 == i,
                n == children@.len(),
                n == shape[i].len(),
                forall|j: int| 0 <= j < n ==> children@[j].0 == shape[i][j],
                k <= n,
                self.root_columns == old(self).root_columns,
                forall|j: int| 0 <= j < self.len() ==> (#[trigger] self.arena@[j]).parent_column == old(self).arena@[j].parent_column,
                outcome is Ok ==> mark_all(a0, ids0, d0, old(self).subtree_of(i)) == mark_all(self.arena@, self.by_id@, deletions@, subforest(shape, i, k as int)),
                outcome is Err ==> mark_all(a0, ids0, d0, old(self).subtree_of(i)) == (self.arena@, self.by_id@, deletions@, false),
                outcome matches Err(e) ==> e is InvalidChanges,
            decreases n - k,
        {
            let c = children[k];
            assert(self.node_wf(i));
            assert(self.children(i)[k as int] == c.0);
            assert(i < c.0 < self.len());
            let ghost a1 = self.arena@;
            let ghost ids1 = self.by_id@;
            let ghost d1 = deletions@;
            proof {
                assert(subforest(shape, i, k as int) == subtree(shape, c.0 as int) + subforest(shape, i, k + 1));
                lemma_mark_all_concat(a1, ids1, d1, subtree(shape, c.0 as int), subforest(shape, i, k + 1));
            }
            outcome = self.mark_column_deleted(c, deletions);
            k = k + 1;
        }
        if outcome.is_ok() {
            assert(subforest(shape, i, n as int) =~= Seq::<ArenaIdx>::empty());
        }
        outcome
    }

    /// Marks a column and all its nested columns deleted (in pre-order), returning the
    /// columns marked. Fails when one of them was created in the same transaction or is
    /// already deleted; the columns visited before it stay marked.
    pub fn remove_column(&mut self, idx: ArenaIdx) -> (r: DucklakeResult<Vec<ArenaIdx>>)
        requires
            old(self).wf(),
            idx.0 < old(self).len(),
        ensures
            final(self).wf(),
            final(self).root_columns == old(self).root_columns,
            ({
                let m = mark_all(old(self).arena@, old(self).by_id@, Seq::empty(), old(self).subtree_of(idx.0 as int));
                &&& final(self).arena@ == m.0
                &&& final(self).by_id@ == m.1
                &&& (r is Ok <==> m.3)
                &&& (r matches Ok(d) ==> d@ == m.2 && d@ == old(self).subtree_of(idx.0 as int))
            }),
            r matches Err(e) ==> e is InvalidChanges,
    {
        let mut deletions: Vec<ArenaIdx> = Vec::new();
        let res = self.mark_column_deleted(idx, &mut deletions);
        proof {
            lemma_mark_all_done(old(self).arena@, old(self).by_id@, Seq::empty(), old(self).subtree_of(idx.0 as int));
        }
        match res {
            Ok(()) => Ok(deletions),
            Err(e) => Err(e),
        }
    }
}

/// When every column is marked, the marked columns are the whole order, after those marked
/// before.
pub proof fn lemma_mark_all_done(a: Seq<CatalogColumn>, ids: Map<i64, ArenaIdx>, done: Seq<ArenaIdx>, order: Seq<ArenaIdx>)
    ensures
        mark_all(a, ids, done, order).3 ==> mark_all(a, ids, done, order).2 == done + order,
    decreases order.len(),
{
    if order.len() > 0 {
        match mark_step(a, ids, order[0].0) {
            Some((a2, ids2)) => {
                lemma_mark_all_done(a2, ids2, done.push(order[0]), order.drop_first());
                assert(done.push(order[0]) + order.drop_first() =~= done + order);
            },
            None => {},
        }
    } else {
        assert(done + order =~= done);
    }
}

/// The names of the first `n` parts of a column path, joined by `.`.
pub open spec fn dotted_path(path: Seq<String>, n: int) -> Seq<char>
    decreases n,
{
    if n <= 0 {
        Seq::empty()
    } else if n == 1 {
        path[0]@
    } else {
        dotted_path(path, n - 1) + "."@ + path[n - 1]@
    }
}

/// The error for a path that denotes no column: a missing column named by the path's parts
/// joined by `.`.
fn column_path_not_found(path: &[String]) -> (e: DucklakeError)
    ensures
        e matches DucklakeError::NotFound { entity, name } && entity@ == "column"@ && name@ == dotted_path(
            path@,
            path@.len() as int,
        ),
{
    let mut name = String::new();
    let mut k: usize = 0;
    while k < path.len()
        invariant
            k <= path@.len(),
            name@ == dotted_path(path@, k as int),
        decreases path@.len() - k,
    {
        if k > 0 {
            name = concat_str(name.as_str(), ".");
        }
        name = concat_str(name.as_str(), path[k].as_str());
        proof {
            if k == 0 {
                assert(name@ =~= path@[0]@);
            }
        }
        k = k + 1;
    }
    proof {
        reveal_strlit("column");
    }
    DucklakeError::NotFound { entity: "column", name }
}


/// An arena column stands for a laid-out column: a pending column with its name, parent,
/// nullability, tags and defaults, and a data type of the laid-out shape.
pub open spec fn node_matches(cc: CatalogColumn, f: FlatNode) -> bool {
    &&& cc.state == CatalogState::Pending
    &&& cc.name@ == f.name
    &&& cc.parent_column == f.parent
    &&& cc.nullable == f.nullable
    &&& cc.tags@ == f.tags
    &&& cc.initial_default == f.initial_default
    &&& cc.default_value == f.default_value
    &&& match cc.dtype {
        CatalogDataType::Primitive(d) => f.kind == FlatKind::Prim(d),
        CatalogDataType::List(e) => f.kind == FlatKind::List(e.0),
        CatalogDataType::Struct(m) => f.kind == FlatKind::Struct(field_entries(m)),
        CatalogDataType::MapOf(a, b) => f.kind == FlatKind::MapOf(a.0, b.0),
    }
}

/// The arena columns from `start` on stand for the laid-out columns `nodes`, in order.
pub open spec fn segment_matches(a: Seq<CatalogColumn>, start: int, nodes: Seq<FlatNode>) -> bool {
    &&& 0 <= start
    &&& start + nodes.len() <= a.len()
    &&& forall|j: int| 0 <= j < nodes.len() ==> node_matches(a[start + j], #[trigger] nodes[j])
}

/// The field entries of column `i` if it is a struct, else none.
pub open spec fn struct_fields_of(cols: CatalogColumns, i: int) -> Seq<(Seq<char>, usize)> {
    match cols.arena@[i].dtype {
        CatalogDataType::Struct(m) => field_entries(m),
        _ => Seq::empty(),
    }
}

/// A column laid out from a flat node has the node's children, struct entries and primitive
/// type.
pub proof fn lemma_node_matches_children(cc: CatalogColumn, f: FlatNode)
    requires
        node_matches(cc, f),
    ensures
        dtype_children(cc.dtype) == kind_children(f.kind),
        f.kind matches FlatKind::Struct(es) ==> (cc.dtype matches CatalogDataType::Struct(m) && field_entries(m) == es),
        f.kind matches FlatKind::Prim(d) ==> (cc.dtype matches CatalogDataType::Primitive(d2) && d2 == d),
{
}

/// The columns after appending the layout of `c` under `parent` (and listing it there) are
/// well-formed.
proof fn lemma_added_wf(old_cols: CatalogColumns, new_cols: CatalogColumns, parent: Option<ArenaIdx>, c: Column)
    requires
        old_cols.wf(),
        old_cols.can_hold_fields(parent),
        !old_cols.name_taken(parent, c.name@),
        old_cols.len() + col_size(c) <= usize::MAX,
        new_cols.len() == old_cols.len() + col_size(c),
        segment_matches(new_cols.arena@, old_cols.len(), flatten(c, parent, old_cols.len())),
        forall|i: int|
            0 <= i < old_cols.len() && parent != Some(ArenaIdx(i as usize)) ==> #[trigger] new_cols.arena@[i] == old_cols.arena@[i],
        parent matches Some(p) ==> ({
            &&& new_cols.arena@[p.0 as int] == CatalogColumn { dtype: new_cols.arena@[p.0 as int].dtype, ..old_cols.arena@[p.0 as int] }
            &&& new_cols.arena@[p.0 as int].dtype is Struct
            &&& struct_fields_of(new_cols, p.0 as int) == struct_fields_of(old_cols, p.0 as int).push((c.name@, old_cols.len() as usize))
            &&& new_cols.root_columns == old_cols.root_columns
        }),
        parent is None ==> new_cols.roots() == old_cols.roots().push((c.name@, old_cols.len() as usize)),
        new_cols.by_id@ == old_cols.by_id@,
    ensures
        new_cols.wf(),
{
    let n0 = old_cols.len();
    let fl = flatten(c, parent, n0);
    lemma_flatten(c, parent, n0);
    assert(node_matches(new_cols.arena@[n0 + 0], fl[0]));
    assert(new_cols.arena@[n0].parent_column == parent);
    // Parents of the old columns are unchanged.
    assert forall|i: int| 0 <= i < n0 implies (#[trigger] new_cols.arena@[i]).parent_column == old_cols.arena@[i].parent_column by {
        if parent != Some(ArenaIdx(i as usize)) {
            assert(new_cols.arena@[i] == old_cols.arena@[i]);
        }
    }
    assert forall|i: int| 0 <= i < new_cols.len() implies #[trigger] new_cols.node_wf(i) by {
        if i >= n0 {
            let j = i - n0;
            assert(node_matches(new_cols.arena@[n0 + j], fl[j]));
            assert(new_cols.arena@[n0 + j] == new_cols.arena@[i]);
            lemma_node_matches_children(new_cols.arena@[i], fl[j]);
            assert forall|k: int| 0 <= k < new_cols.children(i).len() implies i < #[trigger] new_cols.children(i)[k] < new_cols.len()
                && new_cols.arena@[new_cols.children(i)[k] as int].parent_column == Some(ArenaIdx(i as usize)) by {
                assert(kind_children(fl[j].kind)[k] == new_cols.children(i)[k]);
                let ch = new_cols.children(i)[k] as int;
                let jj = ch - n0;
                assert(node_matches(new_cols.arena@[n0 + jj], fl[jj]));
            }
        } else {
            assert(old_cols.node_wf(i));
            if parent == Some(ArenaIdx(i as usize)) {
                let olde = struct_fields_of(old_cols, i);
                assert(old_cols.children(i) == field_targets(olde));
                assert(new_cols.children(i) == field_targets(olde.push((c.name@, n0 as usize))));
                assert forall|k: int| 0 <= k < new_cols.children(i).len() implies i < #[trigger] new_cols.children(i)[k] < new_cols.len()
                    && new_cols.arena@[new_cols.children(i)[k] as int].parent_column == Some(ArenaIdx(i as usize)) by {
                    if k < olde.len() {
                        assert(new_cols.children(i)[k] == old_cols.children(i)[k]);
                    } else {
                        assert(new_cols.children(i)[k] == n0);
                    }
                }
                lemma_field_position(olde, c.name@);
                lemma_insert_unique(olde, c.name@, n0 as usize);
                assert(field_insert(olde, c.name@, n0 as usize) == olde.push((c.name@, n0 as usize)));
            } else {
                assert(new_cols.arena@[i] == old_cols.arena@[i]);
                assert forall|k: int| 0 <= k < new_cols.children(i).len() implies i < #[trigger] new_cols.children(i)[k] < new_cols.len()
                    && new_cols.arena@[new_cols.children(i)[k] as int].parent_column == Some(ArenaIdx(i as usize)) by {
                    assert(new_cols.children(i)[k] == old_cols.children(i)[k]);
                }
            }
        }
    }
    if parent is None {
        let olde = old_cols.roots();
        lemma_field_position(olde, c.name@);
        lemma_insert_unique(olde, c.name@, n0 as usize);
        assert(field_insert(olde, c.name@, n0 as usize) == olde.push((c.name@, n0 as usize)));
        assert forall|k: int| 0 <= k < new_cols.roots().len() implies #[trigger] new_cols.roots()[k].1 < new_cols.len()
            && new_cols.arena@[new_cols.roots()[k].1 as int].parent_column is None by {
            if k < olde.len() {
                assert(new_cols.roots()[k] == olde[k]);
            }
        }
    } else {
        assert forall|k: int| 0 <= k < new_cols.roots().len() implies #[trigger] new_cols.roots()[k].1 < new_cols.len()
            && new_cols.arena@[new_cols.roots()[k].1 as int].parent_column is None by {
            assert(new_cols.roots()[k] == old_cols.roots()[k]);
        }
    }
}

impl CatalogColumns {
    /// Appends column `column` and all columns nested in it, in pre-order, as pending columns
    /// under `parent`. Returns the column's own index.
    fn add_subtree(&mut self, column: Column, parent: Option<ArenaIdx>) -> (r: ArenaIdx)
        requires
            old(self).len() + col_size(column) <= usize::MAX,
        ensures
            r.0 == old(self).len(),
            final(self).len() == old(self).len() + col_size(column),
            forall|i: int| 0 <= i < old(self).len() ==> #[trigger] final(self).arena@[i] == old(self).arena@[i],
            segment_matches(final(self).arena@, old(self).len(), flatten(column, parent, old(self).len())),
            final(self).by_id@ == old(self).by_id@,
            final(self).root_columns == old(self).root_columns,
        decreases col_size(column),
    {
        let n0 = self.arena.len();
        let ghost c0 = column;
        let ghost fl = flatten(c0, parent, n0 as int);
        proof {
            lemma_flatten(c0, parent, n0 as int);
        }
        let Column { name, dtype, nullable, tags, initial_default, default_value, field_id: _ } = column;
        self.arena.push(
            CatalogColumn {
                state: CatalogState::Pending,
                name,
                dtype: CatalogDataType::Primitive(DataType::Boolean),
                parent_column: parent,
                nullable,
                tags,
                initial_default,
                default_value,
            },
        );
        let me = ArenaIdx(n0);
        let ghost a1 = self.arena@;
        match dtype {
            DataType::List(e) => {
                let ghost child = *e;
                let c = self.add_subtree(*e, Some(me));
                self.arena[n0].dtype = CatalogDataType::List(c);
                let ghost sub = flatten(child, Some(me), n0 + 1);
                assert(fl == seq![flat_node(c0, parent, n0 as int)] + sub);
                assert forall|j: int| 0 <= j < fl.len() implies node_matches(self.arena@[n0 + j], #[trigger] fl[j]) by {
                    if j > 0 {
                        assert(fl[j] == sub[j - 1]);
                        assert(node_matches(self.arena@[n0 + 1 + (j - 1)], sub[j - 1]));
                    }
                }
            },
            DataType::MapOf(k, v) => {
                let ghost kc = *k;
                let ghost vc = *v;
                let a = self.add_subtree(*k, Some(me));
                let ghost mid = self.arena@;
                let b = self.add_subtree(*v, Some(me));
                self.arena[n0].dtype = CatalogDataType::MapOf(a, b);
                let ghost fk = flatten(kc, Some(me), n0 + 1);
                let ghost fv = flatten(vc, Some(me), n0 + 1 + col_size(kc));
                proof {
                    lemma_flatten(kc, Some(me), n0 + 1);
                }
                assert(fl == seq![flat_node(c0, parent, n0 as int)] + (fk + fv));
                assert forall|j: int| 0 <= j < fl.len() implies node_matches(self.arena@[n0 + j], #[trigger] fl[j]) by {
                    if j > 0 && j <= fk.len() {
                        assert(fl[j] == fk[j - 1]);
                        assert(node_matches(mid[n0 + 1 + (j - 1)], fk[j - 1]));
                        assert(self.arena@[n0 + j] == mid[n0 + j]);
                    } else if j > fk.len() {
                        assert(fl[j] == fv[j - 1 - fk.len()]);
                        assert(node_matches(self.arena@[n0 + 1 + col_size(kc) + (j - 1 - fk.len())], fv[j - 1 - fk.len()]));
                    }
                }
            },
            DataType::Struct(fs) => {
                let ghost orig = fs@;
                let n = fs.len();
                let mut rest = fs;
                let mut entries = fields_new();
                let mut k: usize = 0;
                while k < n
                    invariant
                        n == orig.len(),
                        k <= n,
                        rest@ == orig.subrange(k as int, n as int),
                        col_size(c0) == 1 + prefix_size(orig, n as int),
                        c0 == column,
                        me == ArenaIdx(n0),
                        a1.len() == n0 + 1,
                        self.arena@.len() == n0 + 1 + prefix_size(orig, k as int),
                        n0 + col_size(c0) <= usize::MAX,
                        forall|i: int| 0 <= i <= n0 ==> #[trigger] self.arena@[i] == a1[i],
                        segment_matches(self.arena@, n0 + 1, flatten_fields(orig, k as int, n0 as int, n0 + 1)),
                        field_entries(entries) == struct_entries(orig, k as int, n0 + 1),
                        self.by_id@ == old(self).by_id@,
                        self.root_columns == old(self).root_columns,
                    decreases n - k,
                {
                    let f = rest.remove(0);
                    assert(f == orig[k as int]);
                    let fname = to_owned_string(f.name.as_str());
                    let ghost before = self.arena@;
                    proof {
                        lemma_prefix_size(orig, k as int, n as int);
                    }
                    let ci = self.add_subtree(f, Some(me));
                    fields_insert(&mut entries, fname, ci);
                    let ghost prevf = flatten_fields(orig, k as int, n0 as int, n0 + 1);
                    let ghost cur = flatten(orig[k as int], Some(me), n0 + 1 + prefix_size(orig, k as int));
                    proof {
                        lemma_flatten_fields_step(orig, k as int, n0 as int, n0 + 1);
                        lemma_flatten_fields(orig, k as int, n0 as int, n0 + 1);
                    }
                    assert forall|j: int| 0 <= j < (prevf + cur).len() implies node_matches(self.arena@[n0 + 1 + j], #[trigger] (prevf + cur)[j]) by {
                        if j < prevf.len() {
                            assert((prevf + cur)[j] == prevf[j]);
                            assert(node_matches(before[n0 + 1 + j], prevf[j]));
                            assert(self.arena@[n0 + 1 + j] == before[n0 + 1 + j]);
                        } else {
                            assert((prevf + cur)[j] == cur[j - prevf.len()]);
                            assert(node_matches(self.arena@[n0 + 1 + prefix_size(orig, k as int) + (j - prevf.len())], cur[j - prevf.len()]));
                        }
                    }
                    assert(segment_matches(self.arena@, n0 + 1, prevf + cur));
                    k = k + 1;
                    assert(rest@ =~= orig.subrange(k as int, n as int));
                }
                self.arena[n0].dtype = CatalogDataType::Struct(entries);
                let ghost sub = flatten_fields(orig, n as int, n0 as int, n0 + 1);
                assert(fl == seq![flat_node(c0, parent, n0 as int)] + sub);
                assert forall|j: int| 0 <= j < fl.len() implies node_matches(self.arena@[n0 + j], #[trigger] fl[j]) by {
                    if j > 0 {
                        assert(fl[j] == sub[j - 1]);
                        assert(node_matches(self.arena@[n0 + 1 + (j - 1)], sub[j - 1]));
                    }
                }
            },
            d => {
                self.arena[n0].dtype = CatalogDataType::Primitive(d);
                assert(fl =~= seq![flat_node(c0, parent, n0 as int)]);
            },
        }
        me
    }
}


/// `after` is `before` with `column` (and all columns nested in it) appended as pending
/// columns in pre-order under `parent` (a struct column, or the root level), where it is
/// registered last under its name; nothing else changes.
pub open spec fn column_added(before: CatalogColumns, after: CatalogColumns, parent: Option<ArenaIdx>, column: Column) -> bool {
    let n0 = before.len();
    &&& after.len() == n0 + col_size(column)
    &&& segment_matches(after.arena@, n0, flatten(column, parent, n0))
    &&& forall|i: int| 0 <= i < n0 && parent != Some(ArenaIdx(i as usize)) ==> #[trigger] after.arena@[i] == before.arena@[i]
    &&& match parent {
        Some(p) => {
            &&& after.arena@[p.0 as int] == CatalogColumn { dtype: after.arena@[p.0 as int].dtype, ..before.arena@[p.0 as int] }
            &&& after.arena@[p.0 as int].dtype is Struct
            &&& struct_fields_of(after, p.0 as int) == struct_fields_of(before, p.0 as int).push((column.name@, n0 as usize))
            &&& after.root_columns == before.root_columns
        },
        None => after.roots() == before.roots().push((column.name@, n0 as usize)),
    }
}

impl CatalogColumns {
    /// Adds a column (with all columns nested in it) as a pending column, either as a root
    /// column (`parent_idx` is `None`) or as a field of the struct column `parent_idx`. The
    /// new columns are appended to the arena in pre-order; their indices are returned. Fails
    /// when a sibling already has the column's name.
    pub fn add_column(&mut self, parent_idx: Option<ArenaIdx>, column: Column) -> (r: DucklakeResult<Vec<ArenaIdx>>)
        requires
            old(self).wf(),
            old(self).can_hold_fields(parent_idx),
            old(self).len() + col_size(column) <= usize::MAX,
        ensures
            r is Ok <==> !old(self).name_taken(parent_idx, column.name@),
            r matches Err(e) ==> (e matches DucklakeError::AlreadyExists { entity, name } && entity@ == "column"@ && name@
                == column.name@) && final(self).arena@ == old(self).arena@,
            final(self).wf(),
            final(self).by_id@ == old(self).by_id@,
            r matches Ok(idxs) ==> ({
                let n0 = old(self).len();
                &&& column_added(*old(self), *final(self), parent_idx, column)
                &&& idxs@.len() == col_size(column)
                &&& forall|j: int| 0 <= j < idxs@.len() ==> (#[trigger] idxs@[j]).0 == n0 + j
            }),
            r is Err ==> final(self).root_columns == old(self).root_columns,
    {
        self.ensure_column_unique_at_parent(parent_idx, column.name.as_str())?;
        let ghost c0 = column;
        let ghost before = *self;
        let name = to_owned_string(column.name.as_str());
        let n0 = self.arena.len();
        let first = self.add_subtree(column, parent_idx);
        let n1 = self.arena.len();
        let mut idxs: Vec<ArenaIdx> = Vec::new();
        let mut i = n0;
        while i < n1
            invariant
                n0 <= i <= n1,
                idxs@.len() == i - n0,
                forall|j: int| 0 <= j < idxs@.len() ==> (#[trigger] idxs@[j]).0 == n0 + j,
            decreases n1 - i,
        {
            idxs.push(ArenaIdx(i));
            i = i + 1;
        }
        let ghost mid = self.arena@;
        match parent_idx {
            Some(p) => {
                let ghost olde = struct_fields_of(before, p.0 as int);
                match &mut self.arena[p.0].dtype {
                    CatalogDataType::Struct(fields) => {
                        fields_insert(fields, name, first);
                    },
                    _ => {},
                }
                proof {
                    lemma_field_position(olde, c0.name@);
                    assert(field_insert(olde, c0.name@, n0 as usize) == olde.push((c0.name@, n0 as usize)));
                    assert forall|i: int| 0 <= i < self.len() && i != p.0 implies #[trigger] self.arena@[i] == mid[i] by {}
                }
            },
            None => {
                fields_insert(&mut self.root_columns, name, first);
                proof {
                    lemma_field_position(before.roots(), c0.name@);
                    assert(field_insert(before.roots(), c0.name@, n0 as usize) == before.roots().push((c0.name@, n0 as usize)));
                }
            },
        }
        proof {
            assert forall|j: int| 0 <= j < col_size(c0) implies node_matches(self.arena@[n0 + j], #[trigger] flatten(c0, parent_idx, n0 as int)[j]) by {
                lemma_flatten(c0, parent_idx, n0 as int);
                assert(node_matches(mid[n0 + j], flatten(c0, parent_idx, n0 as int)[j]));
                assert(self.arena@[n0 + j] == mid[n0 + j]);
            }
            lemma_flatten(c0, parent_idx, n0 as int);
            lemma_added_wf(before, *self, parent_idx, c0);
        }
        Ok(idxs)
    }
}


/// The arena slot at which the `k`-th of a new table's columns starts.
pub open spec fn slot_of(cols: Seq<Column>, k: int) -> int {
    prefix_size(cols, k) as int
}

/// The root entries of a new table's columns, each with the slot of its first arena entry.
pub open spec fn schema_roots(cols: Seq<Column>) -> Seq<(Seq<char>, usize)> {
    Seq::new(cols.len(), |k: int| (cols[k].name@, prefix_size(cols, k) as usize))
}

/// The columns have distinct names.
pub open spec fn distinct_names(cols: Seq<Column>) -> bool {
    forall|i: int, j: int| 0 <= i < j < cols.len() ==> (#[trigger] cols[i]).name@ != (#[trigger] cols[j]).name@
}

/// `cols` holds exactly the given columns of a new table: each, with all columns nested in
/// it, laid out in order as pending columns, and the root columns named in that order.
pub open spec fn laid_out(cols: CatalogColumns, schema: Seq<Column>) -> bool {
    &&& cols.wf()
    &&& cols.len() == prefix_size(schema, schema.len() as int)
    &&& cols.roots() == schema_roots(schema)
    &&& forall|k: int|
        0 <= k < schema.len() ==> segment_matches(
            cols.arena@,
            slot_of(schema, k),
            #[trigger] flatten(schema[k], None, slot_of(schema, k)),
        )
    &&& cols.by_id@ == Map::<i64, ArenaIdx>::empty()
}

impl CatalogColumns {
    /// A table without columns.
    pub fn new() -> (r: CatalogColumns)
        ensures
            r.wf(),
            r.len() == 0,
            r.roots().len() == 0,
            r.by_id@ == Map::<i64, ArenaIdx>::empty(),
    {
        CatalogColumns { arena: Vec::new(), by_id: HashMap::new(), root_columns: fields_new() }
    }

    /// The pending columns of a new table with the given columns (distinct by name, as in a
    /// schema): each column, with all columns nested in it, laid out in order.
    pub fn from_schema(columns: Vec<Column>) -> (r: CatalogColumns)
        requires
            distinct_names(columns@),
            prefix_size(columns@, columns@.len() as int) <= usize::MAX,
        ensures
            laid_out(r, columns@),
    {
        let ghost orig = columns@;
        let n = columns.len();
        let mut result = CatalogColumns::new();
        let mut rest = columns;
        let mut k: usize = 0;
        while k < n
            invariant
                n == orig.len(),
                k <= n,
                rest@ == orig.subrange(k as int, n as int),
                distinct_names(orig),
                prefix_size(orig, n as int) <= usize::MAX,
                result.wf(),
                result.len() == prefix_size(orig, k as int),
                result.roots() == schema_roots(orig).take(k as int),
                forall|q: int|
                    0 <= q < k ==> segment_matches(
                        result.arena@,
                        slot_of(orig, q),
                        #[trigger] flatten(orig[q], None, slot_of(orig, q)),
                    ),
                result.by_id@ == Map::<i64, ArenaIdx>::empty(),
            decreases n - k,
        {
            let c = rest.remove(0);
            assert(c == orig[k as int]);
            proof {
                lemma_prefix_size(orig, k as int, n as int);
                lemma_field_position(result.roots(), c.name@);
                assert forall|q: int| 0 <= q < result.roots().len() implies result.roots()[q].0 != c.name@ by {
                    assert(result.roots()[q].0 == orig[q].name@);
                }
                if field_lookup(result.roots(), c.name@) is Some {
                    let q = field_position(result.roots(), c.name@).unwrap();
                    assert(result.roots()[q].0 == c.name@);
                }
            }
            let ghost before = result;
            let added = result.add_column(None, c);
            proof {
                assert(added is Ok);
                assert forall|q: int| 0 <= q < k + 1 implies segment_matches(
                    result.arena@,
                    slot_of(orig, q),
                    #[trigger] flatten(orig[q], None, slot_of(orig, q)),
                ) by {
                    if q < k {
                        lemma_prefix_size(orig, q, k as int);
                        lemma_flatten(orig[q], None, slot_of(orig, q));
                        assert forall|j: int| 0 <= j < flatten(orig[q], None, slot_of(orig, q)).len() implies node_matches(
                            result.arena@[slot_of(orig, q) + j],
                            #[trigger] flatten(orig[q], None, slot_of(orig, q))[j],
                        ) by {
                            assert(result.arena@[slot_of(orig, q) + j] == before.arena@[slot_of(orig, q) + j]);
                        }
                    }
                }
                assert(schema_roots(orig).take(k + 1) =~= schema_roots(orig).take(k as int).push((c.name@, prefix_size(orig, k as int) as usize)));
            }
            k = k + 1;
            assert(rest@ =~= orig.subrange(k as int, n as int));
        }
        assert(schema_roots(orig).take(n as int) =~= schema_roots(orig));
        result
    }
}

/// The ID an entity state carries, if any.
pub open spec fn state_id(s: CatalogState) -> Option<i64> {
    match s {
        CatalogState::Existing { id } => Some(id),
        CatalogState::Deleted { id } => Some(id),
        CatalogState::Pending => None,
    }
}

impl CatalogColumns {
    pub open spec fn is_deleted(&self, i: int) -> bool {
        self.arena@[i].state is Deleted
    }

    /// No list or map column that is not deleted has a deleted element, key or value.
    pub open spec fn containers_whole(&self) -> bool {
        forall|i: int, k: int|
            #![trigger self.children(i)[k], self.arena@[i]]
            0 <= i < self.len() && !self.is_deleted(i) && (self.arena@[i].dtype is List || self.arena@[i].dtype is MapOf)
                && 0 <= k < self.children(i).len() ==> !self.is_deleted(self.children(i)[k] as int)
    }
}

/// The indices among `ts` of columns that are not deleted, in order.
pub open spec fn live_only(cols: CatalogColumns, ts: Seq<usize>) -> Seq<usize>
    decreases ts.len(),
{
    if ts.len() == 0 {
        Seq::empty()
    } else if cols.is_deleted(ts.last() as int) {
        live_only(cols, ts.drop_last())
    } else {
        live_only(cols, ts.drop_last()).push(ts.last())
    }
}

/// Column `c` is what arena column `i` reads back as: the same name, nullability, tags,
/// defaults and ID, and a data type that reads back from the column's own.
pub open spec fn reads_back(cols: CatalogColumns, i: int, c: Column) -> bool
    decreases cols.len() - i, 2int, 0int,
{
    if 0 <= i < cols.len() {
        let a = cols.arena@[i];
        &&& c.name == a.name
        &&& c.nullable == a.nullable
        &&& c.tags@ == a.tags@
        &&& c.initial_default == a.initial_default
        &&& c.default_value == a.default_value
        &&& c.field_id == state_id(a.state)
        &&& dtype_reads_back(cols, i, c.dtype)
    } else {
        false
    }
}

/// Data type `d` is what the data type of arena column `i` reads back as: its primitive type,
/// or the nested type whose columns read back from the column's children (skipping deleted
/// struct fields).
pub open spec fn dtype_reads_back(cols: CatalogColumns, i: int, d: DataType) -> bool
    decreases cols.len() - i, 1int, 0int,
{
    if 0 <= i < cols.len() {
        match cols.arena@[i].dtype {
            CatalogDataType::Primitive(p) => d == p,
            CatalogDataType::List(e) => d matches DataType::List(b) && i < e.0 < cols.len() && reads_back(cols, e.0 as int, *b),
            CatalogDataType::MapOf(k, v) => d matches DataType::MapOf(bk, bv) && i < k.0 < cols.len() && i < v.0 < cols.len() && reads_back(
                cols,
                k.0 as int,
                *bk,
            ) && reads_back(cols, v.0 as int, *bv),
            CatalogDataType::Struct(m) => d matches DataType::Struct(fs) && fields_read_back(
                cols,
                i,
                live_only(cols, field_targets(field_entries(m))),
                fs@,
            ),
        }
    } else {
        false
    }
}

/// Each column of `vs` reads back from the arena column at the same position of `ts`, all
/// of which are children of `i`.
pub open spec fn fields_read_back(cols: CatalogColumns, i: int, ts: Seq<usize>, vs: Seq<Column>) -> bool
    decreases cols.len() - i, 0int, ts.len(),
{
    if ts.len() != vs.len() {
        false
    } else if ts.len() == 0 {
        true
    } else {
        &&& i < ts.last() < cols.len()
        &&& reads_back(cols, ts.last() as int, vs.last())
        &&& fields_read_back(cols, i, ts.drop_last(), vs.drop_last())
    }
}

/// Every column of the subtree of `i` is `i` or comes after it in the arena.
pub proof fn lemma_subtree_range(shape: Seq<Seq<usize>>, i: int)
    requires
        0 <= i < shape.len(),
        shape.len() <= usize::MAX,
    ensures
        forall|j: int| 0 <= j < subtree(shape, i).len() ==> i <= (#[trigger] subtree(shape, i)[j]).0 < shape.len(),
    decreases shape.len() - i, shape[i].len() + 1,
{
    lemma_subforest_range(shape, i, 0);
    let f = subforest(shape, i, 0);
    assert(subtree(shape, i) == seq![ArenaIdx(i as usize)] + f);
    assert forall|j: int| 0 <= j < subtree(shape, i).len() implies i <= (#[trigger] subtree(shape, i)[j]).0 < shape.len() by {
        if j > 0 {
            assert(subtree(shape, i)[j] == f[j - 1]);
        }
    }
}

/// Every column of the subtrees of the children of `i` from the `k`-th on comes after `i`.
pub proof fn lemma_subforest_range(shape: Seq<Seq<usize>>, i: int, k: int)
    requires
        0 <= i < shape.len(),
        shape.len() <= usize::MAX,
        0 <= k,
    ensures
        forall|j: int| 0 <= j < subforest(shape, i, k).len() ==> i < (#[trigger] subforest(shape, i, k)[j]).0 < shape.len(),
    decreases shape.len() - i, if k <= shape[i].len() { shape[i].len() - k } else { 0 },
{
    if k < shape[i].len() {
        let c = shape[i][k] as int;
        lemma_subforest_range(shape, i, k + 1);
        let rest = subforest(shape, i, k + 1);
        if i < c < shape.len() {
            lemma_subtree_range(shape, c);
            let t = subtree(shape, c);
            assert forall|j: int| 0 <= j < subforest(shape, i, k).len() implies i < (#[trigger] subforest(shape, i, k)[j]).0 < shape.len() by {
                if j < t.len() {
                    assert(subforest(shape, i, k)[j] == t[j]);
                } else {
                    assert(subforest(shape, i, k)[j] == rest[j - t.len()]);
                }
            }
        } else {
            assert(subforest(shape, i, k) =~= rest);
        }
    }
}

/// The last column among `order` that exists with ID `id`, if any.
pub open spec fn last_existing(cols: CatalogColumns, order: Seq<ArenaIdx>, id: i64) -> Option<int>
    decreases order.len(),
{
    if order.len() == 0 {
        None
    } else if cols.arena@[order.last().0 as int].state == (CatalogState::Existing { id }) {
        Some(order.last().0 as int)
    } else {
        last_existing(cols, order.drop_last(), id)
    }
}

impl CatalogColumns {
    /// The pre-orders of the subtrees of the first `k` root columns, one after the other.
    pub open spec fn root_order_upto(&self, k: int) -> Seq<ArenaIdx>
        decreases k,
    {
        if k <= 0 || k > self.roots().len() {
            Seq::empty()
        } else {
            self.root_order_upto(k - 1) + self.subtree_of(self.roots()[k - 1].1 as int)
        }
    }

    /// The pre-orders of the subtrees of all root columns, one after the other.
    pub open spec fn root_order(&self) -> Seq<ArenaIdx> {
        self.root_order_upto(self.roots().len() as int)
    }
}

impl CatalogColumns {
    /// The schema column that arena column `idx` stands for, with all columns nested in it;
    /// `None` when the column is deleted. Deleted struct fields are left out.
    pub fn schema_column_from_arena_index(&self, idx: ArenaIdx) -> (r: Option<Column>)
        requires
            self.wf(),
            self.containers_whole(),
            idx.0 < self.len(),
        ensures
            match r {
                None => self.is_deleted(idx.0 as int),
                Some(c) => !self.is_deleted(idx.0 as int) && reads_back(*self, idx.0 as int, c),
            },
        decreases self.len() - idx.0, 1int,
    {
        if let CatalogState::Deleted { .. } = self.arena[idx.0].state {
            return None;
        }
        let dtype = self.schema_dtype(idx);
        let col = &self.arena[idx.0];
        Some(
            Column {
                name: col.name.clone(),
                dtype,
                nullable: col.nullable,
                tags: copy_tags(&col.tags),
                initial_default: copy_opt_string(&col.initial_default),
                default_value: col.default_value.duplicate(),
                field_id: col.state.id(),
            },
        )
    }

    /// The table's schema: its root columns that are not deleted, in order, each with all
    /// columns nested in it (deleted struct fields left out).
    pub fn to_schema(&self) -> (r: Vec<Column>)
        requires
            self.wf(),
            self.containers_whole(),
        ensures
            ({
                let ts = live_only(*self, field_targets(self.roots()));
                &&& r@.len() == ts.len()
                &&& forall|k: int| 0 <= k < ts.len() ==> reads_back(*self, #[trigger] ts[k] as int, r@[k])
            }),
    {
        let roots = fields_values(&self.root_columns);
        let ghost targets = field_targets(self.roots());
        assert(roots@.len() == targets.len());
        let mut result: Vec<Column> = Vec::new();
        let mut k: usize = 0;
        while k < roots.len()
            invariant
                self.wf(),
                self.containers_whole(),
                targets == field_targets(self.roots()),
                roots@.len() == targets.len(),
                forall|j: int| 0 <= j < roots@.len() ==> roots@[j].0 == targets[j],
                k <= roots@.len(),
                result@.len() == live_only(*self, targets.take(k as int)).len(),
                forall|j: int|
                    0 <= j < result@.len() ==> reads_back(*self, #[trigger] live_only(*self, targets.take(k as int))[j] as int, result@[j]),
            decreases roots@.len() - k,
        {
            let idx = roots[k];
            assert(self.roots()[k as int].1 < self.len());
            assert(targets.take(k + 1).drop_last() =~= targets.take(k as int));
            assert(targets.take(k + 1).last() == idx.0);
            match self.schema_column_from_arena_index(idx) {
                Some(c) => {
                    result.push(c);
                },
                None => {},
            }
            k = k + 1;
        }
        assert(targets.take(roots@.len() as int) =~= targets);
        result
    }

    /// The schema data type of each existing column (one with an ID) under the root columns,
    /// by ID; for an ID that two columns have, the later one in pre-order wins.
    pub fn existing_dtypes(&self) -> (r: HashMap<i64, DataType>)
        requires
            self.wf(),
            self.containers_whole(),
        ensures
            forall|id: i64| #[trigger] r@.contains_key(id) <==> last_existing(*self, self.root_order(), id) is Some,
            forall|id: i64|
                #[trigger] r@.contains_key(id) ==> {
                    let i = last_existing(*self, self.root_order(), id)->0;
                    &&& 0 <= i < self.len()
                    &&& dtype_reads_back(*self, i, r@[id])
                },
    {
        let groups = self.root_column_indices();
        let ghost order = self.root_order();
        let arena_len = self.arena.len();
        let mut result: HashMap<i64, DataType> = HashMap::new();
        let mut k: usize = 0;
        while k < groups.len()
            invariant
                self.wf(),
                self.containers_whole(),
                self.arena@.len() == arena_len,
                order == self.root_order(),
                groups@.len() == self.roots().len(),
                forall|q: int| 0 <= q < groups@.len() ==> groups@[q]@ == self.subtree_of(#[trigger] self.roots()[q].1 as int),
                k <= groups@.len(),
                forall|id: i64| #[trigger] result@.contains_key(id) <==> last_existing(*self, self.root_order_upto(k as int), id) is Some,
                forall|id: i64|
                    #[trigger] result@.contains_key(id) ==> {
                        let i = last_existing(*self, self.root_order_upto(k as int), id)->0;
                        &&& 0 <= i < self.len()
                        &&& dtype_reads_back(*self, i, result@[id])
                    },
            decreases groups@.len() - k,
        {
            let group = &groups[k];
            let mut j: usize = 0;
            while j < group.len()
                invariant
                    self.wf(),
                    self.containers_whole(),
                    self.arena@.len() == arena_len,
                    k < groups@.len(),
                    groups@.len() == self.roots().len(),
                    group == groups@[k as int],
                    group@ == self.subtree_of(self.roots()[k as int].1 as int),
                    j <= group@.len(),
                    forall|id: i64|
                        #[trigger] result@.contains_key(id) <==> last_existing(
                            *self,
                            self.root_order_upto(k as int) + group@.take(j as int),
                            id,
                        ) is Some,
                    forall|id: i64|
                        #[trigger] result@.contains_key(id) ==> {
                            let i = last_existing(*self, self.root_order_upto(k as int) + group@.take(j as int), id)->0;
                            &&& 0 <= i < self.len()
                            &&& dtype_reads_back(*self, i, result@[id])
                        },
                decreases group@.len() - j,
            {
                let idx = group[j];
                proof {
                    let root = self.roots()[k as int].1 as int;
                    assert(root < self.len());
                    self.lemma_shape(root);
                    lemma_subtree_range(self.shape(), root);
                    assert(self.shape().len() == self.len());
                }
                let ghost prev = self.root_order_upto(k as int) + group@.take(j as int);
                let ghost next = prev.push(idx);
                assert(self.root_order_upto(k as int) + group@.take(j + 1) =~= next);
                assert(next.drop_last() =~= prev);
                assert(next.last() == idx);
                let ghost before = result@;
                if let CatalogState::Existing { id } = self.arena[idx.0].state {
                    let d = self.schema_dtype(idx);
                    result.insert(id, d);
                }
                assert forall|x: i64| #[trigger] result@.contains_key(x) <==> last_existing(*self, next, x) is Some by {
                    if self.arena@[idx.0 as int].state != (CatalogState::Existing { id: x }) {
                        assert(last_existing(*self, next, x) == last_existing(*self, prev, x));
                    }
                }
                assert forall|x: i64| #[trigger] result@.contains_key(x) implies ({
                    let i = last_existing(*self, next, x)->0;
                    &&& 0 <= i < self.len()
                    &&& dtype_reads_back(*self, i, result@[x])
                }) by {
                    if self.arena@[idx.0 as int].state == (CatalogState::Existing { id: x }) {
                        assert(last_existing(*self, next, x) == Some(idx.0 as int));
                    } else {
                        assert(last_existing(*self, next, x) == last_existing(*self, prev, x));
                        assert(before.contains_key(x));
                        assert(result@[x] == before[x]);
                    }
                }
                j = j + 1;
            }
            assert(self.root_order_upto(k as int) + group@.take(group@.len() as int) =~= self.root_order_upto(k + 1));
            k = k + 1;
        }
        result
    }

    /// The schema data type of arena column `idx`.
    fn schema_dtype(&self, idx: ArenaIdx) -> (d: DataType)
        requires
            self.wf(),
            self.containers_whole(),
            idx.0 < self.len(),
            !self.is_deleted(idx.0 as int),
        ensures
            dtype_reads_back(*self, idx.0 as int, d),
        decreases self.len() - idx.0, 0int,
    {
        let ghost i = idx.0 as int;
        assert(self.node_wf(i));
        match &self.arena[idx.0].dtype {
            CatalogDataType::Primitive(p) => p.duplicate_primitive(),
            CatalogDataType::List(e) => {
                assert(self.children(i)[0] == e.0);
                let item = self.schema_column_from_arena_index(*e).unwrap();
                DataType::List(Box::new(item))
            },
            CatalogDataType::MapOf(k, v) => {
                assert(self.children(i)[0] == k.0);
                assert(self.children(i)[1] == v.0);
                let key = self.schema_column_from_arena_index(*k).unwrap();
                let value = self.schema_column_from_arena_index(*v).unwrap();
                DataType::MapOf(Box::new(key), Box::new(value))
            },
            CatalogDataType::Struct(m) => {
                let ts = fields_values(m);
                let ghost tv = field_targets(field_entries(*m));
                let mut fields: Vec<Column> = Vec::new();
                let ghost mut kept: Seq<usize> = Seq::empty();
                let mut k: usize = 0;
                while k < ts.len()
                    invariant
                        self.wf(),
                        self.containers_whole(),
                        0 <= i < self.len(),
                        i == idx.0,
                        !self.is_deleted(i),
                        self.arena@[i].dtype == CatalogDataType::Struct(*m),
                        tv == self.children(i),
                        ts@.len() == tv.len(),
                        forall|j: int| 0 <= j < ts@.len() ==> ts@[j].0 == tv[j],
                        k <= ts@.len(),
                        kept == live_only(*self, tv.take(k as int)),
                        fields_read_back(*self, i, kept, fields@),
                    decreases ts@.len() - k,
                {
                    let t = ts[k];
                    assert(self.node_wf(i));
                    assert(self.children(i)[k as int] == t.0);
                    assert(i < t.0 < self.len());
                    assert(tv.take(k + 1).drop_last() =~= tv.take(k as int));
                    assert(tv.take(k + 1).last() == t.0);
                    match self.schema_column_from_arena_index(t) {
                        Some(c) => {
                            proof {
                                kept = kept.push(t.0);
                            }
                            let ghost prev = fields@;
                            fields.push(c);
                            assert(kept.drop_last() =~= live_only(*self, tv.take(k as int)));
                            assert(fields@.drop_last() =~= prev);
                        },
                        None => {},
                    }
                    k = k + 1;
                }
                assert(tv.take(ts@.len() as int) =~= tv);
                DataType::Struct(fields)
            },
        }
    }
}

/// A column added at the root under a new name is found by that name as a path.
pub proof fn lemma_add_root_column_read_back(before: CatalogColumns, after: CatalogColumns, name: Seq<char>, n0: usize)
    requires
        field_lookup(before.roots(), name) is None,
        after.roots() == before.roots().push((name, n0)),
    ensures
        resolve_path(after, seq![name]) == Some(n0),
{
    lemma_field_position(before.roots(), name);
    assert(field_insert(before.roots(), name, n0) == before.roots().push((name, n0)));
    lemma_lookup_after_insert(before.roots(), name, n0, name);
    assert(seq![name][0] == name);
}

} // verus!
