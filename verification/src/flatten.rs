//! The pre-order layout of a (possibly nested) schema column in a column arena: a column comes
//! first, then the subtrees of its children in order (a list's element; a struct's fields; a
//! map's key, then its value).
use vstd::prelude::*;

use crate::arena::ArenaIdx;
use crate::dtype::{is_nested, Column, ColumnDefault, DataType, Tag};
use crate::fields::{field_insert, field_targets, lemma_field_position, lemma_insert_unique, unique_names};

verus! {

/// The shape of one laid-out column: a primitive type, or its children's arena indices (for a
/// struct, each field's name with its index, in field order).
pub enum FlatKind {
    Prim(DataType),
    List(usize),
    Struct(Seq<(Seq<char>, usize)>),
    MapOf(usize, usize),
}

/// One laid-out column, as it stands in the arena.
pub struct FlatNode {
    pub name: Seq<char>,
    pub parent: Option<ArenaIdx>,
    pub kind: FlatKind,
    pub nullable: bool,
    pub tags: Seq<Tag>,
    pub initial_default: Option<String>,
    pub default_value: ColumnDefault,
}

/// The arena indices of the children of a laid-out column, in order.
pub open spec fn kind_children(k: FlatKind) -> Seq<usize> {
    match k {
        FlatKind::Prim(_) => Seq::empty(),
        FlatKind::List(e) => seq![e],
        FlatKind::Struct(es) => field_targets(es),
        FlatKind::MapOf(a, b) => seq![a, b],
    }
}

/// Number of arena slots a column takes: itself and all columns nested in it.
pub open spec fn col_size(c: Column) -> nat
    decreases c, 0int,
{
    1 + match c.dtype {
        DataType::List(e) => col_size(*e),
        DataType::MapOf(k, v) => col_size(*k) + col_size(*v),
        DataType::Struct(fs) => prefix_size(fs@, fs@.len() as int),
        _ => 0,
    }
}

/// Number of arena slots the first `k` fields take.
pub open spec fn prefix_size(fs: Seq<Column>, k: int) -> nat
    decreases fs, k,
{
    if 0 < k <= fs.len() {
        prefix_size(fs, k - 1) + col_size(fs[k - 1])
    } else {
        0
    }
}

/// The struct entries for the first `k` fields laid out from `first`: each field's name with
/// the index of its slot, inserted in order.
pub open spec fn struct_entries(fs: Seq<Column>, k: int, first: int) -> Seq<(Seq<char>, usize)>
    decreases k,
{
    if 0 < k <= fs.len() {
        field_insert(struct_entries(fs, k - 1, first), fs[k - 1].name@, (first + prefix_size(fs, k - 1)) as usize)
    } else {
        Seq::empty()
    }
}

/// The shape of a column of type `d` laid out at `base`.
pub open spec fn flat_kind(d: DataType, base: int) -> FlatKind {
    match d {
        DataType::List(_) => FlatKind::List((base + 1) as usize),
        DataType::MapOf(k, _) => FlatKind::MapOf((base + 1) as usize, (base + 1 + col_size(*k)) as usize),
        DataType::Struct(fs) => FlatKind::Struct(struct_entries(fs@, fs@.len() as int, base + 1)),
        d => FlatKind::Prim(d),
    }
}

/// The laid-out form of column `c` itself, at `base` under `parent`.
pub open spec fn flat_node(c: Column, parent: Option<ArenaIdx>, base: int) -> FlatNode {
    FlatNode {
        name: c.name@,
        parent,
        kind: flat_kind(c.dtype, base),
        nullable: c.nullable,
        tags: c.tags@,
        initial_default: c.initial_default,
        default_value: c.default_value,
    }
}

/// The pre-order layout of column `c` and all columns nested in it, from `base` on.
pub open spec fn flatten(c: Column, parent: Option<ArenaIdx>, base: int) -> Seq<FlatNode>
    decreases c, 0int,
{
    seq![flat_node(c, parent, base)] + match c.dtype {
        DataType::List(e) => flatten(*e, Some(ArenaIdx(base as usize)), base + 1),
        DataType::MapOf(k, v) => flatten(*k, Some(ArenaIdx(base as usize)), base + 1) + flatten(
            *v,
            Some(ArenaIdx(base as usize)),
            base + 1 + col_size(*k),
        ),
        DataType::Struct(fs) => flatten_fields(fs@, fs@.len() as int, base, base + 1),
        _ => Seq::empty(),
    }
}

/// The layouts of the first `k` fields, one after the other from `first` on, under `parent`.
pub open spec fn flatten_fields(fs: Seq<Column>, k: int, parent: int, first: int) -> Seq<FlatNode>
    decreases fs, k,
{
    if 0 < k <= fs.len() {
        flatten_fields(fs, k - 1, parent, first) + flatten(
            fs[k - 1],
            Some(ArenaIdx(parent as usize)),
            first + prefix_size(fs, k - 1),
        )
    } else {
        Seq::empty()
    }
}

/// A laid-out segment that starts at `base` is closed: each column's children come after it
/// within the segment and name it as their parent, and struct field names are unique.
pub open spec fn seg_wf(nodes: Seq<FlatNode>, base: int) -> bool {
    &&& forall|j: int, q: int|
        #![trigger kind_children(nodes[j].kind)[q]]
        0 <= j < nodes.len() && 0 <= q < kind_children(nodes[j].kind).len() ==> base + j < kind_children(nodes[j].kind)[q] < base + nodes.len()
            && nodes[kind_children(nodes[j].kind)[q] - base].parent == Some(ArenaIdx((base + j) as usize))
    &&& forall|j: int| 0 <= j < nodes.len() ==> (#[trigger] nodes[j].kind matches FlatKind::Struct(es) ==> unique_names(es))
    &&& forall|j: int| 0 <= j < nodes.len() ==> (#[trigger] nodes[j].kind matches FlatKind::Prim(d) ==> !is_nested(d))
}

/// Two closed segments, one after the other, form a closed segment.
pub proof fn lemma_seg_concat(a: Seq<FlatNode>, b: Seq<FlatNode>, base: int)
    requires
        seg_wf(a, base),
        seg_wf(b, base + a.len()),
    ensures
        seg_wf(a + b, base),
{
    let s = a + b;
    assert forall|j: int, q: int|
        0 <= j < s.len() && 0 <= q < kind_children(s[j].kind).len() implies base + j < #[trigger] kind_children(s[j].kind)[q] < base + s.len()
            && s[kind_children(s[j].kind)[q] - base].parent == Some(ArenaIdx((base + j) as usize)) by {
        if j < a.len() {
            assert(s[j] == a[j]);
            assert(kind_children(a[j].kind)[q] == kind_children(s[j].kind)[q]);
        } else {
            assert(s[j] == b[j - a.len()]);
            assert(kind_children(b[j - a.len()].kind)[q] == kind_children(s[j].kind)[q]);
        }
    }
    assert forall|j: int| 0 <= j < s.len() implies (#[trigger] s[j].kind matches FlatKind::Struct(es) ==> unique_names(es)) by {
        if j < a.len() {
            assert(s[j] == a[j]);
        } else {
            assert(s[j] == b[j - a.len()]);
        }
    }
    assert forall|j: int| 0 <= j < s.len() implies (#[trigger] s[j].kind matches FlatKind::Prim(d) ==> !is_nested(d)) by {
        if j < a.len() {
            assert(s[j] == a[j]);
        } else {
            assert(s[j] == b[j - a.len()]);
        }
    }
}

/// A column followed by a closed segment is closed when the column's children lie in the
/// segment and name it as their parent.
pub proof fn lemma_seg_cons(n: FlatNode, rest: Seq<FlatNode>, base: int)
    requires
        seg_wf(rest, base + 1),
        forall|q: int|
            #![trigger kind_children(n.kind)[q]]
            0 <= q < kind_children(n.kind).len() ==> base < kind_children(n.kind)[q] < base + 1 + rest.len()
                && rest[kind_children(n.kind)[q] - base - 1].parent == Some(ArenaIdx(base as usize)),
        n.kind matches FlatKind::Struct(es) ==> unique_names(es),
        n.kind matches FlatKind::Prim(d) ==> !is_nested(d),
    ensures
        seg_wf(seq![n] + rest, base),
{
    let s = seq![n] + rest;
    assert forall|j: int, q: int|
        0 <= j < s.len() && 0 <= q < kind_children(s[j].kind).len() implies base + j < #[trigger] kind_children(s[j].kind)[q] < base + s.len()
            && s[kind_children(s[j].kind)[q] - base].parent == Some(ArenaIdx((base + j) as usize)) by {
        if j == 0 {
            assert(s[0] == n);
            assert(kind_children(n.kind)[q] == kind_children(s[j].kind)[q]);
        } else {
            assert(s[j] == rest[j - 1]);
            assert(kind_children(rest[j - 1].kind)[q] == kind_children(s[j].kind)[q]);
        }
    }
    assert forall|j: int| 0 <= j < s.len() implies (#[trigger] s[j].kind matches FlatKind::Struct(es) ==> unique_names(es)) by {
        if j > 0 {
            assert(s[j] == rest[j - 1]);
        }
    }
    assert forall|j: int| 0 <= j < s.len() implies (#[trigger] s[j].kind matches FlatKind::Prim(d) ==> !is_nested(d)) by {
        if j > 0 {
            assert(s[j] == rest[j - 1]);
        }
    }
}

/// The layout of field `q` lies inside the layouts of the fields before `k`, and takes at
/// least one slot.
pub proof fn lemma_prefix_size(fs: Seq<Column>, q: int, k: int)
    requires
        0 <= q < k <= fs.len(),
    ensures
        prefix_size(fs, q) + col_size(fs[q]) <= prefix_size(fs, k),
        col_size(fs[q]) >= 1,
    decreases k - q,
{
    if q + 1 < k {
        lemma_prefix_size(fs, q, k - 1);
    }
}

/// Each struct entry points to the slot of one of the fields, and names are unique.
pub proof fn lemma_struct_entries(fs: Seq<Column>, k: int, first: int)
    requires
        0 <= k <= fs.len(),
        0 <= first,
        first + prefix_size(fs, k) <= usize::MAX,
    ensures
        unique_names(struct_entries(fs, k, first)),
        forall|t: int|
            0 <= t < struct_entries(fs, k, first).len() ==> exists|q: int|
                0 <= q < k && #[trigger] struct_entries(fs, k, first)[t].1 == first + prefix_size(fs, q),
    decreases k,
{
    if k > 0 {
        let prev = struct_entries(fs, k - 1, first);
        lemma_prefix_size(fs, k - 1, k);
        lemma_struct_entries(fs, k - 1, first);
        let key = fs[k - 1].name@;
        let val = (first + prefix_size(fs, k - 1)) as usize;
        lemma_insert_unique(prev, key, val);
        lemma_field_position(prev, key);
        let cur = struct_entries(fs, k, first);
        assert(cur == field_insert(prev, key, val));
        assert forall|t: int| 0 <= t < cur.len() implies exists|q: int|
            0 <= q < k && #[trigger] cur[t].1 == first + prefix_size(fs, q) by {
            if t < prev.len() && cur[t] == prev[t] {
                let q = choose|q: int| 0 <= q < k - 1 && #[trigger] prev[t].1 == first + prefix_size(fs, q);
                assert(cur[t].1 == first + prefix_size(fs, q));
            } else {
                assert(cur[t].1 == val);
                assert(cur[t].1 == first + prefix_size(fs, k - 1));
            }
        }
    }
}

/// The layout of a column is a closed segment of `col_size` slots whose first slot is the
/// column itself under `parent`.
pub proof fn lemma_flatten(c: Column, parent: Option<ArenaIdx>, base: int)
    requires
        base >= 0,
        base + col_size(c) <= usize::MAX,
    ensures
        flatten(c, parent, base).len() == col_size(c),
        flatten(c, parent, base)[0] == flat_node(c, parent, base),
        seg_wf(flatten(c, parent, base), base),
    decreases c, 0int,
{
    let me = Some(ArenaIdx(base as usize));
    let n = flat_node(c, parent, base);
    match c.dtype {
        DataType::List(e) => {
            lemma_flatten(*e, me, base + 1);
            let rest = flatten(*e, me, base + 1);
            assert(kind_children(n.kind) == seq![(base + 1) as usize]);
            lemma_seg_cons(n, rest, base);
        },
        DataType::MapOf(k, v) => {
            lemma_flatten(*k, me, base + 1);
            lemma_flatten(*v, me, base + 1 + col_size(*k));
            let fk = flatten(*k, me, base + 1);
            let fv = flatten(*v, me, base + 1 + col_size(*k));
            lemma_seg_concat(fk, fv, base + 1);
            let rest = fk + fv;
            assert(rest[0] == fk[0]);
            assert(rest[col_size(*k) as int] == fv[0]);
            assert(kind_children(n.kind) == seq![(base + 1) as usize, (base + 1 + col_size(*k)) as usize]);
            lemma_seg_cons(n, rest, base);
        },
        DataType::Struct(fs) => {
            let len = fs@.len() as int;
            lemma_flatten_fields(fs@, len, base, base + 1);
            lemma_struct_entries(fs@, len, base + 1);
            let rest = flatten_fields(fs@, len, base, base + 1);
            let es = struct_entries(fs@, len, base + 1);
            assert(kind_children(n.kind) == field_targets(es));
            assert forall|q: int|
                0 <= q < kind_children(n.kind).len() implies base < #[trigger] kind_children(n.kind)[q] < base + 1 + rest.len()
                    && rest[kind_children(n.kind)[q] - base - 1].parent == Some(ArenaIdx(base as usize)) by {
                assert(kind_children(n.kind)[q] == es[q].1);
                let f = choose|f: int| 0 <= f < len && #[trigger] es[q].1 == base + 1 + prefix_size(fs@, f);
                lemma_prefix_size(fs@, f, len);
            }
            lemma_seg_cons(n, rest, base);
        },
        _ => {
            assert(kind_children(n.kind) =~= Seq::<usize>::empty());
            lemma_seg_cons(n, Seq::empty(), base);
            assert(seq![n] + Seq::<FlatNode>::empty() =~= seq![n]);
        },
    }
}

/// The layouts of the first `k` fields form a closed segment of `prefix_size` slots, in which
/// each field's own slot names `parent` as its parent.
pub proof fn lemma_flatten_fields(fs: Seq<Column>, k: int, parent: int, first: int)
    requires
        0 <= k <= fs.len(),
        0 <= parent < first,
        first + prefix_size(fs, k) <= usize::MAX,
    ensures
        flatten_fields(fs, k, parent, first).len() == prefix_size(fs, k),
        seg_wf(flatten_fields(fs, k, parent, first), first),
        forall|q: int|
            0 <= q < k ==> (#[trigger] flatten_fields(fs, k, parent, first)[prefix_size(fs, q) as int]).parent == Some(
                ArenaIdx(parent as usize),
            ),
    decreases fs, k,
{
    if k > 0 {
        lemma_prefix_size(fs, k - 1, k);
        lemma_flatten_fields(fs, k - 1, parent, first);
        let start = first + prefix_size(fs, k - 1);
        lemma_flatten(fs[k - 1], Some(ArenaIdx(parent as usize)), start);
        let prev = flatten_fields(fs, k - 1, parent, first);
        let cur = flatten(fs[k - 1], Some(ArenaIdx(parent as usize)), start);
        lemma_seg_concat(prev, cur, first);
        let all = flatten_fields(fs, k, parent, first);
        assert(all == prev + cur);
        assert forall|q: int| 0 <= q < k implies (#[trigger] all[prefix_size(fs, q) as int]).parent == Some(
            ArenaIdx(parent as usize),
        ) by {
            if q < k - 1 {
                lemma_prefix_size(fs, q, k - 1);
                assert(all[prefix_size(fs, q) as int] == prev[prefix_size(fs, q) as int]);
            } else {
                assert(all[prefix_size(fs, q) as int] == cur[0]);
            }
        }
    } else {
        assert(flatten_fields(fs, k, parent, first) =~= Seq::<FlatNode>::empty());
    }
}

/// Laying out one more field appends that field's layout, right after the earlier fields.
pub proof fn lemma_flatten_fields_step(fs: Seq<Column>, k: int, parent: int, first: int)
    requires
        0 <= k < fs.len(),
    ensures
        flatten_fields(fs, k + 1, parent, first) == flatten_fields(fs, k, parent, first) + flatten(
            fs[k],
            Some(ArenaIdx(parent as usize)),
            first + prefix_size(fs, k),
        ),
        prefix_size(fs, k + 1) == prefix_size(fs, k) + col_size(fs[k]),
        struct_entries(fs, k + 1, first) == field_insert(struct_entries(fs, k, first), fs[k].name@, (first + prefix_size(fs, k)) as usize),
{
}

} // verus!
