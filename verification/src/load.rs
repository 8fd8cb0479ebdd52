//! Building the column tree of a table from its `ducklake_column` rows.
use std::collections::HashMap;

use indexmap::IndexMap;
use vstd::prelude::*;

use crate::arena::ArenaIdx;
use crate::columns::{dtype_children, CatalogColumn, CatalogColumns, CatalogDataType, CatalogState};
use crate::dtype::{
    is_nested, literal_parses, literal_parses_as, parse_primitive_dtype, primitive_dtype_spec, ColumnDefault, DataType, Tag,
};
use crate::error::{DucklakeError, DucklakeResult};
use crate::fields::{
    field_entries, field_insert, field_lookup, field_targets, fields_contains, fields_insert, fields_new,
    lemma_field_position, lemma_insert_unique, unique_names,
};
use crate::rows::{DucklakeColumn, DucklakeColumnTag};
use crate::sort::{
    column_order_key, distinct_ids, lemma_stable_sort_distinct, lemma_stable_sort_elements, pair_key,
    sort_columns, sort_pairs, stable_sort,
};
use crate::text::{concat_str, decimal_text, str_eq, to_owned_string};

verus! {

broadcast use vstd::std_specs::hash::group_hash_axioms;

/// Positions, in order, of the first `n` rows whose parent is the column with ID `id`.
pub open spec fn children_upto(s: Seq<DucklakeColumn>, id: i64, n: int) -> Seq<usize>
    decreases n,
{
    if n <= 0 || n > s.len() {
        Seq::empty()
    } else if s[n - 1].parent_column == Some(id) {
        children_upto(s, id, n - 1).push((n - 1) as usize)
    } else {
        children_upto(s, id, n - 1)
    }
}

/// Positions, in order, of the rows whose parent is the column with ID `id`.
pub open spec fn children_of(s: Seq<DucklakeColumn>, id: i64) -> Seq<usize> {
    children_upto(s, id, s.len() as int)
}

/// Position of the row of the column with ID `id`.
pub open spec fn position_of(s: Seq<DucklakeColumn>, id: i64) -> int {
    choose|i: int| 0 <= i < s.len() && s[i].column_id == id
}

/// Every parent ID names a row.
pub open spec fn parents_present(s: Seq<DucklakeColumn>) -> bool {
    forall|i: int|
        0 <= i < s.len() ==> (#[trigger] s[i].parent_column matches Some(p) ==> exists|j: int|
            0 <= j < s.len() && s[j].column_id == p)
}

/// The children of column `id`, each with its `column_order`, sorted by it (field order).
pub open spec fn field_order(s: Seq<DucklakeColumn>, id: i64) -> Seq<(i64, usize)> {
    stable_sort(children_of(s, id).map_values(|j: usize| (s[j as int].column_order, j)), pair_key())
}

/// The fields of struct column `id`: each child's name with its position, in field order.
pub open spec fn field_seq(s: Seq<DucklakeColumn>, id: i64) -> Seq<(Seq<char>, usize)> {
    field_order(s, id).map_values(|p: (i64, usize)| (s[p.1 as int].column_name@, p.1))
}

pub open spec fn named_key(s: Seq<DucklakeColumn>, j: usize) -> bool {
    s[j as int].column_name@ == "key"@
}

/// Why building a column from its row fails.
pub enum ColumnFault {
    /// The row's parent comes after it in column order.
    ParentAfter,
    /// The type is unknown, or the children do not fit a list or a map.
    BadType,
    /// Two fields of a struct share a name.
    DuplicateField,
    /// A default value is given for a nested column, or an expression default lacks its text.
    BadDefault,
    /// A literal default does not read as a value of the column's primitive type.
    BadLiteral,
    /// Two root columns share a name.
    DuplicateRoot,
}

pub open spec fn is_nested_name(t: Seq<char>) -> bool {
    t == "list"@ || t == "struct"@ || t == "map"@
}

pub open spec fn opt_is(o: Option<String>, v: Seq<char>) -> bool {
    o matches Some(x) && x@ == v
}

/// What is wrong with the type of the column of row `i`, if anything.
pub open spec fn type_fault(s: Seq<DucklakeColumn>, i: int) -> Option<ColumnFault> {
    let c = s[i];
    let t = c.column_type@;
    let ch = children_of(s, c.column_id);
    if t == "list"@ {
        if ch.len() != 1 { Some(ColumnFault::BadType) } else { None }
    } else if t == "struct"@ {
        if !unique_names(field_seq(s, c.column_id)) { Some(ColumnFault::DuplicateField) } else { None }
    } else if t == "map"@ {
        if ch.len() != 2 || named_key(s, ch[0]) == named_key(s, ch[1]) { Some(ColumnFault::BadType) } else { None }
    } else if primitive_dtype_spec(t) is None {
        Some(ColumnFault::BadType)
    } else {
        None
    }
}

/// What is wrong with literal default text `v` for a column of type `t`, if anything: a nested
/// column takes none, and a primitive column's must read as a value of its type.
pub open spec fn literal_fault(t: Seq<char>, v: Option<String>) -> Option<ColumnFault> {
    match v {
        None => None,
        Some(x) => if is_nested_name(t) {
            Some(ColumnFault::BadDefault)
        } else if !(primitive_dtype_spec(t) matches Some(p) && literal_parses(p, x@)) {
            Some(ColumnFault::BadLiteral)
        } else {
            None
        },
    }
}

/// The literal default value of a row, if its default is a literal.
pub open spec fn literal_default(c: DucklakeColumn) -> Option<String> {
    if opt_is(c.default_value_type, "literal"@) {
        c.default_value
    } else {
        None
    }
}

/// What is wrong with the defaults of a row, if anything: checked are the initial default,
/// then a literal default value, then that an expression default has its text.
pub open spec fn default_fault(c: DucklakeColumn) -> Option<ColumnFault> {
    let t = c.column_type@;
    if literal_fault(t, c.initial_default) is Some {
        literal_fault(t, c.initial_default)
    } else if literal_fault(t, literal_default(c)) is Some {
        literal_fault(t, literal_default(c))
    } else if opt_is(c.default_value_type, "expression"@) && c.default_value is None {
        Some(ColumnFault::BadDefault)
    } else {
        None
    }
}

/// Whether root column `i` repeats the name of an earlier root column.
pub open spec fn root_repeated(s: Seq<DucklakeColumn>, i: int) -> bool {
    s[i].parent_column is None && exists|j: int|
        0 <= j < i && #[trigger] s[j].parent_column is None && s[j].column_name@ == s[i].column_name@
}

/// What goes wrong when row `i` is taken into the column tree, if anything: checked are the
/// parent's position, then the type, then the defaults, then the root name.
pub open spec fn column_fault(s: Seq<DucklakeColumn>, i: int) -> Option<ColumnFault> {
    let c = s[i];
    if c.parent_column matches Some(p) && position_of(s, p) >= i {
        Some(ColumnFault::ParentAfter)
    } else if type_fault(s, i) is Some {
        type_fault(s, i)
    } else if default_fault(c) is Some {
        default_fault(c)
    } else if root_repeated(s, i) {
        Some(ColumnFault::DuplicateRoot)
    } else {
        None
    }
}

/// Row `i` is the first to fail, with error `e`.
pub open spec fn fails_first_at(s: Seq<DucklakeColumn>, i: int, e: DucklakeError) -> bool {
    &&& forall|j: int| 0 <= j < i ==> column_fault(s, j) is None
    &&& column_fault(s, i) matches Some(f) && fault_error(s, i, f, e)
}

/// Field `k` of a struct repeats the name of an earlier field.
pub open spec fn repeats_field(fs: Seq<(Seq<char>, usize)>, k: int) -> bool {
    exists|q: int| 0 <= q < k && #[trigger] fs[q].0 == fs[k].0
}

/// `name` is the name of the first field that repeats an earlier field's name.
pub open spec fn first_repeated_field(fs: Seq<(Seq<char>, usize)>, name: Seq<char>) -> bool {
    exists|k: int|
        0 <= k < fs.len() && #[trigger] repeats_field(fs, k) && fs[k].0 == name && forall|j: int|
            0 <= j < k ==> !repeats_field(fs, j)
}

/// The error a fault of row `i` is reported as: a repeated struct field or root column names
/// the column that repeats; a default that cannot be taken over names the row's column; a
/// literal that does not read as a value of the column's type is a parse error.
pub open spec fn fault_error(s: Seq<DucklakeColumn>, i: int, f: ColumnFault, e: DucklakeError) -> bool {
    match f {
        ColumnFault::ParentAfter => e is InvalidDataType,
        ColumnFault::BadType => e is InvalidDataType,
        ColumnFault::DuplicateField => e matches DucklakeError::AlreadyExists { entity, name } && entity@ == "column"@
            && first_repeated_field(field_seq(s, s[i].column_id), name@),
        ColumnFault::BadDefault => e matches DucklakeError::InvalidDefault { column, .. } && column@ == s[i].column_name@,
        ColumnFault::BadLiteral => e is Parsing,
        ColumnFault::DuplicateRoot => e matches DucklakeError::AlreadyExists { entity, name } && entity@ == "column"@
            && name@ == s[i].column_name@,
    }
}

/// The tags among the first `n` whose column is `id`, in order.
pub open spec fn tags_upto(tags: Seq<DucklakeColumnTag>, id: i64, n: int) -> Seq<Tag>
    decreases n,
{
    if n <= 0 || n > tags.len() {
        Seq::empty()
    } else if tags[n - 1].column_id == id {
        tags_upto(tags, id, n - 1).push(Tag { key: tags[n - 1].key, value: tags[n - 1].value })
    } else {
        tags_upto(tags, id, n - 1)
    }
}

/// The data type that the column of row `i` takes (given that its type has no fault).
pub open spec fn dtype_model(s: Seq<DucklakeColumn>, i: int, d: CatalogDataType) -> bool {
    let c = s[i];
    let t = c.column_type@;
    let ch = children_of(s, c.column_id);
    if t == "list"@ {
        d == CatalogDataType::List(ArenaIdx(ch[0]))
    } else if t == "struct"@ {
        d matches CatalogDataType::Struct(m) && field_entries(m) == field_seq(s, c.column_id)
    } else if t == "map"@ {
        if named_key(s, ch[0]) {
            d == CatalogDataType::MapOf(ArenaIdx(ch[0]), ArenaIdx(ch[1]))
        } else {
            d == CatalogDataType::MapOf(ArenaIdx(ch[1]), ArenaIdx(ch[0]))
        }
    } else {
        d matches CatalogDataType::Primitive(p) && primitive_dtype_spec(t) == Some(p)
    }
}

/// The default value that the column of row `c` takes.
pub open spec fn default_model(c: DucklakeColumn, d: ColumnDefault) -> bool {
    if opt_is(c.default_value_type, "literal"@) {
        d == ColumnDefault::Literal(c.default_value)
    } else if opt_is(c.default_value_type, "expression"@) {
        d matches ColumnDefault::Expression { dialect, expression } && Some(expression) == c.default_value
            && dialect@ == match c.default_value_dialect {
            Some(x) => x@,
            None => Seq::empty(),
        }
    } else {
        d == ColumnDefault::Literal(None)
    }
}

/// The catalog column built from row `i`: an existing column with the row's ID, name,
/// nullability, parent (by position), tags and defaults, and the data type its type names.
pub open spec fn column_model(s: Seq<DucklakeColumn>, tags: Seq<DucklakeColumnTag>, i: int, cc: CatalogColumn) -> bool {
    let c = s[i];
    &&& cc.state == CatalogState::Existing { id: c.column_id }
    &&& cc.name == c.column_name
    &&& cc.nullable == c.nulls_allowed
    &&& cc.parent_column == match c.parent_column {
        Some(p) => Some(ArenaIdx(position_of(s, p) as usize)),
        None => None,
    }
    &&& cc.tags@ == tags_upto(tags, c.column_id, tags.len() as int)
    &&& cc.initial_default == c.initial_default
    &&& default_model(c, cc.default_value)
    &&& dtype_model(s, i, cc.dtype)
}

/// The root columns among the first `n` rows: each name with its position, in order.
pub open spec fn roots_upto(s: Seq<DucklakeColumn>, n: int) -> Seq<(Seq<char>, usize)>
    decreases n,
{
    if n <= 0 || n > s.len() {
        Seq::empty()
    } else if s[n - 1].parent_column is None {
        roots_upto(s, n - 1).push((s[n - 1].column_name@, (n - 1) as usize))
    } else {
        roots_upto(s, n - 1)
    }
}

/// The children of `id` among the first `n` rows are rows before `n` whose parent is `id`,
/// in increasing order.
pub proof fn lemma_children_upto(s: Seq<DucklakeColumn>, id: i64, n: int)
    requires
        0 <= n <= s.len(),
        s.len() <= usize::MAX,
    ensures
        forall|k: int|
            0 <= k < children_upto(s, id, n).len() ==> (#[trigger] children_upto(s, id, n)[k]) < n
                && s[children_upto(s, id, n)[k] as int].parent_column == Some(id),
        forall|k1: int, k2: int|
            0 <= k1 < k2 < children_upto(s, id, n).len() ==> #[trigger] children_upto(s, id, n)[k1]
                < #[trigger] children_upto(s, id, n)[k2],
    decreases n,
{
    if n > 0 {
        lemma_children_upto(s, id, n - 1);
        let prev = children_upto(s, id, n - 1);
        let cur = children_upto(s, id, n);
        if s[n - 1].parent_column == Some(id) {
            assert(cur == prev.push((n - 1) as usize));
            assert forall|k: int| 0 <= k < cur.len() implies (#[trigger] cur[k]) < n && s[cur[k] as int].parent_column == Some(id) by {
                if k < prev.len() {
                    assert(cur[k] == prev[k]);
                }
            }
            assert forall|k1: int, k2: int| 0 <= k1 < k2 < cur.len() implies #[trigger] cur[k1] < #[trigger] cur[k2] by {
                assert(cur[k1] == prev[k1]);
                if k2 < prev.len() {
                    assert(cur[k2] == prev[k2]);
                }
            }
        }
    }
}

/// The root columns among the first `n` rows are exactly the rows before `n` without a
/// parent, each under its own name.
pub proof fn lemma_roots_upto(s: Seq<DucklakeColumn>, n: int)
    requires
        0 <= n <= s.len(),
        s.len() <= usize::MAX,
    ensures
        forall|k: int|
            0 <= k < roots_upto(s, n).len() ==> (#[trigger] roots_upto(s, n)[k]).1 < n
                && s[roots_upto(s, n)[k].1 as int].parent_column is None
                && roots_upto(s, n)[k].0 == s[roots_upto(s, n)[k].1 as int].column_name@,
        forall|j: int|
            0 <= j < n && #[trigger] s[j].parent_column is None ==> exists|k: int|
                0 <= k < roots_upto(s, n).len() && roots_upto(s, n)[k].1 == j,
    decreases n,
{
    if n > 0 {
        lemma_roots_upto(s, n - 1);
        let prev = roots_upto(s, n - 1);
        let cur = roots_upto(s, n);
        if s[n - 1].parent_column is None {
            assert(cur == prev.push((s[n - 1].column_name@, (n - 1) as usize)));
            assert forall|k: int| 0 <= k < cur.len() implies (#[trigger] cur[k]).1 < n && s[cur[k].1 as int].parent_column is None
                && cur[k].0 == s[cur[k].1 as int].column_name@ by {
                if k < prev.len() {
                    assert(cur[k] == prev[k]);
                }
            }
            assert forall|j: int| 0 <= j < n && #[trigger] s[j].parent_column is None implies exists|k: int|
                0 <= k < cur.len() && cur[k].1 == j by {
                if j < n - 1 {
                    let k = choose|k: int| 0 <= k < prev.len() && prev[k].1 == j;
                    assert(cur[k] == prev[k]);
                } else {
                    assert(cur[prev.len() as int].1 == j);
                }
            }
        }
    }
}

/// The positions of the rows whose parent is column `id`.
fn children_positions(s: &Vec<DucklakeColumn>, id: i64) -> (r: Vec<usize>)
    ensures
        r@ == children_of(s@, id),
{
    let mut r: Vec<usize> = Vec::new();
    let mut j: usize = 0;
    while j < s.len()
        invariant
            j <= s@.len(),
            r@ == children_upto(s@, id, j as int),
        decreases s@.len() - j,
    {
        if s[j].parent_column == Some(id) {
            r.push(j);
        }
        j = j + 1;
    }
    r
}

/// The tags of column `id`.
fn tags_of_column(tags: &Vec<DucklakeColumnTag>, id: i64) -> (r: Vec<Tag>)
    ensures
        r@ == tags_upto(tags@, id, tags@.len() as int),
{
    let mut r: Vec<Tag> = Vec::new();
    let mut j: usize = 0;
    while j < tags.len()
        invariant
            j <= tags@.len(),
            r@ == tags_upto(tags@, id, j as int),
        decreases tags@.len() - j,
    {
        if tags[j].column_id == id {
            r.push(Tag { key: tags[j].key.clone(), value: tags[j].value.clone() });
        }
        j = j + 1;
    }
    r
}

/// The error for a list or map whose number of children is off.
fn child_count_error(prefix: &str, found: usize) -> (e: DucklakeError)
    ensures
        e is InvalidDataType,
{
    let count = decimal_text(found as u64);
    DucklakeError::InvalidDataType(concat_str(prefix, count.as_str()))
}

fn default_error(column: &String, reason: &'static str) -> (e: DucklakeError)
    ensures
        e matches DucklakeError::InvalidDefault { column: c, .. } && c@ == column@,
{
    DucklakeError::InvalidDefault { column: column.clone(), reason }
}

/// Checks literal default text for a column of primitive type `p` (`None` for a nested
/// column): a nested column takes no literal (`InvalidDefault`), and the text must read as a
/// value of the type (else `Parsing`).
fn check_literal(column: &String, p: Option<&DataType>, v: &String) -> (r: DucklakeResult<()>)
    ensures
        r is Ok <==> (p matches Some(t) && literal_parses(*t, v@)),
        r matches Err(e) ==> (if p is None {
            e matches DucklakeError::InvalidDefault { column: c, .. } && c@ == column@
        } else {
            e is Parsing
        }),
{
    match p {
        None => Err(default_error(column, "default value for non-primitive type is not supported")),
        Some(t) => {
            if literal_parses_as(t, v.as_str()) {
                Ok(())
            } else {
                let a = concat_str("cannot read '", v.as_str());
                Err(DucklakeError::Parsing(concat_str(a.as_str(), "' as a value of the column's type")))
            }
        },
    }
}

fn opt_str_is(o: &Option<String>, v: &str) -> (r: bool)
    ensures
        r == opt_is(*o, v@),
{
    match o {
        Some(x) => str_eq(x.as_str(), v),
        None => false,
    }
}

/// The data type of the column of row `i`, from its type and its children.
fn dtype_from_row(s: &Vec<DucklakeColumn>, i: usize) -> (r: DucklakeResult<CatalogDataType>)
    requires
        i < s@.len(),
    ensures
        r is Ok <==> type_fault(s@, i as int) is None,
        r matches Ok(d) ==> dtype_model(s@, i as int, d),
        r matches Err(e) ==> fault_error(s@, i as int, type_fault(s@, i as int).unwrap(), e),
{
    let c = &s[i];
    let t = c.column_type.as_str();
    let ghost ch = children_of(s@, c.column_id);
    let _n = s.len();
    proof {
        reveal_strlit("list");
        reveal_strlit("struct");
        reveal_strlit("map");
        reveal_strlit("key");
        reveal_strlit("column");
    }
    if str_eq(t, "list") {
        let children = children_positions(s, c.column_id);
        if children.len() != 1 {
            return Err(child_count_error("list must have exactly one child element but found ", children.len()));
        }
        Ok(CatalogDataType::List(ArenaIdx(children[0])))
    } else if str_eq(t, "struct") {
        let children = children_positions(s, c.column_id);
        proof {
            lemma_children_upto(s@, c.column_id, s@.len() as int);
        }
        let mut pairs: Vec<(i64, usize)> = Vec::new();
        let mut k: usize = 0;
        while k < children.len()
            invariant
                k <= children@.len(),
                children@ == ch,
                forall|j: int| 0 <= j < children@.len() ==> children@[j] < s@.len(),
                pairs@ == children@.take(k as int).map_values(|j: usize| (s@[j as int].column_order, j)),
            decreases children@.len() - k,
        {
            let j = children[k];
            pairs.push((s[j].column_order, j));
            k = k + 1;
            assert(pairs@ =~= children@.take(k as int).map_values(|j: usize| (s@[j as int].column_order, j)));
        }
        proof {
            lemma_children_upto(s@, c.column_id, s@.len() as int);
        }
        assert(children@.take(children@.len() as int) =~= children@);
        let ordered = sort_pairs(pairs);
        let ghost fs = field_seq(s@, c.column_id);
        proof {
            let ps = ch.map_values(|j: usize| (s@[j as int].column_order, j));
            lemma_stable_sort_elements(ps, pair_key());
            assert forall|q: int| 0 <= q < ordered@.len() implies (#[trigger] ordered@[q]).1 < s@.len() by {
                assert(stable_sort(ps, pair_key()).contains(ordered@[q]));
                assert(ps.contains(ordered@[q]));
                let w = choose|w: int| 0 <= w < ps.len() && ps[w] == ordered@[q];
                assert(ps[w].1 == ch[w]);
            }
        }
        let mut fields: IndexMap<String, ArenaIdx> = fields_new();
        let mut k: usize = 0;
        while k < ordered.len()
            invariant
                k <= ordered@.len(),
                ordered@ == field_order(s@, c.column_id),
                fs == field_seq(s@, c.column_id),
                fs.len() == ordered@.len(),
                i < s@.len(),
                *c == s@[i as int],
                c.column_type@ == "struct"@,
                forall|q: int| 0 <= q < ordered@.len() ==> (#[trigger] ordered@[q]).1 < s@.len(),
                field_entries(fields) == fs.take(k as int),
                unique_names(fs.take(k as int)),
                forall|q: int| 0 <= q < k ==> !repeats_field(fs, q),
            decreases ordered@.len() - k,
        {
            let j = ordered[k].1;
            let name = &s[j].column_name;
            assert(fs[k as int] == (name@, j));
            if fields_contains(&fields, name.as_str()) {
                proof {
                    lemma_field_position(fs.take(k as int), name@);
                    let q = choose|q: int| 0 <= q < k && fs.take(k as int)[q].0 == name@;
                    assert(fs[q].0 == fs[k as int].0);
                    assert(!unique_names(fs));
                    reveal_strlit("list");
                    reveal_strlit("struct");
                    assert(type_fault(s@, i as int) == Some(ColumnFault::DuplicateField));
                    assert(repeats_field(fs, k as int));
                    assert(first_repeated_field(fs, name@));
                }
                return Err(DucklakeError::column_already_exists(name.as_str()));
            }
            proof {
                assert(!repeats_field(fs, k as int)) by {
                    if repeats_field(fs, k as int) {
                        let q = choose|q: int| 0 <= q < k && #[trigger] fs[q].0 == fs[k as int].0;
                        assert(fs.take(k as int)[q].0 == name@);
                        lemma_field_position(fs.take(k as int), name@);
                    }
                }
                lemma_field_position(fs.take(k as int), name@);
                lemma_insert_unique(fs.take(k as int), name@, j);
                assert(fs.take(k + 1) =~= fs.take(k as int).push((name@, j)));
            }
            fields_insert(&mut fields, name.clone(), ArenaIdx(j));
            k = k + 1;
        }
        assert(fs.take(ordered@.len() as int) =~= fs);
        Ok(CatalogDataType::Struct(fields))
    } else if str_eq(t, "map") {
        let children = children_positions(s, c.column_id);
        if children.len() != 2 {
            return Err(
                child_count_error(
                    "map must have exactly two child elements (key and value) but found ",
                    children.len(),
                ),
            );
        }
        proof {
            lemma_children_upto(s@, c.column_id, s@.len() as int);
        }
        let k0 = str_eq(s[children[0]].column_name.as_str(), "key");
        let k1 = str_eq(s[children[1]].column_name.as_str(), "key");
        if !k0 && !k1 {
            return Err(DucklakeError::InvalidDataType("map must have a child element named 'key'".to_owned()));
        }
        if k0 && k1 {
            return Err(DucklakeError::InvalidDataType("map must have a child element named 'value'".to_owned()));
        }
        if k0 {
            Ok(CatalogDataType::MapOf(ArenaIdx(children[0]), ArenaIdx(children[1])))
        } else {
            Ok(CatalogDataType::MapOf(ArenaIdx(children[1]), ArenaIdx(children[0])))
        }
    } else {
        match parse_primitive_dtype(t) {
            Ok(d) => Ok(CatalogDataType::Primitive(d)),
            Err(e) => Err(e),
        }
    }
}

/// The catalog column built from row `i` under `parent`.
fn column_from_row(s: &Vec<DucklakeColumn>, i: usize, parent: Option<ArenaIdx>, tags: &Vec<DucklakeColumnTag>) -> (r: DucklakeResult<CatalogColumn>)
    requires
        i < s@.len(),
        parent == match s@[i as int].parent_column {
            Some(p) => Some(ArenaIdx(position_of(s@, p) as usize)),
            None => None,
        },
    ensures
        r is Ok <==> type_fault(s@, i as int) is None && default_fault(s@[i as int]) is None,
        r matches Ok(cc) ==> column_model(s@, tags@, i as int, cc),
        r matches Err(e) ==> (if type_fault(s@, i as int) is Some {
            fault_error(s@, i as int, type_fault(s@, i as int).unwrap(), e)
        } else {
            fault_error(s@, i as int, default_fault(s@[i as int]).unwrap(), e)
        }),
{
    let dtype = dtype_from_row(s, i)?;
    let c = &s[i];
    proof {
        reveal_strlit("list");
        reveal_strlit("struct");
        reveal_strlit("map");
        reveal_strlit("literal");
        reveal_strlit("expression");
        assert("literal"@.len() != "expression"@.len());
    }
    let nested = match &dtype {
        CatalogDataType::Primitive(_) => false,
        _ => true,
    };
    assert(nested == is_nested_name(c.column_type@));
    let prim: Option<&DataType> = match &dtype {
        CatalogDataType::Primitive(p) => Some(p),
        _ => None,
    };
    assert(prim matches Some(p) ==> primitive_dtype_spec(c.column_type@) == Some(*p));
    match &c.initial_default {
        Some(v) => {
            check_literal(&c.column_name, prim, v)?;
        },
        None => {},
    }
    assert(literal_fault(c.column_type@, c.initial_default) is None);
    let default_value = if opt_str_is(&c.default_value_type, "literal") {
        match &c.default_value {
            Some(v) => {
                check_literal(&c.column_name, prim, v)?;
                ColumnDefault::Literal(Some(v.clone()))
            },
            None => ColumnDefault::Literal(None),
        }
    } else if opt_str_is(&c.default_value_type, "expression") {
        match &c.default_value {
            Some(expression) => {
                let dialect = match &c.default_value_dialect {
                    Some(d) => d.clone(),
                    None => String::new(),
                };
                ColumnDefault::Expression { dialect, expression: expression.clone() }
            },
            None => {
                return Err(default_error(&c.column_name, "expression default value is missing expression"));
            },
        }
    } else {
        ColumnDefault::Literal(None)
    };
    assert(default_fault(s@[i as int]) is None);
    let initial_default = match &c.initial_default {
        Some(v) => Some(v.clone()),
        None => None,
    };
    Ok(
        CatalogColumn {
            state: CatalogState::Existing { id: c.column_id },
            name: c.column_name.clone(),
            dtype,
            parent_column: parent,
            nullable: c.nulls_allowed,
            tags: tags_of_column(tags, c.column_id),
            initial_default,
            default_value,
        },
    )
}


/// With distinct IDs, the row of a column's ID is that column's.
pub proof fn lemma_position_of(s: Seq<DucklakeColumn>, i: int)
    requires
        distinct_ids(s),
        0 <= i < s.len(),
    ensures
        position_of(s, s[i].column_id) == i,
{
    let k = position_of(s, s[i].column_id);
    assert(0 <= k < s.len() && s[k].column_id == s[i].column_id);
}

/// Columns built row by row, without faults, form well-formed columns.
proof fn lemma_loaded_wf(s: Seq<DucklakeColumn>, tags: Seq<DucklakeColumnTag>, cols: CatalogColumns)
    requires
        distinct_ids(s),
        s.len() <= usize::MAX,
        cols.len() == s.len(),
        forall|i: int| 0 <= i < s.len() ==> column_fault(s, i) is None,
        forall|i: int| 0 <= i < s.len() ==> column_model(s, tags, i, #[trigger] cols.arena@[i]),
        cols.roots() == roots_upto(s, s.len() as int),
        unique_names(cols.roots()),
        forall|id: i64| #[trigger] cols.by_id@.contains_key(id) ==> cols.by_id@[id].0 < cols.len(),
    ensures
        cols.wf(),
{
    lemma_roots_upto(s, s.len() as int);
    assert forall|i: int| 0 <= i < cols.len() implies #[trigger] cols.node_wf(i) by {
        let c = s[i];
        let id = c.column_id;
        let ch = children_of(s, id);
        lemma_children_upto(s, id, s.len() as int);
        lemma_position_of(s, i);
        assert(column_model(s, tags, i, cols.arena@[i]));
        assert(column_fault(s, i) is None);
        // Every child row of this column lies after it and points back to it.
        assert forall|j: usize| #[trigger] ch.contains(j) implies i < j < cols.len()
            && cols.arena@[j as int].parent_column == Some(ArenaIdx(i as usize)) by {
            let k = choose|k: int| 0 <= k < ch.len() && ch[k] == j;
            assert(s[j as int].parent_column == Some(id));
            assert(column_model(s, tags, j as int, cols.arena@[j as int]));
            assert(column_fault(s, j as int) is None);
        }
        let kids = cols.children(i);
        assert forall|k: int| 0 <= k < kids.len() implies i < #[trigger] kids[k] < cols.len()
            && cols.arena@[kids[k] as int].parent_column == Some(ArenaIdx(i as usize)) by {
            let t = c.column_type@;
            if t == "list"@ {
                assert(kids[k] == ch[0]);
                assert(ch.contains(ch[0]));
            } else if t == "struct"@ {
                let ps = ch.map_values(|j: usize| (s[j as int].column_order, j));
                lemma_stable_sort_elements(ps, pair_key());
                let fo = field_order(s, id);
                assert(kids[k] == fo[k].1);
                assert(stable_sort(ps, pair_key()).contains(fo[k]));
                assert(ps.contains(fo[k]));
                let w = choose|w: int| 0 <= w < ps.len() && ps[w] == fo[k];
                assert(ch.contains(ch[w]));
            } else if t == "map"@ {
                assert(ch.contains(ch[0]));
                assert(ch.contains(ch[1]));
            }
        }
    }
    assert forall|k: int| 0 <= k < cols.roots().len() implies #[trigger] cols.roots()[k].1 < cols.len()
        && cols.arena@[cols.roots()[k].1 as int].parent_column is None by {
        assert(column_model(s, tags, cols.roots()[k].1 as int, cols.arena@[cols.roots()[k].1 as int]));
    }
}

/// `cols` holds the columns of the given `ducklake_column` rows (with their tags), sorted
/// stably by column order: each at its position, the root columns in order, and each ID mapped
/// to its position.
pub open spec fn columns_loaded(cols: CatalogColumns, columns: Seq<DucklakeColumn>, tags: Seq<DucklakeColumnTag>) -> bool {
    let s = stable_sort(columns, column_order_key());
    &&& cols.wf()
    &&& cols.len() == s.len()
    &&& forall|i: int| 0 <= i < s.len() ==> column_model(s, tags, i, #[trigger] cols.arena@[i])
    &&& cols.roots() == roots_upto(s, s.len() as int)
    &&& forall|i: int| 0 <= i < s.len() ==> cols.by_id@[#[trigger] s[i].column_id] == ArenaIdx(i as usize)
    &&& forall|id: i64| #[trigger] cols.by_id@.contains_key(id) <==> exists|i: int| 0 <= i < s.len() && s[i].column_id == id
}

impl CatalogColumns {
    /// Builds the columns of a table from its `ducklake_column` rows and column tags. The rows
    /// are taken in `column_order` (stably); each becomes the arena column at its position.
    /// Fails at the first row whose parent comes after it, whose type is unknown or does not
    /// fit its children (a list needs one child, a map a `key` child and one other), whose
    /// struct fields repeat a name, whose defaults cannot be taken over (a literal of a nested
    /// column, literal text that does not read as a value of the column's type, or an
    /// expression default without its text), or whose (root) name repeats that of an earlier
    /// root column.
    pub fn from_ducklake(columns: Vec<DucklakeColumn>, tags: Vec<DucklakeColumnTag>) -> (r: DucklakeResult<CatalogColumns>)
        requires
            distinct_ids(columns@),
            parents_present(columns@),
        ensures
            ({
                let s = stable_sort(columns@, column_order_key());
                &&& (r is Ok <==> forall|i: int| 0 <= i < s.len() ==> column_fault(s, i) is None)
                &&& (r matches Err(e) ==> exists|i: int| 0 <= i < s.len() && #[trigger] fails_first_at(s, i, e))
                &&& (r matches Ok(cols) ==> columns_loaded(cols, columns@, tags@))
            }),
    {
        let ghost input = columns@;
        let s = sort_columns(columns);
        let ghost sv = s@;
        proof {
            lemma_stable_sort_elements(input, column_order_key());
            lemma_stable_sort_distinct(input);
        }
        let n = s.len();
        let mut ids: HashMap<i64, ArenaIdx> = HashMap::new();
        let mut j: usize = 0;
        while j < n
            invariant
                n == sv.len(),
                s@ == sv,
                distinct_ids(sv),
                j <= n,
                forall|k: int| 0 <= k < j ==> ids@[#[trigger] sv[k].column_id] == ArenaIdx(k as usize),
                forall|id: i64| #[trigger] ids@.contains_key(id) <==> exists|k: int| 0 <= k < j && sv[k].column_id == id,
            decreases n - j,
        {
            ids.insert(s[j].column_id, ArenaIdx(j));
            j = j + 1;
        }
        let mut result = CatalogColumns { arena: Vec::new(), by_id: HashMap::new(), root_columns: fields_new() };
        let mut i: usize = 0;
        while i < n
            invariant
                n == sv.len(),
                s@ == sv,
                sv == stable_sort(input, column_order_key()),
                input == columns@,
                distinct_ids(sv),
                forall|x: DucklakeColumn| #[trigger] sv.contains(x) <==> input.contains(x),
                parents_present(input),
                forall|k: int| 0 <= k < n ==> ids@[#[trigger] sv[k].column_id] == ArenaIdx(k as usize),
                forall|id: i64| #[trigger] ids@.contains_key(id) <==> exists|k: int| 0 <= k < n && sv[k].column_id == id,
                i <= n,
                result.len() == i,
                forall|k: int| 0 <= k < i ==> column_fault(sv, k) is None,
                forall|k: int| 0 <= k < i ==> column_model(sv, tags@, k, #[trigger] result.arena@[k]),
                result.roots() == roots_upto(sv, i as int),
                unique_names(result.roots()),
                forall|k: int| 0 <= k < i ==> result.by_id@[#[trigger] sv[k].column_id] == ArenaIdx(k as usize),
                forall|id: i64| #[trigger] result.by_id@.contains_key(id) <==> exists|k: int| 0 <= k < i && sv[k].column_id == id,
            decreases n - i,
        {
            proof {
                lemma_position_of(sv, i as int);
            }
            let parent = match s[i].parent_column {
                Some(pid) => {
                    proof {
                        assert(sv.contains(sv[i as int]));
                        let w = choose|w: int| 0 <= w < input.len() && input[w] == sv[i as int];
                        assert(input[w].parent_column == Some(pid));
                        let q = choose|q: int| 0 <= q < input.len() && input[q].column_id == pid;
                        assert(input.contains(input[q]));
                        assert(sv.contains(input[q]));
                        let q2 = choose|q2: int| 0 <= q2 < sv.len() && sv[q2] == input[q];
                        assert(ids@.contains_key(sv[q2].column_id));
                        lemma_position_of(sv, q2);
                    }
                    let p = *ids.get(&pid).unwrap();
                    if p.0 >= i {
                        assert(column_fault(sv, i as int) == Some(ColumnFault::ParentAfter));
                        let e = DucklakeError::InvalidDataType("nested column comes before its parent".to_owned());
                        assert(fails_first_at(sv, i as int, e));
                        return Err(e);
                    }
                    assert(position_of(sv, pid) < i);
                    Some(p)
                },
                None => None,
            };
            let cc = match column_from_row(&s, i, parent, &tags) {
                Ok(cc) => cc,
                Err(e) => {
                    assert(!(sv[i as int].parent_column matches Some(p) && position_of(sv, p) >= i));
                    assert(column_fault(sv, i as int) is Some);
                    assert(fails_first_at(sv, i as int, e));
                    return Err(e);
                },
            };
            let name = to_owned_string(s[i].column_name.as_str());
            if parent.is_none() {
                proof {
                    lemma_roots_upto(sv, i as int);
                    lemma_field_position(result.roots(), name@);
                }
                if fields_contains(&result.root_columns, name.as_str()) {
                    proof {
                        let q = choose|q: int| 0 <= q < result.roots().len() && result.roots()[q].0 == name@;
                        assert(sv[result.roots()[q].1 as int].parent_column is None);
                        assert(root_repeated(sv, i as int));
                    }
                    let e = DucklakeError::column_already_exists(name.as_str());
                    proof {
                        reveal_strlit("column");
                    }
                    assert(column_fault(sv, i as int) is Some);
                    assert(fails_first_at(sv, i as int, e));
                    return Err(e);
                }
                proof {
                    assert(!root_repeated(sv, i as int)) by {
                        if root_repeated(sv, i as int) {
                            let w = choose|w: int| 0 <= w < i && #[trigger] sv[w].parent_column is None && sv[w].column_name@ == sv[i as int].column_name@;
                            let k = choose|k: int| 0 <= k < roots_upto(sv, i as int).len() && roots_upto(sv, i as int)[k].1 == w;
                            assert(result.roots()[k].0 == name@);
                        }
                    }
                    lemma_insert_unique(result.roots(), name@, i);
                }
                fields_insert(&mut result.root_columns, name, ArenaIdx(i));
            }
            assert(column_fault(sv, i as int) is None);
            result.arena.push(cc);
            result.by_id.insert(s[i].column_id, ArenaIdx(i));
            i = i + 1;
            assert(result.roots() =~= roots_upto(sv, i as int));
        }
        proof {
            lemma_loaded_wf(sv, tags@, result);
        }
        Ok(result)
    }
}

} // verus!
