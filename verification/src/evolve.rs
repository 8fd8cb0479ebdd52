//! How the columns of a batch of data are matched to the columns of a table: which source
//! column feeds which table column, which type changes a read may make, and which columns may
//! not hold nulls.
use vstd::prelude::*;

use crate::copy::{int_chars, int_text};
use crate::dtype::{is_nested, Column, ColumnDefault, DataType};
use crate::error::{DucklakeError, DucklakeResult};
use crate::metadata::opt_view;
use crate::text::{concat_str, str_eq};

verus! {

/// How source columns are matched, and what a table column that no source column feeds is
/// filled with: data files are matched by Parquet field ID and missing columns take their
/// initial default; inlined data is matched by name and missing columns take their default
/// value.
#[derive(Debug, Clone, Copy, PartialEq, Eq, Structural)]
pub enum Defaults {
    InitialDefault,
    DefaultValue,
}

/// The key a table column is looked up by: the decimal text of its field ID, or its name.
pub open spec fn column_key(c: Column, defaults: Defaults) -> Option<Seq<char>> {
    match defaults {
        Defaults::InitialDefault => match c.field_id {
            Some(id) => Some(int_chars(id as int)),
            None => None,
        },
        Defaults::DefaultValue => Some(c.name@),
    }
}

/// The key of source column `i` (none: the column is not looked up).
pub open spec fn source_key(keys: Seq<Option<String>>, i: int) -> Option<Seq<char>> {
    opt_view(keys[i])
}

/// Source column `i` has a key that an earlier source column has too.
pub open spec fn repeats_earlier(keys: Seq<Option<String>>, i: int) -> bool {
    &&& source_key(keys, i) is Some
    &&& exists|j: int| 0 <= j < i && #[trigger] source_key(keys, j) == source_key(keys, i)
}

/// Some source column has the key `x`.
pub open spec fn has_source_key(keys: Seq<Option<String>>, x: Seq<char>) -> bool {
    exists|i: int| 0 <= i < keys.len() && #[trigger] source_key(keys, i) == Some(x)
}

/// A table column before column `k` has the key `x` (and so took the source column with it).
pub open spec fn claimed_before(columns: Seq<Column>, defaults: Defaults, k: int, x: Seq<char>) -> bool {
    exists|j: int| 0 <= j < k && #[trigger] column_key(columns[j], defaults) == Some(x)
}

/// Some source column has a key that no table column has.
pub open spec fn leaves_unmatched(keys: Seq<Option<String>>, columns: Seq<Column>, defaults: Defaults) -> bool {
    exists|i: int|
        0 <= i < keys.len() && (#[trigger] source_key(keys, i) matches Some(x) && !claimed_before(
            columns,
            defaults,
            columns.len() as int,
            x,
        ))
}

/// The source column that feeds table column `k`, if any: the one with the column's key,
/// unless an earlier table column with that key took it.
pub open spec fn feeds(keys: Seq<Option<String>>, columns: Seq<Column>, defaults: Defaults, k: int, source: Option<usize>) -> bool {
    match source {
        Some(i) => i < keys.len() && column_key(columns[k], defaults) is Some && source_key(keys, i as int) == column_key(
            columns[k],
            defaults,
        ) && !claimed_before(columns, defaults, k, column_key(columns[k], defaults)->0),
        None => match column_key(columns[k], defaults) {
            Some(x) => !has_source_key(keys, x) || claimed_before(columns, defaults, k, x),
            None => true,
        },
    }
}

/// `sources` names, for each table column, the source column that feeds it.
pub open spec fn fed_by(keys: Seq<Option<String>>, columns: Seq<Column>, defaults: Defaults, sources: Seq<Option<usize>>) -> bool {
    &&& sources.len() == columns.len()
    &&& forall|k: int| 0 <= k < columns.len() ==> feeds(keys, columns, defaults, k, #[trigger] sources[k])
}

/// Which source column feeds each table column.
pub struct FieldMatch {
    /// For each table column, the source column that feeds it; none when it is filled with
    /// its default.
    pub sources: Vec<Option<usize>>,
    /// Whether some source column feeds no table column (inlined data must not have such a
    /// column).
    pub unmatched_fields: bool,
}

/// The source column with key `x`, if there is one.
fn find_source(keys: &[Option<String>], x: &str) -> (r: Option<usize>)
    ensures
        match r {
            Some(i) => i < keys@.len() && source_key(keys@, i as int) == Some(x@),
            None => !has_source_key(keys@, x@),
        },
{
    let mut i: usize = 0;
    while i < keys.len()
        invariant
            i <= keys@.len(),
            forall|j: int| 0 <= j < i ==> source_key(keys@, j) != Some(x@),
        decreases keys@.len() - i,
    {
        if let Some(k) = &keys[i] {
            if str_eq(k.as_str(), x) {
                return Some(i);
            }
        }
        i = i + 1;
    }
    None
}

/// The key of a table column (see `column_key`).
fn column_key_text(c: &Column, defaults: Defaults) -> (r: Option<String>)
    ensures
        opt_view(r) == column_key(*c, defaults),
{
    match defaults {
        Defaults::InitialDefault => match c.field_id {
            Some(id) => Some(int_text(id)),
            None => None,
        },
        Defaults::DefaultValue => Some(c.name.clone()),
    }
}

/// Matches source columns, by their keys (field IDs or names, as `defaults` says), to the
/// columns of a table: each table column takes the source column with its key, unless an
/// earlier table column with the same key took it already. Fails with `SchemaError` at the
/// first source column whose key repeats an earlier one.
pub fn match_fields(keys: &[Option<String>], columns: &[Column], defaults: Defaults) -> (r: DucklakeResult<FieldMatch>)
    ensures
        r is Err <==> exists|i: int| 0 <= i < keys@.len() && #[trigger] repeats_earlier(keys@, i),
        r matches Err(e) ==> exists|i: int|
            0 <= i < keys@.len() && #[trigger] repeats_earlier(keys@, i) && (forall|j: int| 0 <= j < i ==> !repeats_earlier(keys@, j))
                && (e matches DucklakeError::SchemaError(m) && m@ == "duplicate field: "@ + source_key(keys@, i)->0),
        r matches Ok(p) ==> {
            &&& fed_by(keys@, columns@, defaults, p.sources@)
            &&& p.unmatched_fields == leaves_unmatched(keys@, columns@, defaults)
        },
{
    let n = keys.len();
    let mut i: usize = 0;
    while i < n
        invariant
            n == keys@.len(),
            i <= n,
            forall|j: int| 0 <= j < i ==> !repeats_earlier(keys@, j),
        decreases n - i,
    {
        if let Some(k) = &keys[i] {
            let mut j: usize = 0;
            while j < i
                invariant
                    n == keys@.len(),
                    i < n,
                    j <= i,
                    source_key(keys@, i as int) == Some(k@),
                    forall|q: int| 0 <= q < i ==> !repeats_earlier(keys@, q),
                    forall|q: int| 0 <= q < j ==> source_key(keys@, q) != Some(k@),
                decreases i - j,
            {
                if let Some(kj) = &keys[j] {
                    if str_eq(kj.as_str(), k.as_str()) {
                        assert(source_key(keys@, j as int) == source_key(keys@, i as int));
                        assert(repeats_earlier(keys@, i as int));
                        let msg = concat_str("duplicate field: ", k.as_str());
                        assert(msg@ == "duplicate field: "@ + source_key(keys@, i as int)->0);
                        return Err(DucklakeError::SchemaError(msg));
                    }
                }
                j = j + 1;
            }
        }
        i = i + 1;
    }
    let mut consumed: Vec<bool> = Vec::new();
    let mut q: usize = 0;
    while q < n
        invariant
            n == keys@.len(),
            q <= n,
            consumed@.len() == q,
            forall|p: int| 0 <= p < q ==> !consumed@[p],
        decreases n - q,
    {
        consumed.push(false);
        q = q + 1;
    }
    let mut sources: Vec<Option<usize>> = Vec::new();
    let mut k: usize = 0;
    while k < columns.len()
        invariant
            n == keys@.len(),
            forall|j: int| 0 <= j < n ==> !repeats_earlier(keys@, j),
            consumed@.len() == n,
            k <= columns@.len(),
            sources@.len() == k,
            forall|p: int|
                0 <= p < n ==> (#[trigger] consumed@[p] <==> (source_key(keys@, p) matches Some(x) && claimed_before(
                    columns@,
                    defaults,
                    k as int,
                    x,
                ))),
            forall|c: int| 0 <= c < k ==> feeds(keys@, columns@, defaults, c, #[trigger] sources@[c]),
        decreases columns@.len() - k,
    {
        let key = column_key_text(&columns[k], defaults);
        let ghost ck = column_key(columns@[k as int], defaults);
        let ghost before = consumed@;
        let found = match &key {
            Some(x) => find_source(keys, x.as_str()),
            None => None,
        };
        let source = match found {
            Some(p) => {
                if consumed[p] {
                    None
                } else {
                    consumed.set(p, true);
                    Some(p)
                }
            },
            None => None,
        };
        proof {
            assert forall|p: int| 0 <= p < n implies (#[trigger] consumed@[p] <==> (source_key(keys@, p) matches Some(x)
                && claimed_before(columns@, defaults, k + 1, x))) by {
                if let Some(x) = source_key(keys@, p) {
                    if claimed_before(columns@, defaults, k + 1, x) && !claimed_before(columns@, defaults, k as int, x) {
                        assert(ck == Some(x));
                        if let Some(f) = found {
                            if f != p {
                                assert(source_key(keys@, f as int) == source_key(keys@, p));
                                if f < p {
                                    assert(repeats_earlier(keys@, p));
                                } else {
                                    assert(repeats_earlier(keys@, f as int));
                                }
                            }
                        } else {
                            assert(has_source_key(keys@, x));
                        }
                    }
                    if claimed_before(columns@, defaults, k as int, x) {
                        let j = choose|j: int| 0 <= j < k && #[trigger] column_key(columns@[j], defaults) == Some(x);
                        assert(0 <= j < k + 1 && column_key(columns@[j], defaults) == Some(x));
                    }
                    if let Some(f) = found {
                        if f == p && source is Some {
                            assert(column_key(columns@[k as int], defaults) == Some(x));
                        }
                    }
                } else {
                    if let Some(f) = found {
                        assert(f != p);
                    }
                }
            }
            if let Some(x) = ck {
                if claimed_before(columns@, defaults, k as int, x) {
                    let j = choose|j: int| 0 <= j < k && #[trigger] column_key(columns@[j], defaults) == Some(x);
                    assert(0 <= j < k + 1 && column_key(columns@[j], defaults) == Some(x));
                }
                if let Some(f) = found {
                    if before[f as int] {
                        assert(claimed_before(columns@, defaults, k as int, x));
                    }
                }
            }
        }
        let ghost old_sources = sources@;
        sources.push(source);
        proof {
            assert forall|c: int| 0 <= c < k + 1 implies feeds(keys@, columns@, defaults, c, #[trigger] sources@[c]) by {
                if c < k {
                    assert(sources@[c] == old_sources[c]);
                }
            }
        }
        k = k + 1;
    }
    let mut unmatched = false;
    let mut p: usize = 0;
    while p < n
        invariant
            n == keys@.len(),
            consumed@.len() == n,
            p <= n,
            forall|t: int|
                0 <= t < n ==> (#[trigger] consumed@[t] <==> (source_key(keys@, t) matches Some(x) && claimed_before(
                    columns@,
                    defaults,
                    columns@.len() as int,
                    x,
                ))),
            unmatched <==> exists|t: int|
                0 <= t < p && (#[trigger] source_key(keys@, t) matches Some(x) && !claimed_before(
                    columns@,
                    defaults,
                    columns@.len() as int,
                    x,
                )),
        decreases n - p,
    {
        if keys[p].is_some() && !consumed[p] {
            unmatched = true;
        }
        p = p + 1;
    }
    Ok(FieldMatch { sources, unmatched_fields: unmatched })
}

/// A source column feeds at most one table column.
pub proof fn lemma_sources_distinct(
    keys: Seq<Option<String>>,
    columns: Seq<Column>,
    defaults: Defaults,
    sources: Seq<Option<usize>>,
    a: int,
    b: int,
)
    requires
        fed_by(keys, columns, defaults, sources),
        0 <= a < b < columns.len(),
        sources[a] is Some,
    ensures
        sources[a] != sources[b],
{
    assert(feeds(keys, columns, defaults, a, sources[a]));
    assert(feeds(keys, columns, defaults, b, sources[b]));
    if sources[a] == sources[b] {
        let x = column_key(columns[a], defaults)->0;
        assert(column_key(columns[b], defaults) == Some(x));
        assert(claimed_before(columns, defaults, b, x));
    }
}

/// What a table column that no source column feeds is filled with.
#[derive(Debug, PartialEq, Eq)]
pub enum ColumnFill {
    /// Every row holds this value (its DuckLake literal text).
    Value(String),
    /// Each field of the (struct) column is filled in turn.
    Fields,
    /// Every row is null.
    Nulls,
}

/// The fill of a column: its initial default, or else (for a struct) its fields filled in
/// turn, when reading data files; its literal default value when reading inlined data, which
/// cannot compute an expression default.
pub open spec fn fill_spec(c: Column, defaults: Defaults) -> Result<(Option<Seq<char>>, bool), Seq<char>> {
    match defaults {
        Defaults::InitialDefault => match c.initial_default {
            Some(v) => Ok((Some(v@), false)),
            None => Ok((None, c.dtype is Struct)),
        },
        Defaults::DefaultValue => match c.default_value {
            ColumnDefault::Literal(Some(v)) => Ok((Some(v@), false)),
            ColumnDefault::Literal(None) => Ok((None, false)),
            ColumnDefault::Expression { .. } => Err("expression default for '"@ + c.name@ + "' is unsupported"@),
        },
    }
}

/// How a fill reads in `fill_spec`'s terms: the value, and whether the fields are filled.
pub open spec fn fill_view(f: ColumnFill) -> (Option<Seq<char>>, bool) {
    match f {
        ColumnFill::Value(v) => (Some(v@), false),
        ColumnFill::Fields => (None, true),
        ColumnFill::Nulls => (None, false),
    }
}

/// What a table column that no source column feeds is filled with (see `fill_spec`); an
/// expression default fails with `SchemaError`.
pub fn column_fill(column: &Column, defaults: Defaults) -> (r: DucklakeResult<ColumnFill>)
    ensures
        match fill_spec(*column, defaults) {
            Ok(f) => r matches Ok(x) && fill_view(x) == f,
            Err(m) => r matches Err(e) && (e matches DucklakeError::SchemaError(t) && t@ == m),
        },
{
    let value = match defaults {
        Defaults::InitialDefault => &column.initial_default,
        Defaults::DefaultValue => match &column.default_value {
            ColumnDefault::Literal(v) => v,
            ColumnDefault::Expression { .. } => {
                let a = concat_str("expression default for '", column.name.as_str());
                let m = concat_str(a.as_str(), "' is unsupported");
                return Err(DucklakeError::SchemaError(m));
            },
        },
    };
    match value {
        Some(v) => Ok(ColumnFill::Value(v.clone())),
        None => match (defaults, &column.dtype) {
            (Defaults::InitialDefault, DataType::Struct(_)) => Ok(ColumnFill::Fields),
            _ => Ok(ColumnFill::Nulls),
        },
    }
}

/// Whether a read may widen a column of type `source` to type `target`: a signed or an
/// unsigned integer to a wider one of its kind, `float` to `double`, and `varchar` to `json`.
pub open spec fn promotes(source: DataType, target: DataType) -> bool {
    match source {
        DataType::Int8 => target is Int16 || target is Int32 || target is Int64,
        DataType::Int16 => target is Int32 || target is Int64,
        DataType::Int32 => target is Int64,
        DataType::UInt8 => target is UInt16 || target is UInt32 || target is UInt64,
        DataType::UInt16 => target is UInt32 || target is UInt64,
        DataType::UInt32 => target is UInt64,
        DataType::Float32 => target is Float64,
        DataType::Varchar => target is Json,
        _ => false,
    }
}

/// The width in bits of a signed integer type of at most 64 bits; 0 for any other type.
pub open spec fn signed_width(t: DataType) -> nat {
    match t {
        DataType::Int8 => 8,
        DataType::Int16 => 16,
        DataType::Int32 => 32,
        DataType::Int64 => 64,
        _ => 0,
    }
}

/// The width in bits of an unsigned integer type of at most 64 bits; 0 for any other type.
pub open spec fn unsigned_width(t: DataType) -> nat {
    match t {
        DataType::UInt8 => 8,
        DataType::UInt16 => 16,
        DataType::UInt32 => 32,
        DataType::UInt64 => 64,
        _ => 0,
    }
}

/// Integer columns of up to 64 bits widen exactly to the strictly wider integer types of the
/// same signedness: a signed type to every wider signed one, an unsigned type to every wider
/// unsigned one, and to nothing else.
pub proof fn lemma_integer_promotion(source: DataType, target: DataType)
    requires
        signed_width(source) > 0 || unsigned_width(source) > 0,
    ensures
        promotes(source, target) <==> (signed_width(source) > 0 && signed_width(source) < signed_width(target)) || (
        unsigned_width(source) > 0 && unsigned_width(source) < unsigned_width(target)),
{
}

/// Outside the integers, a read widens only `float` to `double` and `varchar` to `json`; in
/// particular no type widens to itself, and nothing widens to a 128-bit integer.
pub proof fn lemma_other_promotion(source: DataType, target: DataType)
    requires
        signed_width(source) == 0,
        unsigned_width(source) == 0,
    ensures
        promotes(source, target) <==> (source is Float32 && target is Float64) || (source is Varchar && target is Json),
        !promotes(source, source),
        !promotes(target, DataType::Int128) && !promotes(target, DataType::UInt128),
{
}

/// Whether a read may widen a column of type `source` to type `target` (see `promotes`).
pub fn allows_primitive_promotion(source: &DataType, target: &DataType) -> (r: bool)
    ensures
        r == promotes(*source, *target),
{
    match source {
        DataType::Int8 => matches!(target, DataType::Int16 | DataType::Int32 | DataType::Int64),
        DataType::Int16 => matches!(target, DataType::Int32 | DataType::Int64),
        DataType::Int32 => matches!(target, DataType::Int64),
        DataType::UInt8 => matches!(target, DataType::UInt16 | DataType::UInt32 | DataType::UInt64),
        DataType::UInt16 => matches!(target, DataType::UInt32 | DataType::UInt64),
        DataType::UInt32 => matches!(target, DataType::UInt64),
        DataType::Float32 => matches!(target, DataType::Float64),
        DataType::Varchar => matches!(target, DataType::Json),
        _ => false,
    }
}

/// Whether a non-nested data type equals another data type.
fn same_primitive(a: &DataType, b: &DataType) -> (r: bool)
    requires
        !is_nested(*a),
    ensures
        r == (*a == *b),
{
    match a {
        DataType::Boolean => matches!(b, DataType::Boolean),
        DataType::Int8 => matches!(b, DataType::Int8),
        DataType::Int16 => matches!(b, DataType::Int16),
        DataType::Int32 => matches!(b, DataType::Int32),
        DataType::Int64 => matches!(b, DataType::Int64),
        DataType::Int128 => matches!(b, DataType::Int128),
        DataType::UInt8 => matches!(b, DataType::UInt8),
        DataType::UInt16 => matches!(b, DataType::UInt16),
        DataType::UInt32 => matches!(b, DataType::UInt32),
        DataType::UInt64 => matches!(b, DataType::UInt64),
        DataType::UInt128 => matches!(b, DataType::UInt128),
        DataType::Float32 => matches!(b, DataType::Float32),
        DataType::Float64 => matches!(b, DataType::Float64),
        DataType::Decimal { precision, scale } => match b {
            DataType::Decimal { precision: p, scale: s } => *precision == *p && *scale == *s,
            _ => false,
        },
        DataType::Time => matches!(b, DataType::Time),
        DataType::TimeTz => matches!(b, DataType::TimeTz),
        DataType::Date => matches!(b, DataType::Date),
        DataType::Timestamp { precision } => match b {
            DataType::Timestamp { precision: p } => *precision == *p,
            _ => false,
        },
        DataType::TimestampTz => matches!(b, DataType::TimestampTz),
        DataType::Interval => matches!(b, DataType::Interval),
        DataType::Varchar => matches!(b, DataType::Varchar),
        DataType::Blob => matches!(b, DataType::Blob),
        DataType::Json => matches!(b, DataType::Json),
        DataType::Uuid => matches!(b, DataType::Uuid),
        DataType::List(_) | DataType::Struct(_) | DataType::MapOf(_, _) => false,
    }
}

/// Checks that a read may turn a non-nested column of type `source` into one of type
/// `target`: the same type or a widening one (see `promotes`); otherwise fails with
/// `InvalidCast` from `source` to `target`.
pub fn check_cast(source: DataType, target: DataType) -> (r: DucklakeResult<()>)
    requires
        !is_nested(source),
    ensures
        r is Ok <==> (source == target || promotes(source, target)),
        r matches Err(e) ==> e == (DucklakeError::InvalidCast { old: source, new: target }),
{
    if same_primitive(&source, &target) || allows_primitive_promotion(&source, &target) {
        Ok(())
    } else {
        Err(DucklakeError::InvalidCast { old: source, new: target })
    }
}

/// Checks that no column that may not hold nulls holds one, given the number of nulls in each
/// column; fails with `InvalidNullValue` naming the first that does.
pub fn check_nullability(columns: &[Column], null_counts: &[usize]) -> (r: DucklakeResult<()>)
    requires
        columns@.len() == null_counts@.len(),
    ensures
        r is Ok <==> forall|k: int| 0 <= k < columns@.len() ==> (#[trigger] columns@[k]).nullable || null_counts@[k] == 0,
        r matches Err(e) ==> exists|k: int|
            0 <= k < columns@.len() && !(#[trigger] columns@[k]).nullable && null_counts@[k] > 0 && (forall|j: int|
                0 <= j < k ==> columns@[j].nullable || null_counts@[j] == 0) && (e matches DucklakeError::InvalidNullValue {
                column,
            } && column@ == columns@[k].name@),
{
    let mut k: usize = 0;
    while k < columns.len()
        invariant
            columns@.len() == null_counts@.len(),
            k <= columns@.len(),
            forall|j: int| 0 <= j < k ==> (#[trigger] columns@[j]).nullable || null_counts@[j] == 0,
        decreases columns@.len() - k,
    {
        if !columns[k].nullable && null_counts[k] > 0 {
            return Err(DucklakeError::InvalidNullValue { column: columns[k].name.clone() });
        }
        k = k + 1;
    }
    Ok(())
}

} // verus!
