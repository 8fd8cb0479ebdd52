use vstd::prelude::*;

use crate::error::{DucklakeError, DucklakeResult};
use crate::text::{
    concat_str, parse_i128, parse_i64, parse_u128, parse_u64, signed_text_value, str_eq, unsigned_text_value, within,
};

verus! {

/// Precision of a timestamp without time zone.
#[derive(Debug, Clone, Copy, PartialEq, Eq, Structural)]
pub enum TimestampPrecision {
    Seconds,
    Milliseconds,
    Microseconds,
    Nanoseconds,
}

/// A key-value tag attached to a table or column.
#[derive(Debug, Clone, PartialEq, Eq)]
pub struct Tag {
    pub key: String,
    pub value: String,
}

/// Fully qualified name of a table.
#[derive(Debug, Clone, PartialEq, Eq)]
pub struct TableName {
    pub schema: String,
    pub name: String,
}

/// Default value of a column: a literal (held as its DuckLake literal text) or an expression
/// in some SQL dialect.
#[derive(Debug, Clone, PartialEq, Eq)]
pub enum ColumnDefault {
    Literal(Option<String>),
    Expression { dialect: String, expression: String },
}

/// Logical data type of a DuckLake column.
#[derive(Debug, PartialEq, Eq)]
pub enum DataType {
    Boolean,
    Int8,
    Int16,
    Int32,
    Int64,
    Int128,
    UInt8,
    UInt16,
    UInt32,
    UInt64,
    UInt128,
    Float32,
    Float64,
    Decimal { precision: u8, scale: u8 },
    Time,
    TimeTz,
    Date,
    Timestamp { precision: TimestampPrecision },
    TimestampTz,
    Interval,
    Varchar,
    Blob,
    Json,
    Uuid,
    List(Box<Column>),
    Struct(Vec<Column>),
    MapOf(Box<Column>, Box<Column>),
}

/// A column of a table schema, possibly nested.
#[derive(Debug, PartialEq, Eq)]
pub struct Column {
    pub name: String,
    pub dtype: DataType,
    pub nullable: bool,
    pub tags: Vec<Tag>,
    /// The DuckLake literal text of the value that rows written before the column existed
    /// take.
    pub initial_default: Option<String>,
    pub default_value: ColumnDefault,
    /// The column's ID in the DuckLake (the Parquet field ID), if it has one.
    pub field_id: Option<i64>,
}

/// Whether a data type is nested (list, struct or map).
pub open spec fn is_nested(t: DataType) -> bool {
    t is List || t is Struct || t is MapOf
}

/// Characters that the regular expression class `\s` matches (Unicode `White_Space`).
pub open spec fn is_space(c: char) -> bool {
    let u = c as u32;
    ||| 0x09 <= u <= 0x0D
    ||| u == 0x20
    ||| u == 0x85
    ||| u == 0xA0
    ||| u == 0x1680
    ||| 0x2000 <= u <= 0x200A
    ||| u == 0x2028
    ||| u == 0x2029
    ||| u == 0x202F
    ||| u == 0x205F
    ||| u == 0x3000
}

pub open spec fn is_digit(c: char) -> bool {
    '0' <= c <= '9'
}

/// Number of consecutive ASCII digits in `s` starting at `i`.
pub open spec fn digit_run(s: Seq<char>, i: int) -> nat
    decreases s.len() - i,
{
    if 0 <= i < s.len() && is_digit(s[i]) {
        1 + digit_run(s, i + 1)
    } else {
        0
    }
}

/// Number of consecutive whitespace characters in `s` starting at `i`.
pub open spec fn space_run(s: Seq<char>, i: int) -> nat
    decreases s.len() - i,
{
    if 0 <= i < s.len() && is_space(s[i]) {
        1 + space_run(s, i + 1)
    } else {
        0
    }
}

/// Decimal value of the `n` digits of `s` starting at `i`.
pub open spec fn digits_value(s: Seq<char>, i: int, n: nat) -> nat
    decreases n,
{
    if n == 0 {
        0
    } else {
        digits_value(s, i, (n - 1) as nat) * 10 + ((s[i + n - 1] as u32) - ('0' as u32)) as nat
    }
}

/// The precision and scale of a type name of the form `decimal(P,S)`, where `P` and `S` are
/// ASCII digit strings of values that fit in a byte and whitespace may follow the comma.
pub open spec fn decimal_spec(s: Seq<char>) -> Option<(u8, u8)> {
    let d1: nat = digit_run(s, 8);
    let comma: int = 8int + d1;
    let q: int = comma + 1 + (space_run(s, comma + 1) as int);
    let d2: nat = digit_run(s, q);
    let close: int = q + (d2 as int);
    if s.len() >= 8 && s.take(8) == "decimal("@ && d1 > 0 && comma < s.len() && s[comma] == ','
        && d2 > 0 && close == s.len() - 1 && s[close] == ')' && digits_value(s, 8, d1) <= 255
        && digits_value(s, q, d2) <= 255 {
        Some((digits_value(s, 8, d1) as u8, digits_value(s, q, d2) as u8))
    } else {
        None
    }
}

/// The primitive data type that a DuckLake type name denotes.
pub open spec fn primitive_dtype_spec(s: Seq<char>) -> Option<DataType> {
    if s == "boolean"@ {
        Some(DataType::Boolean)
    } else if s == "int8"@ {
        Some(DataType::Int8)
    } else if s == "int16"@ {
        Some(DataType::Int16)
    } else if s == "int32"@ {
        Some(DataType::Int32)
    } else if s == "int64"@ {
        Some(DataType::Int64)
    } else if s == "int128"@ {
        Some(DataType::Int128)
    } else if s == "uint8"@ {
        Some(DataType::UInt8)
    } else if s == "uint16"@ {
        Some(DataType::UInt16)
    } else if s == "uint32"@ {
        Some(DataType::UInt32)
    } else if s == "uint64"@ {
        Some(DataType::UInt64)
    } else if s == "uint128"@ {
        Some(DataType::UInt128)
    } else if s == "float32"@ {
        Some(DataType::Float32)
    } else if s == "float64"@ {
        Some(DataType::Float64)
    } else if s == "time"@ {
        Some(DataType::Time)
    } else if s == "timetz"@ {
        Some(DataType::TimeTz)
    } else if s == "date"@ {
        Some(DataType::Date)
    } else if s == "timestamp"@ {
        Some(DataType::Timestamp { precision: TimestampPrecision::Microseconds })
    } else if s == "timestamp_s"@ {
        Some(DataType::Timestamp { precision: TimestampPrecision::Seconds })
    } else if s == "timestamp_ms"@ {
        Some(DataType::Timestamp { precision: TimestampPrecision::Milliseconds })
    } else if s == "timestamp_ns"@ {
        Some(DataType::Timestamp { precision: TimestampPrecision::Nanoseconds })
    } else if s == "timestamptz"@ {
        Some(DataType::TimestampTz)
    } else if s == "interval"@ {
        Some(DataType::Interval)
    } else if s == "varchar"@ {
        Some(DataType::Varchar)
    } else if s == "blob"@ {
        Some(DataType::Blob)
    } else if s == "json"@ {
        Some(DataType::Json)
    } else if s == "uuid"@ {
        Some(DataType::Uuid)
    } else {
        match decimal_spec(s) {
            Some((p, sc)) => Some(DataType::Decimal { precision: p, scale: sc }),
            None => None,
        }
    }
}

/// The DuckLake name of a primitive data type other than a decimal (the empty text for a
/// decimal and for nested types).
pub open spec fn dtype_name(t: DataType) -> Seq<char> {
    match t {
        DataType::Boolean => "boolean"@,
        DataType::Int8 => "int8"@,
        DataType::Int16 => "int16"@,
        DataType::Int32 => "int32"@,
        DataType::Int64 => "int64"@,
        DataType::Int128 => "int128"@,
        DataType::UInt8 => "uint8"@,
        DataType::UInt16 => "uint16"@,
        DataType::UInt32 => "uint32"@,
        DataType::UInt64 => "uint64"@,
        DataType::UInt128 => "uint128"@,
        DataType::Float32 => "float32"@,
        DataType::Float64 => "float64"@,
        DataType::Time => "time"@,
        DataType::TimeTz => "timetz"@,
        DataType::Date => "date"@,
        DataType::Timestamp { precision } => match precision {
            TimestampPrecision::Seconds => "timestamp_s"@,
            TimestampPrecision::Milliseconds => "timestamp_ms"@,
            TimestampPrecision::Microseconds => "timestamp"@,
            TimestampPrecision::Nanoseconds => "timestamp_ns"@,
        },
        DataType::TimestampTz => "timestamptz"@,
        DataType::Interval => "interval"@,
        DataType::Varchar => "varchar"@,
        DataType::Blob => "blob"@,
        DataType::Json => "json"@,
        DataType::Uuid => "uuid"@,
        _ => Seq::empty(),
    }
}

/// A type name denotes the type that bears that name: parsing gives back the type whose
/// DuckLake name is the text (so distinct names give distinct types, and the `_s`, `_ms` and
/// `_ns` suffixes of a timestamp fix its precision), except for decimals, whose names begin
/// with `decimal(`.
pub proof fn lemma_primitive_dtype_names(s: Seq<char>)
    ensures
        primitive_dtype_spec(s) matches Some(t) ==> if t is Decimal {
            s.len() >= 8 && s.take(8) == "decimal("@
        } else {
            dtype_name(t) == s
        },
{
}

/// Enough of a type name to tell it from the others: its length, first character, and last
/// two characters.
spec fn name_key(s: Seq<char>) -> (nat, char, char, char) {
    (s.len(), s[0], s[s.len() - 1], s[s.len() - 2])
}

proof fn lemma_name_keys()
    ensures
        name_key("boolean"@) == (7nat, 'b', 'n', 'a'),
        name_key("int8"@) == (4nat, 'i', '8', 't'),
        name_key("int16"@) == (5nat, 'i', '6', '1'),
        name_key("int32"@) == (5nat, 'i', '2', '3'),
        name_key("int64"@) == (5nat, 'i', '4', '6'),
        name_key("int128"@) == (6nat, 'i', '8', '2'),
        name_key("uint8"@) == (5nat, 'u', '8', 't'),
        name_key("uint16"@) == (6nat, 'u', '6', '1'),
        name_key("uint32"@) == (6nat, 'u', '2', '3'),
        name_key("uint64"@) == (6nat, 'u', '4', '6'),
        name_key("uint128"@) == (7nat, 'u', '8', '2'),
        name_key("float32"@) == (7nat, 'f', '2', '3'),
        name_key("float64"@) == (7nat, 'f', '4', '6'),
        name_key("time"@) == (4nat, 't', 'e', 'm'),
        name_key("timetz"@) == (6nat, 't', 'z', 't'),
        name_key("date"@) == (4nat, 'd', 'e', 't'),
        name_key("timestamp"@) == (9nat, 't', 'p', 'm'),
        name_key("timestamp_s"@) == (11nat, 't', 's', '_'),
        name_key("timestamp_ms"@) == (12nat, 't', 's', 'm'),
        name_key("timestamp_ns"@) == (12nat, 't', 's', 'n'),
        name_key("timestamptz"@) == (11nat, 't', 'z', 't'),
        name_key("interval"@) == (8nat, 'i', 'l', 'a'),
        name_key("varchar"@) == (7nat, 'v', 'r', 'a'),
        name_key("blob"@) == (4nat, 'b', 'b', 'o'),
        name_key("json"@) == (4nat, 'j', 'n', 'o'),
        name_key("uuid"@) == (4nat, 'u', 'd', 'i'),
{
    reveal_strlit("boolean");
    reveal_strlit("int8");
    reveal_strlit("int16");
    reveal_strlit("int32");
    reveal_strlit("int64");
    reveal_strlit("int128");
    reveal_strlit("uint8");
    reveal_strlit("uint16");
    reveal_strlit("uint32");
    reveal_strlit("uint64");
    reveal_strlit("uint128");
    reveal_strlit("float32");
    reveal_strlit("float64");
    reveal_strlit("time");
    reveal_strlit("timetz");
    reveal_strlit("date");
    reveal_strlit("timestamp");
    reveal_strlit("timestamp_s");
    reveal_strlit("timestamp_ms");
    reveal_strlit("timestamp_ns");
    reveal_strlit("timestamptz");
    reveal_strlit("interval");
    reveal_strlit("varchar");
    reveal_strlit("blob");
    reveal_strlit("json");
    reveal_strlit("uuid");
}

/// Every primitive type other than a decimal is denoted by its name.
pub proof fn lemma_dtype_name_parses(t: DataType)
    requires
        !is_nested(t),
        !(t is Decimal),
    ensures
        primitive_dtype_spec(dtype_name(t)) == Some(t),
{
    lemma_name_keys();
    reveal_strlit("decimal(");
    let n = dtype_name(t);
    assert(n.len() < 8 || n[0] != 'd');
}

/// A decimal's name gives its precision first and its scale second: `decimal(P,S)` with digits
/// `P` and `S` denotes the decimal of precision `P` and scale `S`.
pub proof fn lemma_decimal_name(p: char, s: char)
    requires
        is_digit(p),
        is_digit(s),
    ensures
        primitive_dtype_spec("decimal("@ + seq![p, ',', s, ')']) == Some(
            DataType::Decimal { precision: ((p as u32) - 48) as u8, scale: ((s as u32) - 48) as u8 },
        ),
{
    let n = "decimal("@ + seq![p, ',', s, ')'];
    lemma_name_keys();
    reveal_strlit("decimal(");
    assert(n.len() == 12);
    assert(n.take(8) =~= "decimal("@);
    assert(n[8] == p && n[9] == ',' && n[10] == s && n[11] == ')');
    assert(digit_run(n, 8) == 1) by {
        assert(digit_run(n, 9) == 0);
    }
    assert(space_run(n, 10) == 0);
    assert(digit_run(n, 10) == 1) by {
        assert(digit_run(n, 11) == 0);
    }
    assert(digits_value(n, 8, 1) == (p as u32) - 48) by {
        assert(digits_value(n, 8, 0) == 0);
    }
    assert(digits_value(n, 10, 1) == (s as u32) - 48) by {
        assert(digits_value(n, 10, 0) == 0);
    }
    assert(decimal_spec(n) == Some((((p as u32) - 48) as u8, ((s as u32) - 48) as u8)));
    assert(name_key(n) == (12nat, 'd', ')', s));
}

/// Two names that parse to the same type other than a decimal are the same name.
pub proof fn lemma_primitive_dtype_injective(s1: Seq<char>, s2: Seq<char>)
    requires
        primitive_dtype_spec(s1) is Some,
        primitive_dtype_spec(s1) == primitive_dtype_spec(s2),
        !(primitive_dtype_spec(s1).unwrap() is Decimal),
    ensures
        s1 == s2,
{
    lemma_primitive_dtype_names(s1);
    lemma_primitive_dtype_names(s2);
}

fn char_is_digit(c: char) -> (r: bool)
    ensures
        r == is_digit(c),
{
    '0' <= c && c <= '9'
}

fn char_is_space(c: char) -> (r: bool)
    ensures
        r == is_space(c),
{
    let u = c as u32;
    (0x09 <= u && u <= 0x0D) || u == 0x20 || u == 0x85 || u == 0xA0 || u == 0x1680 || (0x2000
        <= u && u <= 0x200A) || u == 0x2028 || u == 0x2029 || u == 0x202F || u == 0x205F || u
        == 0x3000
}

proof fn lemma_digit_run_end(s: Seq<char>, i: int, k: int)
    requires
        0 <= i <= k <= s.len(),
        forall|j: int| i <= j < k ==> #[trigger] is_digit(s[j]),
        !(0 <= k < s.len() && is_digit(s[k])),
    ensures
        digit_run(s, i) == k - i,
    decreases k - i,
{
    if i < k {
        assert(is_digit(s[i]));
        lemma_digit_run_end(s, i + 1, k);
    }
}

proof fn lemma_space_run_end(s: Seq<char>, i: int, k: int)
    requires
        0 <= i <= k <= s.len(),
        forall|j: int| i <= j < k ==> #[trigger] is_space(s[j]),
        !(0 <= k < s.len() && is_space(s[k])),
    ensures
        space_run(s, i) == k - i,
    decreases k - i,
{
    if i < k {
        assert(is_space(s[i]));
        lemma_space_run_end(s, i + 1, k);
    }
}

proof fn lemma_digits_value_monotone(s: Seq<char>, i: int, n: nat)
    requires
        forall|j: int| i <= j < i + n + 1 ==> is_digit(s[j]),
    ensures
        digits_value(s, i, n + 1) >= digits_value(s, i, n),
{
}

/// Scans the ASCII digits of `s` from `start`; returns the end of the run and the run's value,
/// capped at 256.
fn scan_digits(s: &str, start: usize) -> (r: (usize, u64))
    requires
        start <= s@.len(),
    ensures
        r.0 == start + digit_run(s@, start as int),
        r.1 == if digits_value(s@, start as int, digit_run(s@, start as int)) <= 255 {
            digits_value(s@, start as int, digit_run(s@, start as int))
        } else {
            256
        },
{
    let n = s.unicode_len();
    let mut i = start;
    let mut value: u64 = 0;
    while i < n && char_is_digit(s.get_char(i))
        invariant
            n == s@.len(),
            start <= i <= n,
            forall|j: int| start <= j < i ==> is_digit(s@[j]),
            value == if digits_value(s@, start as int, (i - start) as nat) <= 255 {
                digits_value(s@, start as int, (i - start) as nat)
            } else {
                256
            },
        decreases n - i,
    {
        let d = (s.get_char(i) as u32 - '0' as u32) as u64;
        proof {
            lemma_digits_value_monotone(s@, start as int, (i - start) as nat);
            assert(digits_value(s@, start as int, (i + 1 - start) as nat) == digits_value(
                s@,
                start as int,
                (i - start) as nat,
            ) * 10 + d);
        }
        if value <= 255 {
            let next = value * 10 + d;
            value = if next <= 255 { next } else { 256 };
        }
        i = i + 1;
    }
    proof {
        lemma_digit_run_end(s@, start as int, i as int);
    }
    (i, value)
}

/// Parses a type name of the form `decimal(P,S)`.
fn parse_decimal(s: &str) -> (r: Option<(u8, u8)>)
    ensures
        r == decimal_spec(s@),
{
    let n = s.unicode_len();
    if n < 8 {
        return None;
    }
    let prefix = s.substring_char(0, 8);
    if !str_eq(prefix, "decimal(") {
        assert(s@.take(8) =~= prefix@);
        return None;
    }
    assert(s@.take(8) =~= prefix@);
    let (comma, precision) = scan_digits(s, 8);
    if comma == 8 || comma >= n || s.get_char(comma) != ',' {
        return None;
    }
    let mut q = comma + 1;
    while q < n && char_is_space(s.get_char(q))
        invariant
            n == s@.len(),
            comma + 1 <= q <= n,
            forall|j: int| comma + 1 <= j < q ==> is_space(s@[j]),
        decreases n - q,
    {
        q = q + 1;
    }
    proof {
        lemma_space_run_end(s@, comma + 1, q as int);
    }
    let (close, scale) = scan_digits(s, q);
    if close == q || close >= n || close != n - 1 || s.get_char(close) != ')' {
        return None;
    }
    if precision > 255 || scale > 255 {
        return None;
    }
    Some((precision as u8, scale as u8))
}

/// Parses the DuckLake name of a primitive data type.
pub fn parse_primitive_dtype(s: &str) -> (r: DucklakeResult<DataType>)
    ensures
        match r {
            Ok(t) => primitive_dtype_spec(s@) == Some(t),
            Err(e) => primitive_dtype_spec(s@) is None && (e matches DucklakeError::InvalidDataType(m) && m@ == s@),
        },
{
    if str_eq(s, "boolean") {
        Ok(DataType::Boolean)
    } else if str_eq(s, "int8") {
        Ok(DataType::Int8)
    } else if str_eq(s, "int16") {
        Ok(DataType::Int16)
    } else if str_eq(s, "int32") {
        Ok(DataType::Int32)
    } else if str_eq(s, "int64") {
        Ok(DataType::Int64)
    } else if str_eq(s, "int128") {
        Ok(DataType::Int128)
    } else if str_eq(s, "uint8") {
        Ok(DataType::UInt8)
    } else if str_eq(s, "uint16") {
        Ok(DataType::UInt16)
    } else if str_eq(s, "uint32") {
        Ok(DataType::UInt32)
    } else if str_eq(s, "uint64") {
        Ok(DataType::UInt64)
    } else if str_eq(s, "uint128") {
        Ok(DataType::UInt128)
    } else if str_eq(s, "float32") {
        Ok(DataType::Float32)
    } else if str_eq(s, "float64") {
        Ok(DataType::Float64)
    } else if str_eq(s, "time") {
        Ok(DataType::Time)
    } else if str_eq(s, "timetz") {
        Ok(DataType::TimeTz)
    } else if str_eq(s, "date") {
        Ok(DataType::Date)
    } else if str_eq(s, "timestamp") {
        Ok(DataType::Timestamp { precision: TimestampPrecision::Microseconds })
    } else if str_eq(s, "timestamp_s") {
        Ok(DataType::Timestamp { precision: TimestampPrecision::Seconds })
    } else if str_eq(s, "timestamp_ms") {
        Ok(DataType::Timestamp { precision: TimestampPrecision::Milliseconds })
    } else if str_eq(s, "timestamp_ns") {
        Ok(DataType::Timestamp { precision: TimestampPrecision::Nanoseconds })
    } else if str_eq(s, "timestamptz") {
        Ok(DataType::TimestampTz)
    } else if str_eq(s, "interval") {
        Ok(DataType::Interval)
    } else if str_eq(s, "varchar") {
        Ok(DataType::Varchar)
    } else if str_eq(s, "blob") {
        Ok(DataType::Blob)
    } else if str_eq(s, "json") {
        Ok(DataType::Json)
    } else if str_eq(s, "uuid") {
        Ok(DataType::Uuid)
    } else {
        match parse_decimal(s) {
            Some((precision, scale)) => Ok(DataType::Decimal { precision, scale }),
            None => Err(DucklakeError::InvalidDataType(s.to_owned())),
        }
    }
}


/// The UUID that text denotes as `uuid::Uuid::parse_str` reads it (simple, hyphenated, braced
/// or URN form, hex digits in either case), as its 128 bits; `None` for any other text.
pub uninterp spec fn uuid_parse_spec(s: Seq<char>) -> Option<u128>;

/// Parses a UUID (`uuid::Uuid::parse_str`), as its 128 bits.
#[verifier::external_body]
fn parse_uuid(s: &str) -> (r: Option<u128>)
    ensures
        r == uuid_parse_spec(s@),
{
    uuid::Uuid::parse_str(s).ok().map(|u| u.as_u128())
}

/// Whether text is a literal of primitive type `t` as that type's text is read: `true` or
/// `false` for a boolean, decimal text of a value in range for an integer type (as its
/// `from_str` reads it), and UUID text for a UUID. The text of the other primitive types
/// (floating point, decimal, temporal, interval, character, JSON and binary) is not checked
/// here.
pub open spec fn literal_parses(t: DataType, v: Seq<char>) -> bool {
    match t {
        DataType::Boolean => v == "true"@ || v == "false"@,
        DataType::Int8 => within(signed_text_value(v), i8::MIN as int, i8::MAX as int) is Some,
        DataType::Int16 => within(signed_text_value(v), i16::MIN as int, i16::MAX as int) is Some,
        DataType::Int32 => within(signed_text_value(v), i32::MIN as int, i32::MAX as int) is Some,
        DataType::Int64 => within(signed_text_value(v), i64::MIN as int, i64::MAX as int) is Some,
        DataType::Int128 => within(signed_text_value(v), i128::MIN as int, i128::MAX as int) is Some,
        DataType::UInt8 => within(unsigned_text_value(v), 0, u8::MAX as int) is Some,
        DataType::UInt16 => within(unsigned_text_value(v), 0, u16::MAX as int) is Some,
        DataType::UInt32 => within(unsigned_text_value(v), 0, u32::MAX as int) is Some,
        DataType::UInt64 => within(unsigned_text_value(v), 0, u64::MAX as int) is Some,
        DataType::UInt128 => within(unsigned_text_value(v), 0, u128::MAX as int) is Some,
        DataType::Uuid => uuid_parse_spec(v) is Some,
        _ => true,
    }
}

/// Checks literal text against primitive type `t` (see `literal_parses`).
pub fn literal_parses_as(t: &DataType, v: &str) -> (r: bool)
    ensures
        r == literal_parses(*t, v@),
{
    match t {
        DataType::Boolean => str_eq(v, "true") || str_eq(v, "false"),
        DataType::Int8 => match parse_i64(v) {
            Some(x) => -128 <= x && x <= 127,
            None => false,
        },
        DataType::Int16 => match parse_i64(v) {
            Some(x) => -32768 <= x && x <= 32767,
            None => false,
        },
        DataType::Int32 => match parse_i64(v) {
            Some(x) => -2147483648 <= x && x <= 2147483647,
            None => false,
        },
        DataType::Int64 => parse_i64(v).is_some(),
        DataType::Int128 => parse_i128(v).is_some(),
        DataType::UInt8 => match parse_u64(v) {
            Some(x) => x <= 255,
            None => false,
        },
        DataType::UInt16 => match parse_u64(v) {
            Some(x) => x <= 65535,
            None => false,
        },
        DataType::UInt32 => match parse_u64(v) {
            Some(x) => x <= 4294967295,
            None => false,
        },
        DataType::UInt64 => parse_u64(v).is_some(),
        DataType::UInt128 => parse_u128(v).is_some(),
        DataType::Uuid => parse_uuid(v).is_some(),
        _ => true,
    }
}

impl Tag {
    /// A copy of this tag.
    pub fn duplicate(&self) -> (r: Tag)
        ensures
            r == *self,
    {
        Tag { key: self.key.clone(), value: self.value.clone() }
    }
}

/// A copy of a list of tags.
pub fn copy_tags(tags: &Vec<Tag>) -> (r: Vec<Tag>)
    ensures
        r@ == tags@,
{
    let mut r: Vec<Tag> = Vec::new();
    let mut i: usize = 0;
    while i < tags.len()
        invariant
            i <= tags@.len(),
            r@ == tags@.take(i as int),
        decreases tags@.len() - i,
    {
        r.push(tags[i].duplicate());
        i = i + 1;
        assert(r@ =~= tags@.take(i as int));
    }
    assert(tags@.take(tags@.len() as int) =~= tags@);
    r
}

/// A copy of an optional string.
pub fn copy_opt_string(s: &Option<String>) -> (r: Option<String>)
    ensures
        r == *s,
{
    match s {
        Some(v) => Some(v.clone()),
        None => None,
    }
}

impl ColumnDefault {
    /// A copy of this default.
    pub fn duplicate(&self) -> (r: ColumnDefault)
        ensures
            r == *self,
    {
        match self {
            ColumnDefault::Literal(v) => ColumnDefault::Literal(copy_opt_string(v)),
            ColumnDefault::Expression { dialect, expression } => ColumnDefault::Expression {
                dialect: dialect.clone(),
                expression: expression.clone(),
            },
        }
    }
}

impl DataType {
    /// A copy of this (non-nested) data type.
    pub fn duplicate_primitive(&self) -> (r: DataType)
        requires
            !is_nested(*self),
        ensures
            r == *self,
    {
        match self {
            DataType::Boolean => DataType::Boolean,
            DataType::Int8 => DataType::Int8,
            DataType::Int16 => DataType::Int16,
            DataType::Int32 => DataType::Int32,
            DataType::Int64 => DataType::Int64,
            DataType::Int128 => DataType::Int128,
            DataType::UInt8 => DataType::UInt8,
            DataType::UInt16 => DataType::UInt16,
            DataType::UInt32 => DataType::UInt32,
            DataType::UInt64 => DataType::UInt64,
            DataType::UInt128 => DataType::UInt128,
            DataType::Float32 => DataType::Float32,
            DataType::Float64 => DataType::Float64,
            DataType::Decimal { precision, scale } => DataType::Decimal { precision: *precision, scale: *scale },
            DataType::Time => DataType::Time,
            DataType::TimeTz => DataType::TimeTz,
            DataType::Date => DataType::Date,
            DataType::Timestamp { precision } => DataType::Timestamp { precision: *precision },
            DataType::TimestampTz => DataType::TimestampTz,
            DataType::Interval => DataType::Interval,
            DataType::Varchar => DataType::Varchar,
            DataType::Blob => DataType::Blob,
            DataType::Json => DataType::Json,
            DataType::Uuid => DataType::Uuid,
            DataType::List(_) | DataType::Struct(_) | DataType::MapOf(_, _) => DataType::Boolean,
        }
    }
}


impl TableName {
    /// The qualified name as text: `schema.name`.
    pub open spec fn text(&self) -> Seq<char> {
        self.schema@ + "."@ + self.name@
    }

    /// The qualified name as text: `schema.name`.
    pub fn to_text(&self) -> (r: String)
        ensures
            r@ == self.text(),
    {
        let head = concat_str(self.schema.as_str(), ".");
        concat_str(head.as_str(), self.name.as_str())
    }

    /// A copy of this name.
    pub fn duplicate(&self) -> (r: TableName)
        ensures
            r == *self,
    {
        TableName { schema: self.schema.clone(), name: self.name.clone() }
    }
}
} // verus!
