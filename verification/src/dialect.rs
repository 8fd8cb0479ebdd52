//! The SQL dialects of the catalog databases: the column types DuckLake uses in each, and how
//! their errors are recognized.
use vstd::prelude::*;

use crate::dtype::DataType;
use crate::error::DucklakeError;
use crate::postgres::postgres_type_spec;
use crate::sqlite::sqlite_type_spec;
use crate::text::{concat_str, contains_seq, contains_str, str_eq};

verus! {

/// The database engine of a catalog.
#[derive(Debug, Clone, Copy, PartialEq, Eq, Structural)]
pub enum Dialect {
    Postgres,
    MySql,
    Sqlite,
}

/// The PostgreSQL dialect.
#[derive(Debug, Clone, Copy)]
pub struct PostgresDialect;

/// The SQLite dialect.
#[derive(Debug, Clone, Copy)]
pub struct SqliteDialect;

/// A column type of the catalog database, as DuckLake's DuckDB extension declares it.
#[derive(Debug, Clone, PartialEq, Eq)]
pub enum SqlColumnType {
    Boolean,
    SmallInteger,
    Integer,
    BigInteger,
    /// A variable-length string without a length limit.
    String,
    Text,
    Float,
    Double,
    Decimal(u32, u32),
    Time,
    Interval,
    Blob,
    Uuid,
    TimestampWithTimeZone,
    /// A type written out by name.
    Custom(String),
}

/// A column default of a catalog table: a bound string value, or SQL text as it stands.
#[derive(Debug, Clone, PartialEq, Eq)]
pub enum SqlDefault {
    Value(String),
    Custom(String),
}

/// `bigint`, written out.
pub open spec fn is_bigint_custom(c: SqlColumnType) -> bool {
    c matches SqlColumnType::Custom(s) && s@ == "bigint"@
}

pub(crate) fn bigint() -> (r: SqlColumnType)
    ensures
        is_bigint_custom(r),
{
    proof {
        reveal_strlit("bigint");
    }
    SqlColumnType::Custom("bigint".to_owned())
}

/// The SQLite `no such table` error text.
pub open spec fn no_such_table() -> Seq<char> {
    "no such table"@
}

impl Dialect {
    /// The most bind parameters one statement may carry.
    pub fn max_bind_params(&self) -> (r: usize)
        ensures
            r == match *self {
                Dialect::Sqlite => 32766usize,
                _ => 65535usize,
            },
    {
        match self {
            Dialect::Sqlite => 32766,
            Dialect::Postgres | Dialect::MySql => 65535,
        }
    }

    /// The column type for inlined data of the given type (inlining is not available on
    /// MySQL).
    pub fn column_type_for_data_inlining(&self, data_type: &DataType) -> (r: SqlColumnType)
        requires
            !(*self is MySql),
        ensures
            *self is Postgres ==> (data_type is TimeTz ==> (r matches SqlColumnType::Custom(s) && s@ == "TIMETZ"@)) && (!(data_type is TimeTz) ==> r == postgres_type_spec(*data_type)),
            *self is Sqlite ==> match sqlite_type_spec(*data_type) {
                Some(t) => r == t,
                None => is_bigint_custom(r),
            },
    {
        match self {
            Dialect::Postgres => crate::postgres::column_type_for_data_type(data_type),
            Dialect::Sqlite => crate::sqlite::column_type_for_data_type(data_type),
            Dialect::MySql => SqlColumnType::Text,
        }
    }

    /// The column type of string columns.
    pub fn column_type_string(&self) -> (r: SqlColumnType)
        ensures
            r == if *self is MySql { SqlColumnType::Text } else { SqlColumnType::String },
    {
        match self {
            Dialect::MySql => SqlColumnType::Text,
            _ => SqlColumnType::String,
        }
    }

    /// The column type of 64-bit integer columns.
    pub fn column_type_i64(&self) -> (r: SqlColumnType)
        ensures
            *self is Sqlite ==> is_bigint_custom(r),
            !(*self is Sqlite) ==> r == SqlColumnType::BigInteger,
    {
        match self {
            Dialect::Sqlite => bigint(),
            _ => SqlColumnType::BigInteger,
        }
    }

    /// The column type of boolean columns.
    pub fn column_type_bool(&self) -> (r: SqlColumnType)
        ensures
            *self is Sqlite ==> is_bigint_custom(r),
            !(*self is Sqlite) ==> r == SqlColumnType::Boolean,
    {
        match self {
            Dialect::Sqlite => bigint(),
            _ => SqlColumnType::Boolean,
        }
    }

    /// The column type of timestamp-with-time-zone columns.
    pub fn column_type_date_time_with_time_zone(&self) -> (r: SqlColumnType)
        ensures
            r == if *self is Sqlite { SqlColumnType::String } else { SqlColumnType::TimestampWithTimeZone },
    {
        match self {
            Dialect::Sqlite => SqlColumnType::String,
            _ => SqlColumnType::TimestampWithTimeZone,
        }
    }

    /// The column type of UUID columns.
    pub fn column_type_uuid(&self) -> (r: SqlColumnType)
        ensures
            r == match *self {
                Dialect::Sqlite => SqlColumnType::String,
                Dialect::MySql => SqlColumnType::Text,
                Dialect::Postgres => SqlColumnType::Uuid,
            },
    {
        match self {
            Dialect::Sqlite => SqlColumnType::String,
            Dialect::MySql => SqlColumnType::Text,
            Dialect::Postgres => SqlColumnType::Uuid,
        }
    }

    /// The default for a string column: on MySQL, a quoted SQL literal (quotes doubled);
    /// elsewhere a bound value.
    pub fn default_value_string(&self, value: &str) -> (r: SqlDefault)
        ensures
            *self is MySql ==> (r matches SqlDefault::Custom(s) && s@ == seq!['\''] + double_quotes(value@, '\'') + seq!['\'']),
            !(*self is MySql) ==> (r matches SqlDefault::Value(s) && s@ == value@),
    {
        match self {
            Dialect::MySql => {
                let inner = escape_quote(value, '\'');
                let q = "'";
                proof {
                    reveal_strlit("'");
                }
                let a = concat_str(q, inner.as_str());
                let r = concat_str(a.as_str(), q);
                assert(r@ =~= seq!['\''] + double_quotes(value@, '\'') + seq!['\'']);
                SqlDefault::Custom(r)
            },
            _ => SqlDefault::Value(value.to_owned()),
        }
    }

    /// Whether an error is the database's report that a table does not exist.
    pub fn is_table_not_found_error(&self, err: &DucklakeError) -> (r: bool)
        ensures
            r == match err {
                DucklakeError::Database { code: Some(c), message } => match *self {
                    Dialect::Postgres => c@ == "42P01"@,
                    Dialect::MySql => c@ == "42S02"@,
                    Dialect::Sqlite => c@ == "1"@ && contains_seq(message@, "no such table"@),
                },
                _ => false,
            },
    {
        match err {
            DucklakeError::Database { code: Some(c), message } => match self {
                Dialect::Postgres => str_eq(c.as_str(), "42P01"),
                Dialect::MySql => str_eq(c.as_str(), "42S02"),
                Dialect::Sqlite => str_eq(c.as_str(), "1") && contains_str(message.as_str(), "no such table"),
            },
            _ => false,
        }
    }

    /// Whether an error is the database's report that a table already exists.
    pub fn is_table_already_exists_error(&self, err: &DucklakeError) -> (r: bool)
        ensures
            r == match err {
                DucklakeError::Database { code: Some(c), message } => match *self {
                    Dialect::Postgres => c@ == "42P07"@,
                    Dialect::MySql => c@ == "42S01"@,
                    Dialect::Sqlite => c@ == "1"@ && contains_seq(message@, "already exists"@),
                },
                _ => false,
            },
    {
        match err {
            DucklakeError::Database { code: Some(c), message } => match self {
                Dialect::Postgres => str_eq(c.as_str(), "42P07"),
                Dialect::MySql => str_eq(c.as_str(), "42S01"),
                Dialect::Sqlite => str_eq(c.as_str(), "1") && contains_str(message.as_str(), "already exists"),
            },
            _ => false,
        }
    }
}

/// `s` with each `q` doubled.
pub open spec fn double_quotes(s: Seq<char>, q: char) -> Seq<char>
    decreases s.len(),
{
    if s.len() == 0 {
        Seq::empty()
    } else if s.last() == q {
        double_quotes(s.drop_last(), q) + seq![q, q]
    } else {
        double_quotes(s.drop_last(), q).push(s.last())
    }
}

/// `s` with each `q` doubled.
pub fn escape_quote(s: &str, q: char) -> (r: String)
    ensures
        r@ == double_quotes(s@, q),
{
    let n = s.unicode_len();
    let mut out = String::new();
    let mut i: usize = 0;
    while i < n
        invariant
            n == s@.len(),
            i <= n,
            out@ == double_quotes(s@.take(i as int), q),
        decreases n - i,
    {
        let c = s.get_char(i);
        assert(s@.take(i + 1).drop_last() =~= s@.take(i as int));
        assert(s@.take(i + 1).last() == c);
        let piece = s.substring_char(i, i + 1);
        assert(piece@ =~= seq![c]);
        if c == q {
            out.append(piece);
            out.append(piece);
            assert(out@ =~= double_quotes(s@.take(i + 1), q));
        } else {
            out.append(piece);
            assert(out@ =~= double_quotes(s@.take(i + 1), q));
        }
        i = i + 1;
    }
    assert(s@.take(n as int) =~= s@);
    out
}

} // verus!
