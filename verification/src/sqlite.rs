//! Column types of inlined data in a SQLite catalog database.
use vstd::prelude::*;

use crate::dialect::{bigint, is_bigint_custom, SqlColumnType};
use crate::dtype::DataType;

verus! {

/// The SQLite column type that inlined data of a type is stored in.
pub open spec fn sqlite_type_spec(t: DataType) -> Option<SqlColumnType> {
    match t {
        DataType::Boolean | DataType::Int8 | DataType::Int16 | DataType::Int32 | DataType::Int64 | DataType::UInt8
        | DataType::UInt16 | DataType::UInt32 => None,
        DataType::Blob => Some(SqlColumnType::Blob),
        _ => Some(SqlColumnType::String),
    }
}

/// The SQLite column type for inlined data of the given type.
pub fn column_type_for_data_type(data_type: &DataType) -> (r: SqlColumnType)
    ensures
        match sqlite_type_spec(*data_type) {
            Some(t) => r == t,
            None => is_bigint_custom(r),
        },
{
    match data_type {
        DataType::Boolean | DataType::Int8 | DataType::Int16 | DataType::Int32 | DataType::Int64 | DataType::UInt8
        | DataType::UInt16 | DataType::UInt32 => bigint(),
        DataType::Blob => SqlColumnType::Blob,
        _ => SqlColumnType::String,
    }
}

} // verus!
