//! Column types of inlined data in a PostgreSQL catalog database.
use vstd::prelude::*;

use crate::dialect::SqlColumnType;
use crate::dtype::DataType;

verus! {

/// The PostgreSQL column type that inlined data of a type is stored in.
pub open spec fn postgres_type_spec(t: DataType) -> SqlColumnType {
    match t {
        DataType::Boolean => SqlColumnType::Boolean,
        DataType::Int8 | DataType::Int16 => SqlColumnType::SmallInteger,
        DataType::Int32 | DataType::UInt8 | DataType::UInt16 => SqlColumnType::Integer,
        DataType::Int64 | DataType::UInt32 => SqlColumnType::BigInteger,
        DataType::Float32 => SqlColumnType::Float,
        DataType::Float64 => SqlColumnType::Double,
        DataType::Decimal { precision, scale } => SqlColumnType::Decimal(precision as u32, scale as u32),
        DataType::Time => SqlColumnType::Time,
        DataType::Interval => SqlColumnType::Interval,
        DataType::Varchar | DataType::Json | DataType::Blob => SqlColumnType::Blob,
        DataType::Uuid => SqlColumnType::Uuid,
        _ => SqlColumnType::String,
    }
}

/// The PostgreSQL column type for inlined data of the given type.
pub fn column_type_for_data_type(data_type: &DataType) -> (r: SqlColumnType)
    ensures
        data_type is TimeTz ==> (r matches SqlColumnType::Custom(s) && s@ == "TIMETZ"@),
        !(data_type is TimeTz) ==> r == postgres_type_spec(*data_type),
{
    proof {
        reveal_strlit("TIMETZ");
    }
    match data_type {
        DataType::Boolean => SqlColumnType::Boolean,
        DataType::Int8 | DataType::Int16 => SqlColumnType::SmallInteger,
        DataType::Int32 | DataType::UInt8 | DataType::UInt16 => SqlColumnType::Integer,
        DataType::Int64 | DataType::UInt32 => SqlColumnType::BigInteger,
        DataType::Float32 => SqlColumnType::Float,
        DataType::Float64 => SqlColumnType::Double,
        DataType::Decimal { precision, scale } => SqlColumnType::Decimal(*precision as u32, *scale as u32),
        DataType::Time => SqlColumnType::Time,
        DataType::TimeTz => SqlColumnType::Custom("TIMETZ".to_owned()),
        DataType::Interval => SqlColumnType::Interval,
        DataType::Varchar | DataType::Json | DataType::Blob => SqlColumnType::Blob,
        DataType::Uuid => SqlColumnType::Uuid,
        _ => SqlColumnType::String,
    }
}

} // verus!
