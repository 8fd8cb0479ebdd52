use vstd::prelude::*;

use crate::dtype::{DataType, TableName};

verus! {

/// Error type returned by all fallible DuckLake operations.
#[derive(Debug)]
pub enum DucklakeError {
    UnsupportedVersion(String),
    /// The catalog's version (first) is older than the current one (second), and migrations
    /// were not allowed.
    OutdatedVersion(String, String),
    AlreadyExists { entity: &'static str, name: String },
    NotFound { entity: &'static str, name: String },
    EntityNotFound { id: i64 },
    ColumnNotFound { id: i64 },
    InvalidChanges(String),
    InvalidDataType(String),
    InvalidPartitions(String),
    InvalidPartitionTransform(String),
    InvalidSchemaName { name: String, reason: &'static str },
    InvalidTableName { name: String, reason: &'static str },
    InvalidColumnName { name: String, reason: &'static str },
    InvalidCast { old: DataType, new: DataType },
    DuplicateColumnName(String),
    CatalogNotInitialized,
    CatalogAlreadyInitialized,
    UnknownVersion,
    TransactionConflict(String),
    /// A connection URL whose scheme names no supported catalog database.
    UnsupportedDatabase(String),
    RetriesExceeded,
    /// An error on the way to or from the catalog database: one the database reported (with
    /// its error code), or another one (without a code).
    Database { code: Option<String>, message: String },
    /// An error reported by Arrow, by its message.
    Arrow(String),
    /// Data whose columns do not fit the table they are read into.
    SchemaError(String),
    Parsing(String),
    InvalidVersion(String),
    InvalidPath { path: String, reason: &'static str },
    ReadOnlyMetadata(String),
    InvalidDefault { column: String, reason: &'static str },
    InvalidNullabilityChange { column: String },
    InvalidNullValue { column: String },
    UnsupportedUrlScheme(String),
    UnsupportedArrowDataType(String),
    /// An error reported while reading or writing Parquet, by its message.
    Parquet(String),
    /// An error reported by an object store, by its message.
    ObjectStore(String),
    ImmutableDucklake,
}

/// Result type returned by all fallible DuckLake operations.
pub type DucklakeResult<T> = Result<T, DucklakeError>;

impl DucklakeError {
    pub fn schema_already_exists(name: &str) -> (e: Self)
        ensures
            e matches DucklakeError::AlreadyExists { entity, name: n } && entity@ == "schema"@ && n@ == name@,
    {
        DucklakeError::AlreadyExists { entity: "schema", name: name.to_owned() }
    }

    pub fn schema_not_found(name: &str) -> (e: Self)
        ensures
            e matches DucklakeError::NotFound { entity, name: n } && entity@ == "schema"@ && n@ == name@,
    {
        DucklakeError::NotFound { entity: "schema", name: name.to_owned() }
    }

    pub fn table_already_exists(name: &TableName) -> (e: Self)
        ensures
            e matches DucklakeError::AlreadyExists { entity, name: n } && entity@ == "table"@ && n@ == name.text(),
    {
        DucklakeError::AlreadyExists { entity: "table", name: name.to_text() }
    }

    pub fn table_not_found(name: &TableName) -> (e: Self)
        ensures
            e matches DucklakeError::NotFound { entity, name: n } && entity@ == "table"@ && n@ == name.text(),
    {
        DucklakeError::NotFound { entity: "table", name: name.to_text() }
    }

    pub fn column_already_exists(name: &str) -> (e: Self)
        ensures
            e matches DucklakeError::AlreadyExists { entity, name: n } && entity@ == "column"@ && n@ == name@,
    {
        DucklakeError::AlreadyExists { entity: "column", name: name.to_owned() }
    }

    pub fn column_not_found(name: &str) -> (e: Self)
        ensures
            e matches DucklakeError::NotFound { entity, name: n } && entity@ == "column"@ && n@ == name@,
    {
        DucklakeError::NotFound { entity: "column", name: name.to_owned() }
    }
}

} // verus!
