//! Verified core of a DuckLake catalog client: catalog arenas and column trees, metadata
//! resolution, table statistics, data paths, physical value encodings and query batching.

mod arena;

pub use arena::{Arena, ArenaIdx};
mod value;
pub use value::{Order, Value, ValueModel};
mod stats;
pub use stats::{ColumnStats, DucklakeTableColumnStats, DucklakeTableStats, TableStats, TableStatsCache};
mod error;
pub use error::{DucklakeError, DucklakeResult};
mod text;
mod dtype;
pub use dtype::{literal_parses_as, parse_primitive_dtype, Column, ColumnDefault, DataType, TableName, Tag, TimestampPrecision};
mod fields;
mod rows;
pub use rows::{group_rows, KeyedRow, DucklakeColumn, DucklakeColumnTag, DucklakePartitionColumn, DucklakeMetadata, DucklakePartitionInfo, DucklakeSchema, DucklakeTable, DucklakeTag};
mod sort;
mod flatten;
mod columns;
mod load;
mod path;
mod tags;
mod catalog;
mod metadata;
mod snapshot;
mod dialect;
pub mod postgres;
pub mod sqlite;
mod connection;
mod evolve;
mod batch;
mod copy;
mod conversion;
pub use batch::{batch_queries, insert_chunks};
pub use copy::{copy_statement, encode_row, quote_identifier, supports, SqlValue};
pub use conversion::{
    DateTimeValue, FromPhysical, FromPhysicalWithContext, Interval, IntoLogical, IntoLogicalWithContext, IntoPhysical,
    IntoPhysicalWithContext, MonthDayNano, TimeOfDay, TimeUnit, TimeWithTimezone,
};
pub use connection::{ServerCatalogKey, ServerEndpoint};
pub use evolve::{allows_primitive_promotion, check_cast, check_nullability, column_fill, match_fields, ColumnFill, Defaults, FieldMatch};
pub use dialect::{Dialect, PostgresDialect, SqlColumnType, SqlDefault, SqliteDialect};
pub use snapshot::{micros_since_epoch, DucklakeSnapshot, SnapshotHead, SnapshotInfo, SnapshotMetadata, UtcDateTime, UuidText};
pub use metadata::{check_writable_key, Metadata, TableSettings};
pub use catalog::{
    default_empty_string, Catalog, CatalogPartitionColumn, CatalogRows, CatalogSchema, CatalogTable, CatalogTablePartition, ColumnRef,
    Partition, PartitionColumn, PartitionTransform, SchemaRef, TableInfo, TableRef, TryIntoRef,
};
pub use tags::{remove_tag, upsert_tag};
pub use path::{DucklakePath, Path};
pub use columns::{CatalogColumn, CatalogColumns, CatalogDataType, CatalogState};
