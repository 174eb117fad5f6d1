//! A table as the query engine sees it.
pub mod indexes;
pub mod locate;
pub mod route;
pub mod rows;
pub mod snapshot;

use vstd::prelude::*;

verus! {

/// How a provider reads its table.
#[derive(Debug, Clone, Copy, PartialEq, Eq, Structural)]
pub struct ProviderConfig {
    /// Rows per batch.
    pub batch_size: usize,
    /// How many partitions a scan is split into.
    pub target_partitions: usize,
    /// Byte ranges that are at most this far apart are read at once.
    pub io_coalesce_window: u64,
    /// Concurrent range reads per row group.
    pub io_concurrency: usize,
    /// How many columns a query has to refer to before the native Parquet
    /// reader is used for a local table; 0 never uses it, 1 always.
    pub native_parquet_threshold: usize,
    /// How many decoded Parquet footers are kept; 0 keeps none.
    pub parquet_metadata_cache_capacity: usize,
    /// Up to how many rows a table is held in memory.
    pub tiny_table_cache_threshold_rows: usize,
    /// Up to how many bytes a table is held in memory.
    pub tiny_table_cache_threshold_bytes: usize,
    /// Whether mutations are committed through the log.
    pub wal_mode: bool,
}

impl Default for ProviderConfig {
    fn default() -> (r: ProviderConfig)
        ensures
            r == (ProviderConfig {
                batch_size: 8192,
                target_partitions: 16,
                io_coalesce_window: 1_048_576,
                io_concurrency: 4,
                native_parquet_threshold: 1,
                parquet_metadata_cache_capacity: 256,
                tiny_table_cache_threshold_rows: 65_536,
                tiny_table_cache_threshold_bytes: 8_388_608,
                wal_mode: true,
            }),
    {
        ProviderConfig {
            batch_size: 8192,
            target_partitions: 16,
            io_coalesce_window: 1_048_576,
            io_concurrency: 4,
            native_parquet_threshold: 1,
            parquet_metadata_cache_capacity: 256,
            tiny_table_cache_threshold_rows: 65_536,
            tiny_table_cache_threshold_bytes: 8_388_608,
            wal_mode: true,
        }
    }
}

} // verus!
