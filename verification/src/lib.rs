//! The verified core of the IcefallDB query engine.
//!
//! The engine answers SQL over IcefallDB tables through DataFusion. This crate
//! holds what it decides: which row groups a scan reads and how, where a row
//! is, what a DELETE, UPDATE or MERGE does to which rows, and how a provider
//! follows the commits of its table. Storage, the Parquet reader and the
//! execution of plans are left to the caller.
pub mod catalog;
pub mod coalesce;
pub mod encryption;
pub mod error;
pub mod execution;
pub mod expr;
pub mod index_selector;
pub mod key_table;
pub mod metadata_cache;
pub mod mutate;
pub mod parquet_exec;
pub mod plan;
pub mod predicate;
pub mod provider;
pub mod scalar;
pub mod sort;
pub mod sql;
pub mod storage;
pub mod text;

pub use catalog::IcefallDBCatalog;
pub use error::{QueryError, Result};
pub use execution::lookup_join::LookupJoinExec;
pub use execution::streaming_group_by::{AggType, StreamingGroupByExec};
pub use mutate::merge::require_unique_key_index;
pub use provider::snapshot::IcefallDBTableProvider;
pub use provider::ProviderConfig;
pub use sql::mutation_target_table;
pub use storage::MatchLoc;
