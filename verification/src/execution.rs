//! Operators of the query engine.
pub mod lookup_join;
pub mod streaming_group_by;
