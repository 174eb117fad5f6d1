//! Row mutations: DELETE, UPDATE and MERGE.
pub mod assign;
pub mod batch;
pub mod dedup;
pub mod merge;
pub mod sql_text;
pub mod statement;
pub mod update;
