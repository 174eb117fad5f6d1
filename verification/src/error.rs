//! What can go wrong.
use vstd::prelude::*;

use crate::scalar::ScalarValue;

verus! {

/// Errors of the storage layer that the engine raises or tells apart.
#[derive(Debug, PartialEq, Eq)]
pub enum CoreError {
    /// The table has no snapshot yet.
    EmptyTable(String),
    /// No schema file under that path.
    SchemaNotFound { path: String },
    /// A column cannot take what was to be written to it.
    SchemaMismatch { column: String, expected: String, path: String },
    /// Two live rows share a key of a unique index.
    UniqueKeyViolation { table: String, index: String, key: ScalarValue },
    /// The key provider knows no key of that name.
    EncryptionKeyNotFound(String),
    /// Keys or encrypted metadata could not be used.
    Encryption(String),
    /// Any other failure, by its message.
    Failure(String),
}

/// Errors of the query engine.
#[derive(Debug, PartialEq, Eq)]
pub enum QueryError {
    Core(CoreError),
    DataFusion(String),
    Arrow(String),
    Parquet(String),
    UnsupportedStatType(String),
    StatsUnavailable,
    /// Two rows of a MERGE source share a key: the slot that holds the key and
    /// the row that repeats it.
    DuplicateMergeKey { key: ScalarValue, slot: usize, row: usize },
    /// A MERGE key of a type that the target cannot be probed for.
    UnsupportedMergeKey(ScalarValue),
    Other(String),
}

pub type Result<T> = core::result::Result<T, QueryError>;

impl QueryError {
    /// Whether this is `Other` with the message `text`.
    pub open spec fn says(self, text: Seq<char>) -> bool {
        self matches QueryError::Other(message) && message@ == text
    }
}

/// The error that carries a message.
pub fn other(message: &str) -> (r: QueryError)
    ensures
        r.says(message@),
{
    QueryError::Other(message.to_owned())
}

} // verus!
