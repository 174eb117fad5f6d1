//! Reading the snapshot of a table.
use vstd::prelude::*;
use vstd::string::*;

use crate::error::{CoreError, QueryError, Result};
use crate::plan::{path_in_table, table_path, PlanView, ScanPlan, TableSchema};

verus! {

/// The catalog of a table: what to make of what was read.
#[derive(Debug, PartialEq, Eq)]
pub struct IcefallDBCatalog {
    pub table: String,
}

impl IcefallDBCatalog {
    pub fn new(table: &str) -> (r: IcefallDBCatalog)
        ensures
            r.table@ == table@,
    {
        IcefallDBCatalog { table: table.to_owned() }
    }

    /// The name of the table.
    pub fn table(&self) -> (r: &str)
        ensures
            r@ == self.table@,
    {
        self.table.as_str()
    }

    /// A part of a snapshot that every committed table has: its schema or its
    /// manifest.
    pub fn require_committed<A>(&self, part: Option<A>) -> (r: Result<A>)
        ensures
            match part {
                Some(a) => r == Ok::<A, QueryError>(a),
                None => r matches Err(QueryError::Core(CoreError::EmptyTable(t))) && t@
                    == self.table@,
            },
    {
        match part {
            Some(a) => Ok(a),
            None => Err(QueryError::Core(CoreError::EmptyTable(self.table.clone()))),
        }
    }

    /// The schema of the table, which is written before anything is committed.
    pub fn require_schema<A>(&self, schema: Option<A>) -> (r: Result<A>)
        ensures
            match schema {
                Some(s) => r == Ok::<A, QueryError>(s),
                None => r matches Err(QueryError::Core(CoreError::SchemaNotFound { path })) && path@
                    == table_path(self.table@, "_schema.json"@),
            },
    {
        match schema {
            Some(s) => Ok(s),
            None => Err(
                QueryError::Core(
                    CoreError::SchemaNotFound {
                        path: path_in_table(self.table.as_str(), "_schema.json"),
                    },
                ),
            ),
        }
    }

    /// Whether loading a snapshot failed only because nothing was committed
    /// yet. The table then is an empty one, with the schema that it has.
    pub fn is_empty_table(error: &QueryError) -> (r: bool)
        ensures
            r == (*error matches QueryError::Core(CoreError::EmptyTable(_))),
    {
        matches!(error, QueryError::Core(CoreError::EmptyTable(_)))
    }

    /// The plan of a table to which nothing was committed.
    pub fn empty_plan<S>(&self, schema: Option<TableSchema>) -> (r: Result<ScanPlan<S>>)
        ensures
            match schema {
                Some(s) => r matches Ok(plan) && plan@ == (PlanView::<S> {
                    table: self.table@,
                    schema: s,
                    row_groups: seq![],
                }),
                None => r matches Err(QueryError::Core(CoreError::SchemaNotFound { path })) && path@
                    == table_path(self.table@, "_schema.json"@),
            },
    {
        match self.require_schema(schema) {
            Ok(s) => Ok(ScanPlan::empty(self.table.as_str(), &s)),
            Err(e) => Err(e),
        }
    }
}

} // verus!
