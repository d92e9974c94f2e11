//! A graph specification in a table of a database, one row for each scope.

use vstd::prelude::*;

verus! {

broadcast use vstd::string::group_string_axioms;

/// The table unless told otherwise.
pub const DEFAULT_GRAPH_SPECIFICATION_TABLE: &'static str = "linguagraph_graph_specifications";

/// One row of a table of specifications.
#[derive(Debug, PartialEq)]
pub struct PostgresGraphSpecificationStorage {
    pub table: String,
    pub scope: String,
}

/// The statement that makes the table.
pub open spec fn create_statement(table: Seq<char>) -> Seq<char> {
    "CREATE TABLE IF NOT EXISTS "@ + table
        + " ( scope TEXT PRIMARY KEY, specification JSONB NOT NULL, updated_at TIMESTAMPTZ NOT NULL DEFAULT NOW() )"@
}

/// The statement that reads a row.
pub open spec fn select_statement(table: Seq<char>) -> Seq<char> {
    "SELECT specification FROM "@ + table + " WHERE scope = $1"@
}

/// The statement that writes a row.
pub open spec fn upsert_statement(table: Seq<char>) -> Seq<char> {
    "INSERT INTO "@ + table
        + " (scope, specification, updated_at) VALUES ($1, $2, NOW()) ON CONFLICT (scope) DO UPDATE SET specification = EXCLUDED.specification, updated_at = NOW()"@
}

impl PostgresGraphSpecificationStorage {
    /// The row of a scope in the usual table.
    pub fn new(scope: &str) -> (r: Self)
        ensures
            r.table@ == DEFAULT_GRAPH_SPECIFICATION_TABLE@,
            r.scope@ == scope@,
    {
        PostgresGraphSpecificationStorage {
            table: DEFAULT_GRAPH_SPECIFICATION_TABLE.to_owned(),
            scope: scope.to_owned(),
        }
    }

    /// The row in another table.
    pub fn with_table(self, table: &str) -> (r: Self)
        ensures
            r.table@ == table@,
            r.scope@ == self.scope@,
    {
        PostgresGraphSpecificationStorage { table: table.to_owned(), scope: self.scope }
    }

    /// The table.
    pub fn table(&self) -> (r: &str)
        ensures
            r@ == self.table@,
    {
        self.table.as_str()
    }

    /// The scope.
    pub fn scope(&self) -> (r: &str)
        ensures
            r@ == self.scope@,
    {
        self.scope.as_str()
    }

    /// The statement that makes the table.
    pub fn create_sql(&self) -> (r: String)
        ensures
            r@ == create_statement(self.table@),
    {
        let mut s = "CREATE TABLE IF NOT EXISTS ".to_owned();
        s.append(self.table.as_str());
        s.append(
            " ( scope TEXT PRIMARY KEY, specification JSONB NOT NULL, updated_at TIMESTAMPTZ NOT NULL DEFAULT NOW() )",
        );
        s
    }

    /// The statement that reads the row.
    pub fn select_sql(&self) -> (r: String)
        ensures
            r@ == select_statement(self.table@),
    {
        let mut s = "SELECT specification FROM ".to_owned();
        s.append(self.table.as_str());
        s.append(" WHERE scope = $1");
        s
    }

    /// The statement that writes the row.
    pub fn upsert_sql(&self) -> (r: String)
        ensures
            r@ == upsert_statement(self.table@),
    {
        let mut s = "INSERT INTO ".to_owned();
        s.append(self.table.as_str());
        s.append(
            " (scope, specification, updated_at) VALUES ($1, $2, NOW()) ON CONFLICT (scope) DO UPDATE SET specification = EXCLUDED.specification, updated_at = NOW()",
        );
        s
    }
}

} // verus!
