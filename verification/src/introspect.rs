//! Database introspection for comparing against models

use vstd::prelude::*;

use crate::diff::tables_view;
use crate::schema::{empty_table, strs_view, TableModel, TableSchema};
use crate::text::{chars_of, ends_with, starts_with};

verus! {

/// The schemas read for a list of tables, in order, or the first error.
pub open spec fn read_schemas(
    tables: Seq<Seq<char>>,
    schema: spec_fn(Seq<char>) -> Result<TableModel, Seq<char>>,
    n: int,
) -> Result<Seq<TableModel>, Seq<char>>
    decreases n,
{
    if n <= 0 {
        Ok(Seq::empty())
    } else {
        match read_schemas(tables, schema, n - 1) {
            Err(e) => Err(e),
            Ok(ts) => match schema(tables[n - 1]) {
                Ok(t) => Ok(ts.push(t)),
                Err(e) => Err(e),
            },
        }
    }
}

/// What `get_all_schemas` gives for what the database reports: the error of
/// listing the tables, or the schema of each listed table in order, or the
/// first error in reading one.
pub open spec fn all_schemas(
    tables: Result<Seq<Seq<char>>, Seq<char>>,
    schema: spec_fn(Seq<char>) -> Result<TableModel, Seq<char>>,
) -> Result<Seq<TableModel>, Seq<char>> {
    match tables {
        Err(e) => Err(e),
        Ok(ts) => read_schemas(ts, schema, ts.len() as int),
    }
}

/// Database introspector trait
pub trait DatabaseIntrospector {
    /// The table names the database reports, or the error of listing them.
    spec fn tables_of(&self) -> Result<Seq<Seq<char>>, Seq<char>>;

    /// The schema the database reports for a table, or the error of reading it.
    spec fn schema_of(&self, table: Seq<char>) -> Result<TableModel, Seq<char>>;

    /// Get all table names in the database
    fn get_tables(&self) -> (res: Result<Vec<String>, String>)
        ensures
            match (res, self.tables_of()) {
                (Ok(v), Ok(m)) => strs_view(v@) == m,
                (Err(e), Err(m)) => e@ == m,
                _ => false,
            },
    ;

    /// Get schema for a specific table
    fn get_table_schema(&self, table: &str) -> (res: Result<TableSchema, String>)
        ensures
            match (res, self.schema_of(table@)) {
                (Ok(t), Ok(m)) => t@ == m,
                (Err(e), Err(m)) => e@ == m,
                _ => false,
            },
    ;

    /// Get all table schemas
    fn get_all_schemas(&self) -> (res: Result<Vec<TableSchema>, String>)
        ensures
            match (res, all_schemas(self.tables_of(), |t: Seq<char>| self.schema_of(t))) {
                (Ok(v), Ok(m)) => tables_view(v@) == m,
                (Err(e), Err(m)) => e@ == m,
                _ => false,
            },
    {
        let tables = match self.get_tables() {
            Ok(t) => t,
            Err(e) => return Err(e),
        };
        let ghost names = strs_view(tables@);
        let ghost schema = |t: Seq<char>| self.schema_of(t);
        let mut schemas: Vec<TableSchema> = Vec::new();
        let mut i: usize = 0;
        proof {
            assert(tables_view(schemas@) =~= Seq::<TableModel>::empty());
        }
        while i < tables.len()
            invariant
                i <= tables@.len(),
                schemas@.len() == i,
                names == strs_view(tables@),
                self.tables_of() == Ok::<Seq<Seq<char>>, Seq<char>>(names),
                schema == (|t: Seq<char>| self.schema_of(t)),
                read_schemas(names, schema, i as int) == Ok::<Seq<TableModel>, Seq<char>>(tables_view(schemas@)),
            decreases tables@.len() - i,
        {
            let r = self.get_table_schema(tables[i].as_str());
            proof {
                assert(names[i as int] == tables@[i as int]@);
                assert(schema(names[i as int]) == self.schema_of(tables@[i as int]@));
            }
            match r {
                Ok(schema_i) => {
                    let ghost s0 = schemas@;
                    schemas.push(schema_i);
                    proof {
                        assert(tables_view(schemas@) =~= tables_view(s0).push(schemas@[i as int]@));
                    }
                },
                Err(e) => {
                    proof {
                        assert(names[i as int] == tables@[i as int]@);
                        lemma_read_schemas_err(names, schema, i as int + 1, tables@.len() as int);
                    }
                    return Err(e);
                },
            }
            i = i + 1;
        }
        proof {
            assert(names.len() == tables@.len());
        }
        Ok(schemas)
    }
}

/// Once reading the schemas fails, it fails with the same error however
/// many more tables there are.
proof fn lemma_read_schemas_err(
    tables: Seq<Seq<char>>,
    schema: spec_fn(Seq<char>) -> Result<TableModel, Seq<char>>,
    n: int,
    m: int,
)
    requires
        1 <= n <= m,
        read_schemas(tables, schema, n) is Err,
    ensures
        read_schemas(tables, schema, m) == read_schemas(tables, schema, n),
    decreases m - n,
{
    if m > n {
        lemma_read_schemas_err(tables, schema, n, m - 1);
    }
}

/// PostgreSQL introspector
pub struct PostgresIntrospector {}

impl PostgresIntrospector {
    /// Create a new PostgreSQL introspector
    pub fn new(_connection_string: &str) -> (res: Result<Self, String>)
        ensures
            res is Ok,
    {
        Ok(PostgresIntrospector {})
    }
}

impl DatabaseIntrospector for PostgresIntrospector {
    open spec fn tables_of(&self) -> Result<Seq<Seq<char>>, Seq<char>> {
        Ok(Seq::empty())
    }

    open spec fn schema_of(&self, table: Seq<char>) -> Result<TableModel, Seq<char>> {
        Ok(empty_table(table))
    }

    fn get_tables(&self) -> (res: Result<Vec<String>, String>)
        ensures
            res matches Ok(v) && v@.len() == 0,
    {
        Ok(Vec::new())
    }

    fn get_table_schema(&self, table: &str) -> (res: Result<TableSchema, String>)
        ensures
            res matches Ok(t) && t@ == empty_table(table@),
    {
        Ok(TableSchema::new(table))
    }
}

/// SQLite introspector
pub struct SqliteIntrospector {}

impl SqliteIntrospector {
    /// Create a new SQLite introspector
    pub fn new(_path: &str) -> (res: Result<Self, String>)
        ensures
            res is Ok,
    {
        Ok(SqliteIntrospector {})
    }
}

impl DatabaseIntrospector for SqliteIntrospector {
    open spec fn tables_of(&self) -> Result<Seq<Seq<char>>, Seq<char>> {
        Ok(Seq::empty())
    }

    open spec fn schema_of(&self, table: Seq<char>) -> Result<TableModel, Seq<char>> {
        Ok(empty_table(table))
    }

    fn get_tables(&self) -> (res: Result<Vec<String>, String>)
        ensures
            res matches Ok(v) && v@.len() == 0,
    {
        Ok(Vec::new())
    }

    fn get_table_schema(&self, table: &str) -> (res: Result<TableSchema, String>)
        ensures
            res matches Ok(t) && t@ == empty_table(table@),
    {
        Ok(TableSchema::new(table))
    }
}

/// Which introspector serves a database URL.
#[derive(Debug, Clone, Copy, PartialEq, Eq, Structural)]
pub enum IntrospectorKind {
    Postgres,
    Sqlite,
}

/// PostgreSQL for `postgres://` and `postgresql://` URLs, SQLite for
/// `sqlite://` URLs and `.db` files; other URLs are not supported.
pub open spec fn introspector_kind(url: Seq<char>) -> Option<IntrospectorKind> {
    if crate::text::has_prefix(url, "postgres://"@) || crate::text::has_prefix(url, "postgresql://"@) {
        Some(IntrospectorKind::Postgres)
    } else if crate::text::has_prefix(url, "sqlite://"@) || crate::text::has_suffix(url, ".db"@) {
        Some(IntrospectorKind::Sqlite)
    } else {
        None
    }
}

/// The introspector kind for a database URL, or the error for an unsupported one.
pub fn introspector_for(database_url: &str) -> (res: Result<IntrospectorKind, String>)
    ensures
        match (res, introspector_kind(database_url@)) {
            (Ok(k), Some(m)) => k == m,
            (Err(e), None) => e@ == "Unsupported database URL: "@ + database_url@,
            _ => false,
        },
{
    let u = chars_of(database_url);
    if starts_with(&u, &chars_of("postgres://")) || starts_with(&u, &chars_of("postgresql://")) {
        Ok(IntrospectorKind::Postgres)
    } else if starts_with(&u, &chars_of("sqlite://")) || ends_with(&u, &chars_of(".db")) {
        Ok(IntrospectorKind::Sqlite)
    } else {
        let mut e = String::new();
        crate::text::push_str(&mut e, "Unsupported database URL: ");
        crate::text::push_str(&mut e, database_url);
        Err(e)
    }
}

} // verus!
