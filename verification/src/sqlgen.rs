//! SQL generation from schema operations (PostgreSQL dialect).
//!
//! Each generator has a specification function that gives the exact text it
//! produces; `generate_sql` orders the operations so that tables are created
//! before the tables that reference them, then joins their statements.

use vstd::prelude::*;

use crate::diff::{
    fks_view, keys_view, last_pos, last_pos_exec, lemma_last_pos, ops_view, table_names, ChangesModel,
    ColumnChanges, OpModel, SchemaOperation,
};
use crate::schema::{
    ColumnModel, ColumnSchema, ColumnType, ForeignKeyModel, ForeignKeySchema, IndexModel,
    IndexSchema, OnDeleteAction, TableModel, TableSchema, strs_view,
};
use crate::text::{chars_eq, chars_of, copy_chars, join, push_str};

verus! {

// ---------------------------------------------------------------------------
// Text of the individual pieces
// ---------------------------------------------------------------------------

/// A double-quoted SQL identifier.
pub open spec fn quoted(s: Seq<char>) -> Seq<char> {
    "\""@ + s + "\""@
}

/// Identifiers, each quoted, separated by `", "`.
pub open spec fn quoted_list(names: Seq<Seq<char>>) -> Seq<char> {
    join(names.map_values(|n: Seq<char>| quoted(n)), ", "@)
}

/// The SQL type name of a column type.
pub open spec fn column_type_sql(t: ColumnType) -> Seq<char> {
    match t {
        ColumnType::Boolean => "BOOLEAN"@,
        ColumnType::SmallInteger => "SMALLINT"@,
        ColumnType::Integer => "INTEGER"@,
        ColumnType::BigInteger => "BIGINT"@,
        ColumnType::Float => "REAL"@,
        ColumnType::Double => "DOUBLE PRECISION"@,
        ColumnType::Decimal { .. } => "DECIMAL"@,
        ColumnType::String(Some(_)) => "VARCHAR"@,
        ColumnType::String(None) => "VARCHAR(255)"@,
        ColumnType::Text => "TEXT"@,
        ColumnType::Binary => "BYTEA"@,
        ColumnType::Date => "DATE"@,
        ColumnType::Time => "TIME"@,
        ColumnType::DateTime => "TIMESTAMP"@,
        ColumnType::TimestampTz => "TIMESTAMPTZ"@,
        ColumnType::Uuid => "UUID"@,
        ColumnType::Json => "JSON"@,
        ColumnType::JsonB => "JSONB"@,
    }
}

/// The length and first two characters of the SQL type name each kind of
/// column is meant to get in PostgreSQL.
spec fn sql_key_of(t: ColumnType) -> (nat, char, char) {
    match t {
        ColumnType::Boolean => (7, 'B', 'O'),
        ColumnType::SmallInteger => (8, 'S', 'M'),
        ColumnType::Integer => (7, 'I', 'N'),
        ColumnType::BigInteger => (6, 'B', 'I'),
        ColumnType::Float => (4, 'R', 'E'),
        ColumnType::Double => (16, 'D', 'O'),
        ColumnType::Decimal { .. } => (7, 'D', 'E'),
        ColumnType::String(Some(_)) => (7, 'V', 'A'),
        ColumnType::String(None) => (12, 'V', 'A'),
        ColumnType::Text => (4, 'T', 'E'),
        ColumnType::Binary => (5, 'B', 'Y'),
        ColumnType::Date => (4, 'D', 'A'),
        ColumnType::Time => (4, 'T', 'I'),
        ColumnType::DateTime => (9, 'T', 'I'),
        ColumnType::TimestampTz => (11, 'T', 'I'),
        ColumnType::Uuid => (4, 'U', 'U'),
        ColumnType::Json => (4, 'J', 'S'),
        ColumnType::JsonB => (5, 'J', 'S'),
    }
}

proof fn lemma_sql_key(t: ColumnType)
    ensures
        column_type_sql(t).len() >= 2,
        (column_type_sql(t).len(), column_type_sql(t)[0], column_type_sql(t)[1]) == sql_key_of(t),
{
    match t {
        ColumnType::Boolean => {
            reveal_strlit("BOOLEAN");
        },
        ColumnType::SmallInteger => {
            reveal_strlit("SMALLINT");
        },
        ColumnType::Integer => {
            reveal_strlit("INTEGER");
        },
        ColumnType::BigInteger => {
            reveal_strlit("BIGINT");
        },
        ColumnType::Float => {
            reveal_strlit("REAL");
        },
        ColumnType::Double => {
            reveal_strlit("DOUBLE PRECISION");
        },
        ColumnType::Decimal { .. } => {
            reveal_strlit("DECIMAL");
        },
        ColumnType::String(Some(_)) => {
            reveal_strlit("VARCHAR");
        },
        ColumnType::String(None) => {
            reveal_strlit("VARCHAR(255)");
        },
        ColumnType::Text => {
            reveal_strlit("TEXT");
        },
        ColumnType::Binary => {
            reveal_strlit("BYTEA");
        },
        ColumnType::Date => {
            reveal_strlit("DATE");
        },
        ColumnType::Time => {
            reveal_strlit("TIME");
        },
        ColumnType::DateTime => {
            reveal_strlit("TIMESTAMP");
        },
        ColumnType::TimestampTz => {
            reveal_strlit("TIMESTAMPTZ");
        },
        ColumnType::Uuid => {
            reveal_strlit("UUID");
        },
        ColumnType::Json => {
            reveal_strlit("JSON");
        },
        ColumnType::JsonB => {
            reveal_strlit("JSONB");
        },
    }
}

/// Two column types of the same kind: equal, or both decimals, or both
/// strings with a length limit.
pub open spec fn same_sql_kind(a: ColumnType, b: ColumnType) -> bool {
    a == b || (a is Decimal && b is Decimal) || (a matches ColumnType::String(Some(_)) && b matches ColumnType::String(
        Some(_),
    ))
}

/// Each kind of column gets an SQL type of its own: two column types share
/// an SQL type name only when they are of the same kind, and the name
/// `BOOLEAN` is exactly the type of boolean columns.
pub proof fn law_sql_types_tell_kinds_apart(a: ColumnType, b: ColumnType)
    ensures
        column_type_sql(a) == column_type_sql(b) ==> same_sql_kind(a, b),
        column_type_sql(a) == "BOOLEAN"@ <==> a == ColumnType::Boolean,
{
    lemma_sql_key(a);
    lemma_sql_key(b);
    lemma_sql_key(ColumnType::Boolean);
    reveal_strlit("BOOLEAN");
}

/// Convert ColumnType to SQL type
pub fn column_type_to_sql(col_type: &ColumnType) -> (res: &'static str)
    ensures
        res@ == column_type_sql(*col_type),
{
    match col_type {
        ColumnType::Boolean => "BOOLEAN",
        ColumnType::SmallInteger => "SMALLINT",
        ColumnType::Integer => "INTEGER",
        ColumnType::BigInteger => "BIGINT",
        ColumnType::Float => "REAL",
        ColumnType::Double => "DOUBLE PRECISION",
        ColumnType::Decimal { .. } => "DECIMAL",
        ColumnType::String(Some(_)) => "VARCHAR",
        ColumnType::String(None) => "VARCHAR(255)",
        ColumnType::Text => "TEXT",
        ColumnType::Binary => "BYTEA",
        ColumnType::Date => "DATE",
        ColumnType::Time => "TIME",
        ColumnType::DateTime => "TIMESTAMP",
        ColumnType::TimestampTz => "TIMESTAMPTZ",
        ColumnType::Uuid => "UUID",
        ColumnType::Json => "JSON",
        ColumnType::JsonB => "JSONB",
    }
}

fn push_quoted(s: &mut String, name: &str)
    ensures
        final(s)@ == old(s)@ + quoted(name@),
{
    push_str(s, "\"");
    push_str(s, name);
    push_str(s, "\"");
    proof {
        assert(final(s)@ =~= old(s)@ + quoted(name@));
    }
}

fn push_quoted_list(s: &mut String, names: &Vec<String>)
    ensures
        final(s)@ == old(s)@ + quoted_list(strs_view(names@)),
{
    let ghost s0 = s@;
    let ghost qs = strs_view(names@).map_values(|n: Seq<char>| quoted(n));
    let mut i: usize = 0;
    while i < names.len()
        invariant
            i <= names@.len(),
            qs == strs_view(names@).map_values(|n: Seq<char>| quoted(n)),
            s@ == s0 + join(qs.take(i as int), ", "@),
        decreases names@.len() - i,
    {
        proof {
            assert(qs.take(i + 1).drop_last() =~= qs.take(i as int));
        }
        if i > 0 {
            push_str(s, ", ");
        }
        push_quoted(s, names[i].as_str());
        i = i + 1;
        proof {
            assert(s@ =~= s0 + join(qs.take(i as int), ", "@));
        }
    }
    proof {
        assert(qs.take(names@.len() as int) =~= qs);
    }
}

/// The definition of a column inside CREATE TABLE or ADD COLUMN.
pub open spec fn column_def(c: ColumnModel) -> Seq<char> {
    quoted(c.name) + " "@ + column_type_sql(c.column_type) + (if !c.nullable && !c.primary_key {
        " NOT NULL"@
    } else {
        Seq::empty()
    }) + (if c.unique {
        " UNIQUE"@
    } else {
        Seq::empty()
    }) + match c.default {
        Some(d) => " DEFAULT "@ + d,
        None => Seq::empty(),
    }
}

/// Generate column definition
pub fn generate_column_definition(col: &ColumnSchema) -> (res: String)
    ensures
        res@ == column_def(col@),
{
    let mut def = String::new();
    push_quoted(&mut def, col.name.as_str());
    push_str(&mut def, " ");
    push_str(&mut def, column_type_to_sql(&col.column_type));
    if !col.nullable && !col.primary_key {
        push_str(&mut def, " NOT NULL");
    }
    if col.unique {
        push_str(&mut def, " UNIQUE");
    }
    match &col.default {
        Some(d) => {
            push_str(&mut def, " DEFAULT ");
            push_str(&mut def, d.as_str());
        },
        None => {},
    }
    proof {
        assert(def@ =~= column_def(col@));
    }
    def
}

/// The CREATE INDEX statement for an index of `table`.
pub open spec fn index_sql(table: Seq<char>, idx: IndexModel) -> Seq<char> {
    "CREATE "@ + (if idx.unique {
        "UNIQUE "@
    } else {
        Seq::empty()
    }) + "INDEX "@ + quoted(idx.name) + " ON "@ + quoted(table) + " ("@ + quoted_list(idx.columns)
        + ");"@
}

/// Generate CREATE INDEX SQL
pub fn generate_create_index(table: &str, index: &IndexSchema) -> (res: String)
    ensures
        res@ == index_sql(table@, index@),
{
    let mut s = String::new();
    push_str(&mut s, "CREATE ");
    if index.unique {
        push_str(&mut s, "UNIQUE ");
    }
    push_str(&mut s, "INDEX ");
    push_quoted(&mut s, index.name.as_str());
    push_str(&mut s, " ON ");
    push_quoted(&mut s, table);
    push_str(&mut s, " (");
    push_quoted_list(&mut s, &index.columns);
    push_str(&mut s, ");");
    proof {
        assert(s@ =~= index_sql(table@, index@));
    }
    s
}

/// The ON DELETE clause of a foreign key, empty for NO ACTION.
pub open spec fn on_delete_sql(a: OnDeleteAction) -> Seq<char> {
    match a {
        OnDeleteAction::Cascade => " ON DELETE CASCADE"@,
        OnDeleteAction::SetNull => " ON DELETE SET NULL"@,
        OnDeleteAction::SetDefault => " ON DELETE SET DEFAULT"@,
        OnDeleteAction::Restrict => " ON DELETE RESTRICT"@,
        OnDeleteAction::NoAction => ""@,
    }
}

fn on_delete_clause(a: &OnDeleteAction) -> (res: &'static str)
    ensures
        res@ == on_delete_sql(*a),
{
    match a {
        OnDeleteAction::Cascade => " ON DELETE CASCADE",
        OnDeleteAction::SetNull => " ON DELETE SET NULL",
        OnDeleteAction::SetDefault => " ON DELETE SET DEFAULT",
        OnDeleteAction::Restrict => " ON DELETE RESTRICT",
        OnDeleteAction::NoAction => "",
    }
}

/// The CONSTRAINT clause of a foreign key.
pub open spec fn fk_constraint_sql(fk: ForeignKeyModel) -> Seq<char> {
    "CONSTRAINT \"fk_"@ + fk.column + "_"@ + fk.references_table + "\" FOREIGN KEY ("@ + quoted(
        fk.column,
    ) + ") REFERENCES "@ + quoted(fk.references_table) + "("@ + quoted(fk.references_column)
        + ")"@ + on_delete_sql(fk.on_delete)
}

/// Generate foreign key constraint
pub fn generate_foreign_key_constraint(fk: &ForeignKeySchema) -> (res: String)
    ensures
        res@ == fk_constraint_sql(fk@),
{
    let mut s = String::new();
    push_str(&mut s, "CONSTRAINT \"fk_");
    push_str(&mut s, fk.column.as_str());
    push_str(&mut s, "_");
    push_str(&mut s, fk.references_table.as_str());
    push_str(&mut s, "\" FOREIGN KEY (");
    push_quoted(&mut s, fk.column.as_str());
    push_str(&mut s, ") REFERENCES ");
    push_quoted(&mut s, fk.references_table.as_str());
    push_str(&mut s, "(");
    push_quoted(&mut s, fk.references_column.as_str());
    push_str(&mut s, ")");
    push_str(&mut s, on_delete_clause(&fk.on_delete));
    proof {
        assert(s@ =~= fk_constraint_sql(fk@));
    }
    s
}

/// The ALTER TABLE statement adding a foreign key to `table`.
pub open spec fn add_fk_sql(table: Seq<char>, fk: ForeignKeyModel) -> Seq<char> {
    "ALTER TABLE "@ + quoted(table) + " ADD "@ + fk_constraint_sql(fk) + ";"@
}

/// Generate ADD FOREIGN KEY SQL
pub fn generate_add_foreign_key(table: &str, fk: &ForeignKeySchema) -> (res: String)
    ensures
        res@ == add_fk_sql(table@, fk@),
{
    let mut s = String::new();
    push_str(&mut s, "ALTER TABLE ");
    push_quoted(&mut s, table);
    push_str(&mut s, " ADD ");
    let c = generate_foreign_key_constraint(fk);
    push_str(&mut s, c.as_str());
    push_str(&mut s, ";");
    proof {
        assert(s@ =~= add_fk_sql(table@, fk@));
    }
    s
}

/// The prefix `ALTER TABLE "t" ALTER COLUMN "c" ` shared by column changes.
pub open spec fn alter_prefix(table: Seq<char>, column: Seq<char>) -> Seq<char> {
    "ALTER TABLE "@ + quoted(table) + " ALTER COLUMN "@ + quoted(column) + " "@
}

/// The statements for a column change, in the order type, nullability, default.
pub open spec fn alter_statements(table: Seq<char>, column: Seq<char>, ch: ChangesModel) -> Seq<
    Seq<char>,
> {
    let p = alter_prefix(table, column);
    let s1: Seq<Seq<char>> = match ch.column_type {
        Some(t) => seq![p + "TYPE "@ + column_type_sql(t) + ";"@],
        None => Seq::empty(),
    };
    let s2: Seq<Seq<char>> = match ch.nullable {
        Some(true) => seq![p + "DROP NOT NULL;"@],
        Some(false) => seq![p + "SET NOT NULL;"@],
        None => Seq::empty(),
    };
    let s3: Seq<Seq<char>> = match ch.default {
        Some(Some(d)) => seq![p + "SET DEFAULT "@ + d + ";"@],
        Some(None) => seq![p + "DROP DEFAULT;"@],
        None => Seq::empty(),
    };
    s1 + s2 + s3
}

/// The SQL for a column change: its statements one per line, or a comment
/// when nothing changes.
pub open spec fn alter_sql(table: Seq<char>, column: Seq<char>, ch: ChangesModel) -> Seq<char> {
    let stmts = alter_statements(table, column, ch);
    if stmts.len() == 0 {
        "-- No changes for column "@ + quoted(column) + " in table "@ + quoted(table)
    } else {
        join(stmts, "\n"@)
    }
}

fn push_alter_prefix(s: &mut String, table: &str, column: &str)
    ensures
        final(s)@ == old(s)@ + alter_prefix(table@, column@),
{
    push_str(s, "ALTER TABLE ");
    push_quoted(s, table);
    push_str(s, " ALTER COLUMN ");
    push_quoted(s, column);
    push_str(s, " ");
    proof {
        assert(final(s)@ =~= old(s)@ + alter_prefix(table@, column@));
    }
}

/// Generate ALTER COLUMN SQL for column modifications
pub fn generate_alter_column(table: &str, column: &str, changes: &ColumnChanges) -> (res: String)
    ensures
        res@ == alter_sql(table@, column@, changes@),
{
    let ghost p = alter_prefix(table@, column@);
    let ghost ch = changes@;
    // `out` holds the statements so far joined by newlines; `count` how many
    let mut out = String::new();
    let mut count: usize = 0;
    let ghost mut stmts: Seq<Seq<char>> = Seq::empty();
    match &changes.column_type {
        Some(t) => {
            let mut st = String::new();
            push_alter_prefix(&mut st, table, column);
            push_str(&mut st, "TYPE ");
            push_str(&mut st, column_type_to_sql(t));
            push_str(&mut st, ";");
            push_str(&mut out, st.as_str());
            count = count + 1;
            proof {
                stmts = stmts.push(st@);
                assert(st@ =~= p + "TYPE "@ + column_type_sql(*t) + ";"@);
                assert(out@ =~= join(stmts, "\n"@));
            }
        },
        None => {},
    }
    proof {
        assert(stmts =~= match ch.column_type {
            Some(t) => seq![p + "TYPE "@ + column_type_sql(t) + ";"@],
            None => Seq::<Seq<char>>::empty(),
        });
    }
    let ghost stmts1 = stmts;
    match changes.nullable {
        Some(nullable) => {
            let mut st = String::new();
            push_alter_prefix(&mut st, table, column);
            if nullable {
                push_str(&mut st, "DROP NOT NULL;");
            } else {
                push_str(&mut st, "SET NOT NULL;");
            }
            if count > 0 {
                push_str(&mut out, "\n");
            }
            push_str(&mut out, st.as_str());
            count = count + 1;
            proof {
                let ghost s0 = stmts;
                stmts = stmts.push(st@);
                assert(stmts.drop_last() =~= s0);
                assert(out@ =~= join(stmts, "\n"@));
            }
        },
        None => {},
    }
    let ghost stmts2 = stmts;
    match &changes.default {
        Some(d) => {
            let mut st = String::new();
            push_alter_prefix(&mut st, table, column);
            match d {
                Some(v) => {
                    push_str(&mut st, "SET DEFAULT ");
                    push_str(&mut st, v.as_str());
                    push_str(&mut st, ";");
                },
                None => {
                    push_str(&mut st, "DROP DEFAULT;");
                },
            }
            if count > 0 {
                push_str(&mut out, "\n");
            }
            push_str(&mut out, st.as_str());
            count = count + 1;
            proof {
                let ghost s0 = stmts;
                stmts = stmts.push(st@);
                assert(stmts.drop_last() =~= s0);
                assert(out@ =~= join(stmts, "\n"@));
            }
        },
        None => {},
    }
    proof {
        assert(stmts =~= alter_statements(table@, column@, ch));
    }
    if count == 0 {
        let mut s = String::new();
        push_str(&mut s, "-- No changes for column ");
        push_quoted(&mut s, column);
        push_str(&mut s, " in table ");
        push_quoted(&mut s, table);
        proof {
            assert(s@ =~= alter_sql(table@, column@, ch));
        }
        s
    } else {
        out
    }
}

// ---------------------------------------------------------------------------
// CREATE TABLE
// ---------------------------------------------------------------------------

/// The indented definitions of the columns that are not marked dropped.
pub open spec fn column_lines(cols: Seq<ColumnModel>) -> Seq<Seq<char>>
    decreases cols.len(),
{
    if cols.len() == 0 {
        Seq::empty()
    } else {
        let rest = column_lines(cols.drop_last());
        if cols.last().dropped {
            rest
        } else {
            rest.push("    "@ + column_def(cols.last()))
        }
    }
}

/// The PRIMARY KEY clause, empty when there is no primary key column.
pub open spec fn pk_clause(pk: Seq<Seq<char>>) -> Seq<char> {
    if pk.len() == 0 {
        Seq::empty()
    } else {
        ",\n    PRIMARY KEY ("@ + quoted_list(pk) + ")"@
    }
}

/// One constraint line per foreign key.
pub open spec fn fk_clauses(fks: Seq<ForeignKeyModel>) -> Seq<char>
    decreases fks.len(),
{
    if fks.len() == 0 {
        Seq::empty()
    } else {
        fk_clauses(fks.drop_last()) + ",\n    "@ + fk_constraint_sql(fks.last())
    }
}

/// One CREATE INDEX statement per index, each after a blank line.
pub open spec fn index_stmts(table: Seq<char>, idxs: Seq<IndexModel>) -> Seq<char>
    decreases idxs.len(),
{
    if idxs.len() == 0 {
        Seq::empty()
    } else {
        index_stmts(table, idxs.drop_last()) + "\n\n"@ + index_sql(table, idxs.last())
    }
}

/// The CREATE TABLE statement of a table, followed by its index statements.
pub open spec fn create_table_sql(t: TableModel) -> Seq<char> {
    "CREATE TABLE "@ + quoted(t.name) + " (\n"@ + join(column_lines(t.columns), ",\n"@) + pk_clause(
        t.primary_key,
    ) + fk_clauses(t.foreign_keys) + "\n);"@ + index_stmts(t.name, t.indexes)
}

/// Generate CREATE TABLE SQL
pub fn generate_create_table(schema: &TableSchema) -> (res: String)
    ensures
        res@ == create_table_sql(schema@),
{
    let ghost t = schema@;
    let mut sql = String::new();
    push_str(&mut sql, "CREATE TABLE ");
    push_quoted(&mut sql, schema.name.as_str());
    push_str(&mut sql, " (\n");
    let ghost s0 = sql@;
    // column definitions, joined by ",\n"
    let mut count: usize = 0;
    let mut i: usize = 0;
    while i < schema.columns.len()
        invariant
            t == schema@,
            i <= schema.columns@.len(),
            count <= i,
            count == column_lines(t.columns.take(i as int)).len(),
            sql@ == s0 + join(column_lines(t.columns.take(i as int)), ",\n"@),
        decreases schema.columns@.len() - i,
    {
        proof {
            assert(t.columns.take(i + 1).drop_last() =~= t.columns.take(i as int));
            assert(t.columns.take(i + 1).last() == schema.columns@[i as int]@);
        }
        let col = &schema.columns[i];
        if !col.dropped {
            let ghost lines0 = column_lines(t.columns.take(i as int));
            if count > 0 {
                push_str(&mut sql, ",\n");
            }
            push_str(&mut sql, "    ");
            let d = generate_column_definition(col);
            push_str(&mut sql, d.as_str());
            count = count + 1;
            proof {
                let lines1 = column_lines(t.columns.take(i + 1));
                assert(lines1 == lines0.push("    "@ + column_def(col@)));
                assert(lines1.drop_last() =~= lines0);
                assert(sql@ =~= s0 + join(lines1, ",\n"@));
            }
        }
        i = i + 1;
    }
    proof {
        assert(t.columns.take(schema.columns@.len() as int) =~= t.columns);
    }
    // primary key
    if schema.primary_key.len() > 0 {
        push_str(&mut sql, ",\n    PRIMARY KEY (");
        push_quoted_list(&mut sql, &schema.primary_key);
        push_str(&mut sql, ")");
    }
    proof {
        assert(sql@ =~= "CREATE TABLE "@ + quoted(t.name) + " (\n"@ + join(column_lines(t.columns), ",\n"@)
            + pk_clause(t.primary_key));
    }
    // foreign keys
    let ghost s1 = sql@;
    let mut k: usize = 0;
    while k < schema.foreign_keys.len()
        invariant
            t == schema@,
            k <= schema.foreign_keys@.len(),
            sql@ == s1 + fk_clauses(t.foreign_keys.take(k as int)),
        decreases schema.foreign_keys@.len() - k,
    {
        proof {
            assert(t.foreign_keys.take(k + 1).drop_last() =~= t.foreign_keys.take(k as int));
            assert(t.foreign_keys.take(k + 1).last() == schema.foreign_keys@[k as int]@);
        }
        push_str(&mut sql, ",\n    ");
        let c = generate_foreign_key_constraint(&schema.foreign_keys[k]);
        push_str(&mut sql, c.as_str());
        k = k + 1;
        proof {
            assert(sql@ =~= s1 + fk_clauses(t.foreign_keys.take(k as int)));
        }
    }
    proof {
        assert(t.foreign_keys.take(schema.foreign_keys@.len() as int) =~= t.foreign_keys);
    }
    push_str(&mut sql, "\n);");
    // indexes
    let ghost s2 = sql@;
    let mut j: usize = 0;
    while j < schema.indexes.len()
        invariant
            t == schema@,
            j <= schema.indexes@.len(),
            sql@ == s2 + index_stmts(t.name, t.indexes.take(j as int)),
        decreases schema.indexes@.len() - j,
    {
        proof {
            assert(t.indexes.take(j + 1).drop_last() =~= t.indexes.take(j as int));
            assert(t.indexes.take(j + 1).last() == schema.indexes@[j as int]@);
        }
        push_str(&mut sql, "\n\n");
        let x = generate_create_index(schema.name.as_str(), &schema.indexes[j]);
        push_str(&mut sql, x.as_str());
        j = j + 1;
        proof {
            assert(sql@ =~= s2 + index_stmts(t.name, t.indexes.take(j as int)));
        }
    }
    proof {
        assert(t.indexes.take(schema.indexes@.len() as int) =~= t.indexes);
        assert(sql@ =~= create_table_sql(t));
    }
    sql
}

// ---------------------------------------------------------------------------
// One operation
// ---------------------------------------------------------------------------

/// The SQL of a single schema operation.
pub open spec fn operation_sql(op: OpModel) -> Seq<char> {
    match op {
        OpModel::CreateTable(t) => create_table_sql(t),
        OpModel::DropTable(name) => "DROP TABLE IF EXISTS "@ + quoted(name) + ";"@,
        OpModel::RenameTable { from, to } => "ALTER TABLE "@ + quoted(from) + " RENAME TO "@ + quoted(
            to,
        ) + ";"@,
        OpModel::AddColumn { table, column } => "ALTER TABLE "@ + quoted(table) + " ADD COLUMN "@
            + column_def(column) + ";"@,
        OpModel::DropColumn { table, column } => "ALTER TABLE "@ + quoted(table) + " DROP COLUMN "@
            + quoted(column) + ";"@,
        OpModel::RenameColumn { table, from, to } => "ALTER TABLE "@ + quoted(table)
            + " RENAME COLUMN "@ + quoted(from) + " TO "@ + quoted(to) + ";"@,
        OpModel::AlterColumn { table, column, changes } => alter_sql(table, column, changes),
        OpModel::CreateIndex { table, index } => index_sql(table, index),
        OpModel::DropIndex { table: _, name } => "DROP INDEX IF EXISTS "@ + quoted(name) + ";"@,
        OpModel::AddForeignKey { table, foreign_key } => add_fk_sql(table, foreign_key),
        OpModel::DropForeignKey { table, name } => "ALTER TABLE "@ + quoted(table)
            + " DROP CONSTRAINT "@ + quoted(name) + ";"@,
    }
}

/// Generate SQL for a single schema operation
pub fn generate_operation_sql(op: &SchemaOperation) -> (res: String)
    ensures
        res@ == operation_sql(op@),
{
    match op {
        SchemaOperation::CreateTable(schema) => generate_create_table(schema),
        SchemaOperation::DropTable(name) => {
            let mut s = String::new();
            push_str(&mut s, "DROP TABLE IF EXISTS ");
            push_quoted(&mut s, name.as_str());
            push_str(&mut s, ";");
            proof {
                assert(s@ =~= operation_sql(op@));
            }
            s
        },
        SchemaOperation::RenameTable { from, to } => {
            let mut s = String::new();
            push_str(&mut s, "ALTER TABLE ");
            push_quoted(&mut s, from.as_str());
            push_str(&mut s, " RENAME TO ");
            push_quoted(&mut s, to.as_str());
            push_str(&mut s, ";");
            proof {
                assert(s@ =~= operation_sql(op@));
            }
            s
        },
        SchemaOperation::AddColumn { table, column } => {
            let mut s = String::new();
            push_str(&mut s, "ALTER TABLE ");
            push_quoted(&mut s, table.as_str());
            push_str(&mut s, " ADD COLUMN ");
            let d = generate_column_definition(column);
            push_str(&mut s, d.as_str());
            push_str(&mut s, ";");
            proof {
                assert(s@ =~= operation_sql(op@));
            }
            s
        },
        SchemaOperation::DropColumn { table, column } => {
            let mut s = String::new();
            push_str(&mut s, "ALTER TABLE ");
            push_quoted(&mut s, table.as_str());
            push_str(&mut s, " DROP COLUMN ");
            push_quoted(&mut s, column.as_str());
            push_str(&mut s, ";");
            proof {
                assert(s@ =~= operation_sql(op@));
            }
            s
        },
        SchemaOperation::RenameColumn { table, from, to } => {
            let mut s = String::new();
            push_str(&mut s, "ALTER TABLE ");
            push_quoted(&mut s, table.as_str());
            push_str(&mut s, " RENAME COLUMN ");
            push_quoted(&mut s, from.as_str());
            push_str(&mut s, " TO ");
            push_quoted(&mut s, to.as_str());
            push_str(&mut s, ";");
            proof {
                assert(s@ =~= operation_sql(op@));
            }
            s
        },
        SchemaOperation::AlterColumn { table, column, changes } => generate_alter_column(
            table.as_str(),
            column.as_str(),
            changes,
        ),
        SchemaOperation::CreateIndex { table, index } => generate_create_index(table.as_str(), index),
        SchemaOperation::DropIndex { table: _, name } => {
            let mut s = String::new();
            push_str(&mut s, "DROP INDEX IF EXISTS ");
            push_quoted(&mut s, name.as_str());
            push_str(&mut s, ";");
            proof {
                assert(s@ =~= operation_sql(op@));
            }
            s
        },
        SchemaOperation::AddForeignKey { table, foreign_key } => generate_add_foreign_key(
            table.as_str(),
            foreign_key,
        ),
        SchemaOperation::DropForeignKey { table, name } => {
            let mut s = String::new();
            push_str(&mut s, "ALTER TABLE ");
            push_quoted(&mut s, table.as_str());
            push_str(&mut s, " DROP CONSTRAINT ");
            push_quoted(&mut s, name.as_str());
            push_str(&mut s, ";");
            proof {
                assert(s@ =~= operation_sql(op@));
            }
            s
        },
    }
}

// ---------------------------------------------------------------------------
// Ordering CREATE TABLE operations by their foreign keys
// ---------------------------------------------------------------------------

/// The tables created by the operations, in order.
pub open spec fn created_tables(ops: Seq<OpModel>) -> Seq<TableModel>
    decreases ops.len(),
{
    if ops.len() == 0 {
        Seq::empty()
    } else {
        let rest = created_tables(ops.drop_last());
        match ops.last() {
            OpModel::CreateTable(t) => rest.push(t),
            _ => rest,
        }
    }
}

/// The operations other than CREATE TABLE, in order.
pub open spec fn other_ops(ops: Seq<OpModel>) -> Seq<OpModel>
    decreases ops.len(),
{
    if ops.len() == 0 {
        Seq::empty()
    } else {
        let rest = other_ops(ops.drop_last());
        match ops.last() {
            OpModel::CreateTable(_) => rest,
            _ => rest.push(ops.last()),
        }
    }
}

/// The tables referenced by foreign keys that are among `names`, in order.
pub open spec fn fk_targets(fks: Seq<ForeignKeyModel>, names: Seq<Seq<char>>) -> Seq<Seq<char>>
    decreases fks.len(),
{
    if fks.len() == 0 {
        Seq::empty()
    } else {
        let rest = fk_targets(fks.drop_last(), names);
        if names.contains(fks.last().references_table) {
            rest.push(fks.last().references_table)
        } else {
            rest
        }
    }
}

/// The created tables that the table called `name` depends on. When several
/// created tables share a name, the last of them is the one that counts.
pub open spec fn deps_of(ts: Seq<TableModel>, name: Seq<char>) -> Seq<Seq<char>> {
    let i = last_pos(table_names(ts), name);
    if i < 0 {
        Seq::empty()
    } else {
        fk_targets(ts[i].foreign_keys, table_names(ts))
    }
}

/// Every table that `name` depends on is among `done`.
pub open spec fn deps_done(ts: Seq<TableModel>, done: Seq<Seq<char>>, name: Seq<char>) -> bool {
    forall|k: int| 0 <= k < deps_of(ts, name).len() ==> done.contains(#[trigger] deps_of(ts, name)[k])
}

/// The first `n` tables with no dependencies, by name.
pub open spec fn roots(ts: Seq<TableModel>, n: int) -> Seq<Seq<char>>
    decreases n,
{
    if n <= 0 {
        Seq::empty()
    } else {
        let rest = roots(ts, n - 1);
        if deps_of(ts, ts[n - 1].name).len() == 0 {
            rest.push(ts[n - 1].name)
        } else {
            rest
        }
    }
}

/// Among the first `n` tables, the names not done whose dependencies are done.
pub open spec fn newly_ready(ts: Seq<TableModel>, done: Seq<Seq<char>>, n: int) -> Seq<Seq<char>>
    decreases n,
{
    if n <= 0 {
        Seq::empty()
    } else {
        let rest = newly_ready(ts, done, n - 1);
        let nm = ts[n - 1].name;
        if !done.contains(nm) && deps_done(ts, done, nm) {
            rest.push(nm)
        } else {
            rest
        }
    }
}

/// How many of `names` are not yet done.
pub open spec fn pending_count(names: Seq<Seq<char>>, done: Seq<Seq<char>>) -> nat
    decreases names.len(),
{
    if names.len() == 0 {
        0
    } else {
        pending_count(names.drop_last(), done) + if done.contains(names.last()) {
            0nat
        } else {
            1nat
        }
    }
}

pub proof fn lemma_pending_count_mono(names: Seq<Seq<char>>, done: Seq<Seq<char>>, x: Seq<char>)
    ensures
        pending_count(names, done.push(x)) <= pending_count(names, done),
        names.contains(x) && !done.contains(x) ==> pending_count(names, done.push(x))
            < pending_count(names, done),
    decreases names.len(),
{
    if names.len() > 0 {
        lemma_pending_count_mono(names.drop_last(), done, x);
        assert(done.push(x).contains(names.last()) <== done.contains(names.last())) by {
            if done.contains(names.last()) {
                let j = choose|j: int| 0 <= j < done.len() && done[j] == names.last();
                assert(done.push(x)[j] == names.last());
            }
        }
        if names.contains(x) && !done.contains(x) {
            if names.last() != x {
                let j = choose|j: int| 0 <= j < names.len() && names[j] == x;
                assert(names.drop_last()[j] == x);
            } else {
                assert(done.push(x)[done.len() as int] == x);
            }
        }
    }
}

/// The state of the ordering loop: a stack of names to visit, the names put in
/// order so far, and the names already placed.
pub struct SortState {
    pub stack: Seq<Seq<char>>,
    pub ordered: Seq<Seq<char>>,
    pub done: Seq<Seq<char>>,
}

/// Runs the ordering loop to its end: pop a name; if it is new, place it and
/// push every table whose dependencies are now all placed.
pub open spec fn sort_run(ts: Seq<TableModel>, st: SortState) -> SortState
    decreases pending_count(table_names(ts), st.done), st.stack.len(),
{
    if st.stack.len() == 0 {
        st
    } else {
        let x = st.stack.last();
        let rest = st.stack.drop_last();
        if st.done.contains(x) || !table_names(ts).contains(x) {
            sort_run(ts, SortState { stack: rest, ..st })
        } else {
            let d2 = st.done.push(x);
            proof {
                lemma_pending_count_mono(table_names(ts), st.done, x);
            }
            sort_run(
                ts,
                SortState { stack: rest + newly_ready(ts, d2, ts.len() as int), ordered: st.ordered.push(x), done: d2 },
            )
        }
    }
}

/// The tables among the first `n` not placed by the loop, by name.
pub open spec fn leftovers(ts: Seq<TableModel>, done: Seq<Seq<char>>, n: int) -> Seq<Seq<char>>
    decreases n,
{
    if n <= 0 {
        Seq::empty()
    } else {
        let rest = leftovers(ts, done, n - 1);
        if done.contains(ts[n - 1].name) {
            rest
        } else {
            rest.push(ts[n - 1].name)
        }
    }
}

/// The names of the created tables in creation order: those the loop placed,
/// then the rest (tables in a cycle) in their original order.
pub open spec fn creation_order(ts: Seq<TableModel>) -> Seq<Seq<char>> {
    let fin = sort_run(
        ts,
        SortState { stack: roots(ts, ts.len() as int), ordered: Seq::empty(), done: Seq::empty() },
    );
    fin.ordered + leftovers(ts, fin.done, ts.len() as int)
}

/// The index of the first key equal to `name` at or after `k`, or -1.
pub open spec fn first_from(keys: Seq<Seq<char>>, name: Seq<char>, k: int) -> int
    decreases keys.len() - k,
{
    if k < 0 || k >= keys.len() {
        -1
    } else if keys[k] == name {
        k
    } else {
        first_from(keys, name, k + 1)
    }
}

proof fn lemma_first_from(keys: Seq<Seq<char>>, name: Seq<char>, k: int)
    requires
        0 <= k,
    ensures
        -1 <= first_from(keys, name, k) < keys.len(),
        first_from(keys, name, k) >= 0 ==> k <= first_from(keys, name, k) && keys[first_from(keys, name, k)] == name,
        (exists|j: int| k <= j < keys.len() && keys[j] == name) ==> first_from(keys, name, k) >= 0,
    decreases keys.len() - k,
{
    if k < keys.len() && keys[k] != name {
        lemma_first_from(keys, name, k + 1);
        if exists|j: int| k <= j < keys.len() && keys[j] == name {
            let j = choose|j: int| k <= j < keys.len() && keys[j] == name;
            assert(j != k);
        }
    }
}

/// The operations in the order they are turned into SQL: the CREATE TABLE
/// operations in creation order (each name taking the first CREATE TABLE of
/// that name), then the other operations in their original order.
pub open spec fn dependency_order(ops: Seq<OpModel>) -> Seq<OpModel> {
    let ts = created_tables(ops);
    creation_order(ts).map_values(
        |n: Seq<char>| OpModel::CreateTable(ts[first_from(table_names(ts), n, 0)]),
    ) + other_ops(ops)
}

fn contains_key(v: &Vec<Vec<char>>, k: &[char]) -> (res: bool)
    ensures
        res == keys_view(v@).contains(k@),
{
    proof {
        lemma_last_pos(keys_view(v@), k@);
    }
    last_pos_exec(v, k).is_some()
}

fn first_index(v: &Vec<Vec<char>>, k: &[char]) -> (res: Option<usize>)
    ensures
        match res {
            Some(j) => j as int == first_from(keys_view(v@), k@, 0) && j < v@.len(),
            None => first_from(keys_view(v@), k@, 0) == -1,
        },
{
    let ghost ks = keys_view(v@);
    proof {
        lemma_first_from(ks, k@, 0);
    }
    let mut j: usize = 0;
    while j < v.len()
        invariant
            ks == keys_view(v@),
            j <= v@.len(),
            first_from(ks, k@, 0) == first_from(ks, k@, j as int),
        decreases v@.len() - j,
    {
        if chars_eq(&v[j], k) {
            return Some(j);
        }
        j = j + 1;
    }
    None
}

fn fk_targets_exec(fks: &Vec<ForeignKeySchema>, names: &Vec<Vec<char>>) -> (res: Vec<Vec<char>>)
    ensures
        keys_view(res@) == fk_targets(fks_view(fks@), keys_view(names@)),
{
    let ghost fv = fks_view(fks@);
    let mut res: Vec<Vec<char>> = Vec::new();
    let mut i: usize = 0;
    while i < fks.len()
        invariant
            fv == fks_view(fks@),
            i <= fks@.len(),
            keys_view(res@) == fk_targets(fv.take(i as int), keys_view(names@)),
        decreases fks@.len() - i,
    {
        proof {
            assert(fv.take(i + 1).drop_last() =~= fv.take(i as int));
            assert(fv.take(i + 1).last() == fks@[i as int]@);
        }
        let target = chars_of(fks[i].references_table.as_str());
        if contains_key(names, &target) {
            let ghost r0 = res@;
            res.push(target);
            proof {
                assert(keys_view(res@) =~= keys_view(r0).push(fks@[i as int]@.references_table));
            }
        }
        i = i + 1;
    }
    proof {
        assert(fv.take(fks@.len() as int) =~= fv);
    }
    res
}

fn all_done(deps: &Vec<Vec<char>>, done: &Vec<Vec<char>>) -> (res: bool)
    ensures
        res == forall|k: int| 0 <= k < deps@.len() ==> keys_view(done@).contains(#[trigger] keys_view(deps@)[k]),
{
    let mut k: usize = 0;
    while k < deps.len()
        invariant
            k <= deps@.len(),
            forall|m: int| 0 <= m < k ==> keys_view(done@).contains(#[trigger] keys_view(deps@)[m]),
        decreases deps@.len() - k,
    {
        if !contains_key(done, &deps[k]) {
            proof {
                assert(keys_view(deps@)[k as int] == deps@[k as int]@);
            }
            return false;
        }
        k = k + 1;
    }
    true
}

/// Order operations so that tables are created before tables that reference
/// them; the result lists positions in `operations`.
pub fn order_operations_by_dependencies(operations: &[SchemaOperation]) -> (res: Vec<usize>)
    ensures
        res@.len() == dependency_order(ops_view(operations@)).len(),
        forall|k: int|
            0 <= k < res@.len() ==> res@[k] < operations@.len() && operations@[#[trigger] res@[k] as int]@
                == dependency_order(ops_view(operations@))[k],
        table_names(created_tables(ops_view(operations@))).no_duplicates() ==> res@.no_duplicates()
            && res@.len() == operations@.len(),
{
    let ghost ops = ops_view(operations@);
    // Separate CREATE TABLE from other operations
    let mut cpos: Vec<usize> = Vec::new();
    let mut others: Vec<usize> = Vec::new();
    let mut names: Vec<Vec<char>> = Vec::new();
    let mut i: usize = 0;
    while i < operations.len()
        invariant
            ops == ops_view(operations@),
            i <= operations@.len(),
            cpos@.len() == created_tables(ops.take(i as int)).len(),
            names@.len() == cpos@.len(),
            keys_view(names@) == table_names(created_tables(ops.take(i as int))),
            forall|j: int|
                0 <= j < cpos@.len() ==> #[trigger] cpos@[j] < operations@.len() && operations@[cpos@[j] as int]@
                    == OpModel::CreateTable(created_tables(ops.take(i as int))[j]),
            others@.len() == other_ops(ops.take(i as int)).len(),
            forall|j: int|
                0 <= j < others@.len() ==> #[trigger] others@[j] < operations@.len() && operations@[others@[j] as int]@
                    == other_ops(ops.take(i as int))[j],
            forall|a: int, b: int| 0 <= a < b < cpos@.len() ==> #[trigger] cpos@[a] < #[trigger] cpos@[b],
            forall|j: int| 0 <= j < cpos@.len() ==> #[trigger] cpos@[j] < i,
            forall|a: int, b: int| 0 <= a < b < others@.len() ==> #[trigger] others@[a] < #[trigger] others@[b],
            forall|j: int| 0 <= j < others@.len() ==> #[trigger] others@[j] < i,
            forall|j: int| 0 <= j < others@.len() ==> !(operations@[#[trigger] others@[j] as int]@ is CreateTable),
        decreases operations@.len() - i,
    {
        proof {
            assert(ops.take(i + 1).drop_last() =~= ops.take(i as int));
            assert(ops.take(i + 1).last() == operations@[i as int]@);
        }
        let ghost n0 = names@;
        match &operations[i] {
            SchemaOperation::CreateTable(t) => {
                cpos.push(i);
                names.push(chars_of(t.name.as_str()));
                proof {
                    assert(keys_view(names@) =~= keys_view(n0).push(t@.name));
                    assert(table_names(created_tables(ops.take(i + 1))) =~= table_names(
                        created_tables(ops.take(i as int)),
                    ).push(t@.name));
                }
            },
            _ => {
                others.push(i);
            },
        }
        i = i + 1;
    }
    proof {
        assert(ops.take(operations@.len() as int) =~= ops);
    }
    let ghost ts = created_tables(ops);
    let ghost tn = table_names(ts);
    let n = names.len();
    // Dependencies of each created table on the other created tables
    let mut deps_list: Vec<Vec<Vec<char>>> = Vec::new();
    let mut i: usize = 0;
    while i < n
        invariant
            n == names@.len(),
            n == cpos@.len(),
            n == ts.len(),
            tn == table_names(ts),
            keys_view(names@) == tn,
            forall|j: int|
                0 <= j < n ==> #[trigger] cpos@[j] < operations@.len() && operations@[cpos@[j] as int]@
                    == OpModel::CreateTable(ts[j]),
            i <= n,
            deps_list@.len() == i,
            forall|j: int| 0 <= j < i ==> keys_view(#[trigger] deps_list@[j]@) == fk_targets(ts[j].foreign_keys, tn),
        decreases n - i,
    {
        let p = cpos[i];
        proof {
            assert(operations@[cpos@[i as int] as int]@ == OpModel::CreateTable(ts[i as int]));
        }
        match &operations[p] {
            SchemaOperation::CreateTable(t) => {
                let d = fk_targets_exec(&t.foreign_keys, &names);
                deps_list.push(d);
            },
            _ => {
                proof {
                    assert(false);
                }
                deps_list.push(Vec::new());
            },
        }
        i = i + 1;
    }
    // Tables with no dependencies come first
    let mut stack: Vec<Vec<char>> = Vec::new();
    let mut i: usize = 0;
    while i < n
        invariant
            n == names@.len(),
            n == ts.len(),
            tn == table_names(ts),
            keys_view(names@) == tn,
            deps_list@.len() == n,
            forall|j: int| 0 <= j < n ==> keys_view(#[trigger] deps_list@[j]@) == fk_targets(ts[j].foreign_keys, tn),
            i <= n,
            keys_view(stack@) == roots(ts, i as int),
        decreases n - i,
    {
        proof {
            lemma_last_pos(tn, tn[i as int]);
            assert(names@[i as int]@ == tn[i as int]);
        }
        match last_pos_exec(&names, &names[i]) {
            Some(j) => {
                if deps_list[j].len() == 0 {
                    let ghost s0 = stack@;
                    stack.push(copy_chars(&names[i]));
                    proof {
                        assert(keys_view(stack@) =~= keys_view(s0).push(tn[i as int]));
                    }
                }
            },
            None => {
                proof {
                    assert(false);
                }
            },
        }
        i = i + 1;
    }
    let mut ordered: Vec<Vec<char>> = Vec::new();
    let mut done: Vec<Vec<char>> = Vec::new();
    let ghost init = SortState { stack: keys_view(stack@), ordered: Seq::empty(), done: Seq::empty() };
    proof {
        assert(keys_view(ordered@) =~= Seq::<Seq<char>>::empty());
        assert(keys_view(done@) =~= Seq::<Seq<char>>::empty());
        assert forall|k: int| 0 <= k < stack@.len() implies tn.contains(#[trigger] keys_view(stack@)[k]) by {
            lemma_roots_are_names(ts, n as int, k);
        }
    }
    while stack.len() > 0
        invariant
            n == names@.len(),
            n == ts.len(),
            tn == table_names(ts),
            keys_view(names@) == tn,
            deps_list@.len() == n,
            forall|j: int| 0 <= j < n ==> keys_view(#[trigger] deps_list@[j]@) == fk_targets(ts[j].foreign_keys, tn),
            init == (SortState { stack: roots(ts, n as int), ordered: Seq::empty(), done: Seq::empty() }),
            sort_run(ts, init) == sort_run(
                ts,
                SortState { stack: keys_view(stack@), ordered: keys_view(ordered@), done: keys_view(done@) },
            ),
            forall|k: int| 0 <= k < stack@.len() ==> tn.contains(#[trigger] keys_view(stack@)[k]),
            forall|k: int| 0 <= k < ordered@.len() ==> tn.contains(#[trigger] keys_view(ordered@)[k]),
            keys_view(ordered@) == keys_view(done@),
            keys_view(done@).no_duplicates(),
        decreases pending_count(tn, keys_view(done@)), stack@.len(),
    {
        let ghost cur = SortState { stack: keys_view(stack@), ordered: keys_view(ordered@), done: keys_view(done@) };
        let x = stack.pop().unwrap();
        proof {
            assert(keys_view(stack@) =~= cur.stack.drop_last());
            assert(x@ == cur.stack.last());
            assert(tn.contains(cur.stack[cur.stack.len() - 1]));
        }
        if contains_key(&done, &x) {
            proof {
                assert forall|k: int| 0 <= k < stack@.len() implies tn.contains(#[trigger] keys_view(stack@)[k]) by {
                    assert(keys_view(stack@)[k] == cur.stack[k]);
                }
            }
        } else {
            let ghost d0 = done@;
            let ghost o0 = ordered@;
            ordered.push(copy_chars(&x));
            done.push(x);
            proof {
                assert(keys_view(done@) =~= keys_view(d0).push(cur.stack.last()));
                assert(keys_view(ordered@) =~= keys_view(o0).push(cur.stack.last()));
                assert(!keys_view(d0).contains(cur.stack.last()));
                assert forall|a: int, b: int| 0 <= a < b < keys_view(done@).len() implies keys_view(done@)[a]
                    != keys_view(done@)[b] by {
                    assert(keys_view(done@)[a] == keys_view(d0)[a]);
                    if b < keys_view(d0).len() {
                        assert(keys_view(done@)[b] == keys_view(d0)[b]);
                    }
                }
                lemma_pending_count_mono(tn, keys_view(d0), cur.stack.last());
                assert forall|k: int| 0 <= k < ordered@.len() implies tn.contains(#[trigger] keys_view(ordered@)[k]) by {
                    if k < o0.len() {
                        assert(keys_view(ordered@)[k] == keys_view(o0)[k]);
                    }
                }
            }
            let ghost dv = keys_view(done@);
            let ghost s1 = keys_view(stack@);
            let mut i: usize = 0;
            while i < n
                invariant
                    n == names@.len(),
                    n == ts.len(),
                    tn == table_names(ts),
                    keys_view(names@) == tn,
                    deps_list@.len() == n,
                    forall|j: int| 0 <= j < n ==> keys_view(#[trigger] deps_list@[j]@) == fk_targets(ts[j].foreign_keys, tn),
                    dv == keys_view(done@),
                    i <= n,
                    keys_view(stack@) == s1 + newly_ready(ts, dv, i as int),
                    forall|k: int| 0 <= k < s1.len() ==> tn.contains(#[trigger] s1[k]),
                decreases n - i,
            {
                proof {
                    lemma_last_pos(tn, tn[i as int]);
                    assert(names@[i as int]@ == tn[i as int]);
                }
                let j = match last_pos_exec(&names, &names[i]) {
                    Some(j) => j,
                    None => {
                        proof {
                            assert(false);
                        }
                        0
                    },
                };
                proof {
                    assert(deps_of(ts, tn[i as int]) == keys_view(deps_list@[j as int]@));
                }
                let fresh = !contains_key(&done, &names[i]);
                let ready = all_done(&deps_list[j], &done);
                proof {
                    assert(ready == deps_done(ts, dv, tn[i as int]));
                }
                let ghost s0 = stack@;
                if fresh && ready {
                    stack.push(copy_chars(&names[i]));
                    proof {
                        assert(keys_view(stack@) =~= keys_view(s0).push(tn[i as int]));
                    }
                }
                proof {
                    assert(ts[i as int].name == tn[i as int]);
                    assert(keys_view(stack@) =~= s1 + newly_ready(ts, dv, i + 1));
                }
                i = i + 1;
            }
            proof {
                assert forall|k: int| 0 <= k < stack@.len() implies tn.contains(#[trigger] keys_view(stack@)[k]) by {
                    if k >= s1.len() {
                        lemma_ready_are_names(ts, dv, n as int, k - s1.len());
                    }
                }
            }
        }
    }
    let ghost fin = sort_run(ts, init);
    // Add any remaining tables (in case of cycles)
    let mut i: usize = 0;
    let ghost o1 = keys_view(ordered@);
    while i < n
        invariant
            n == names@.len(),
            n == ts.len(),
            tn == table_names(ts),
            keys_view(names@) == tn,
            fin.done == keys_view(done@),
            i <= n,
            keys_view(ordered@) == o1 + leftovers(ts, fin.done, i as int),
            forall|k: int| 0 <= k < ordered@.len() ==> tn.contains(#[trigger] keys_view(ordered@)[k]),
            tn.no_duplicates() ==> keys_view(ordered@).no_duplicates(),
            tn.no_duplicates() ==> forall|j: int|
                i <= j < n && !fin.done.contains(#[trigger] tn[j]) ==> !keys_view(ordered@).contains(tn[j]),
        decreases n - i,
    {
        proof {
            assert(names@[i as int]@ == tn[i as int]);
        }
        if !contains_key(&done, &names[i]) {
            let ghost r0 = ordered@;
            ordered.push(copy_chars(&names[i]));
            proof {
                assert(keys_view(ordered@) =~= keys_view(r0).push(tn[i as int]));
                if tn.no_duplicates() {
                    assert(!keys_view(r0).contains(tn[i as int]));
                    assert forall|a: int, b: int| 0 <= a < b < keys_view(ordered@).len() implies keys_view(ordered@)[a]
                        != keys_view(ordered@)[b] by {
                        if b == keys_view(r0).len() {
                            assert(keys_view(ordered@)[a] == keys_view(r0)[a]);
                        } else {
                            assert(keys_view(ordered@)[a] == keys_view(r0)[a]);
                            assert(keys_view(ordered@)[b] == keys_view(r0)[b]);
                        }
                    }
                    assert forall|j: int| i + 1 <= j < n && !fin.done.contains(#[trigger] tn[j]) implies !keys_view(
                        ordered@,
                    ).contains(tn[j]) by {
                        assert(tn[j] != tn[i as int]);
                        if keys_view(ordered@).contains(tn[j]) {
                            let w = choose|w: int| 0 <= w < keys_view(ordered@).len() && keys_view(ordered@)[w] == tn[j];
                            if w < keys_view(r0).len() {
                                assert(keys_view(r0)[w] == tn[j]);
                            }
                        }
                    }
                }
                assert forall|k: int| 0 <= k < ordered@.len() implies tn.contains(#[trigger] keys_view(ordered@)[k]) by {
                    if k < r0.len() {
                        assert(keys_view(ordered@)[k] == keys_view(r0)[k]);
                    } else {
                        assert(tn[i as int] == tn[i as int]);
                    }
                }
            }
        }
        i = i + 1;
    }
    let ghost order = creation_order(ts);
    proof {
        assert(keys_view(ordered@) == order);
    }
    // CREATE TABLE operations in dependency order, then the others
    let mut res: Vec<usize> = Vec::new();
    let ghost mut js: Seq<int> = Seq::empty();
    let mut k: usize = 0;
    while k < ordered.len()
        invariant
            n == names@.len(),
            n == cpos@.len(),
            n == ts.len(),
            tn == table_names(ts),
            keys_view(names@) == tn,
            forall|j: int|
                0 <= j < n ==> #[trigger] cpos@[j] < operations@.len() && operations@[cpos@[j] as int]@
                    == OpModel::CreateTable(ts[j]),
            keys_view(ordered@) == order,
            forall|k: int| 0 <= k < ordered@.len() ==> tn.contains(#[trigger] keys_view(ordered@)[k]),
            k <= ordered@.len(),
            res@.len() == k,
            forall|m: int|
                0 <= m < k ==> #[trigger] res@[m] < operations@.len() && operations@[res@[m] as int]@
                    == OpModel::CreateTable(ts[first_from(tn, order[m], 0)]),
            forall|a: int, b: int| 0 <= a < b < cpos@.len() ==> #[trigger] cpos@[a] < #[trigger] cpos@[b],
            tn.no_duplicates() ==> keys_view(ordered@).no_duplicates(),
            js.len() == k,
            forall|m: int| 0 <= m < k ==> 0 <= #[trigger] js[m] < n && res@[m] == cpos@[js[m]] && tn[js[m]] == order[m],
            tn.no_duplicates() ==> res@.no_duplicates(),
        decreases ordered@.len() - k,
    {
        proof {
            assert(tn.contains(keys_view(ordered@)[k as int]));
            lemma_first_from(tn, order[k as int], 0);
            assert(ordered@[k as int]@ == order[k as int]);
        }
        match first_index(&names, &ordered[k]) {
            Some(j) => {
                let ghost r0 = res@;
                res.push(cpos[j]);
                proof {
                    lemma_first_from(tn, order[k as int], 0);
                    js = js.push(j as int);
                    if tn.no_duplicates() {
                        assert forall|a: int, b: int| 0 <= a < b < res@.len() implies res@[a] != res@[b] by {
                            if b == k {
                                assert(res@[a] == cpos@[js[a]]);
                                if js[a] != j {
                                    if js[a] < j {
                                        assert(cpos@[js[a]] < cpos@[j as int]);
                                    } else {
                                        assert(cpos@[j as int] < cpos@[js[a]]);
                                    }
                                } else {
                                    assert(order[a] == order[k as int]);
                                    assert(keys_view(ordered@)[a] == keys_view(ordered@)[k as int]);
                                }
                            } else {
                                assert(res@[a] == r0[a] && res@[b] == r0[b]);
                            }
                        }
                    }
                }
            },
            None => {
                proof {
                    let w = choose|w: int| 0 <= w < tn.len() && tn[w] == order[k as int];
                    assert(false);
                }
            },
        }
        k = k + 1;
    }
    let ghost r1 = res@;
    let mut k: usize = 0;
    while k < others.len()
        invariant
            others@.len() == other_ops(ops).len(),
            forall|j: int|
                0 <= j < others@.len() ==> #[trigger] others@[j] < operations@.len() && operations@[others@[j] as int]@
                    == other_ops(ops)[j],
            k <= others@.len(),
            res@.len() == r1.len() + k,
            forall|m: int| 0 <= m < r1.len() ==> #[trigger] res@[m] == r1[m],
            forall|m: int|
                0 <= m < k ==> #[trigger] res@[r1.len() + m] < operations@.len() && operations@[res@[r1.len() + m] as int]@
                    == other_ops(ops)[m],
            forall|m: int| 0 <= m < r1.len() ==> operations@[#[trigger] r1[m] as int]@ is CreateTable,
            forall|m: int| 0 <= m < k ==> #[trigger] res@[r1.len() + m] == others@[m],
            forall|a: int, b: int| 0 <= a < b < others@.len() ==> #[trigger] others@[a] < #[trigger] others@[b],
            forall|j: int| 0 <= j < others@.len() ==> !(operations@[#[trigger] others@[j] as int]@ is CreateTable),
            tn.no_duplicates() ==> res@.no_duplicates(),
        decreases others@.len() - k,
    {
        let ghost q0 = res@;
        res.push(others[k]);
        proof {
            if tn.no_duplicates() {
                assert forall|a: int, b: int| 0 <= a < b < res@.len() implies res@[a] != res@[b] by {
                    if b == q0.len() {
                        if a < r1.len() {
                            assert(res@[a] == r1[a]);
                            assert(operations@[r1[a] as int]@ is CreateTable);
                        } else {
                            assert(res@[r1.len() + (a - r1.len())] == others@[a - r1.len()]);
                            assert(others@[a - r1.len()] < others@[k as int]);
                        }
                    } else {
                        assert(res@[a] == q0[a] && res@[b] == q0[b]);
                    }
                }
            }
        }
        k = k + 1;
    }
    proof {
        let dep = dependency_order(ops);
        assert(dep.len() == res@.len());
        if table_names(created_tables(ops)).no_duplicates() {
            law_dependency_order_keeps_count(ops);
        }
        assert forall|m: int| 0 <= m < res@.len() implies res@[m] < operations@.len() && operations@[#[trigger] res@[m] as int]@ == dep[m] by {
            if m < r1.len() {
                assert(res@[m] == r1[m]);
            } else {
                assert(res@[r1.len() + (m - r1.len())] == res@[m]);
            }
        }
    }
    res
}

proof fn lemma_roots_are_names(ts: Seq<TableModel>, n: int, k: int)
    requires
        0 <= n <= ts.len(),
        0 <= k < roots(ts, n).len(),
    ensures
        table_names(ts).contains(roots(ts, n)[k]),
    decreases n,
{
    if n > 0 {
        if k < roots(ts, n - 1).len() {
            lemma_roots_are_names(ts, n - 1, k);
        } else {
            assert(table_names(ts)[n - 1] == ts[n - 1].name);
        }
    }
}

proof fn lemma_ready_are_names(ts: Seq<TableModel>, done: Seq<Seq<char>>, n: int, k: int)
    requires
        0 <= n <= ts.len(),
        0 <= k < newly_ready(ts, done, n).len(),
    ensures
        table_names(ts).contains(newly_ready(ts, done, n)[k]),
    decreases n,
{
    if n > 0 {
        if k < newly_ready(ts, done, n - 1).len() {
            lemma_ready_are_names(ts, done, n - 1, k);
        } else {
            assert(table_names(ts)[n - 1] == ts[n - 1].name);
        }
    }
}

/// The SQL script for a list of operations: their statements in dependency
/// order, separated by blank lines.
pub open spec fn script_sql(ops: Seq<OpModel>) -> Seq<char> {
    join(dependency_order(ops).map_values(|o: OpModel| operation_sql(o)), "\n\n"@)
}

/// Generate SQL for a list of schema operations
/// Orders CREATE TABLE operations by foreign key dependencies
pub fn generate_sql(operations: &[SchemaOperation]) -> (res: String)
    ensures
        res@ == script_sql(ops_view(operations@)),
{
    let ghost parts = dependency_order(ops_view(operations@)).map_values(|o: OpModel| operation_sql(o));
    let order = order_operations_by_dependencies(operations);
    let mut out = String::new();
    let mut k: usize = 0;
    while k < order.len()
        invariant
            parts == dependency_order(ops_view(operations@)).map_values(|o: OpModel| operation_sql(o)),
            order@.len() == parts.len(),
            forall|m: int|
                0 <= m < order@.len() ==> order@[m] < operations@.len() && operations@[#[trigger] order@[m] as int]@
                    == dependency_order(ops_view(operations@))[m],
            k <= order@.len(),
            out@ == join(parts.take(k as int), "\n\n"@),
        decreases order@.len() - k,
    {
        proof {
            assert(parts.take(k + 1).drop_last() =~= parts.take(k as int));
            assert(operations@[order@[k as int] as int]@ == dependency_order(ops_view(operations@))[k as int]);
        }
        if k > 0 {
            push_str(&mut out, "\n\n");
        }
        let piece = generate_operation_sql(&operations[order[k]]);
        push_str(&mut out, piece.as_str());
        k = k + 1;
        proof {
            assert(out@ =~= join(parts.take(k as int), "\n\n"@));
        }
    }
    proof {
        assert(parts.take(order@.len() as int) =~= parts);
    }
    out
}

// ---------------------------------------------------------------------------
// Why the order is safe
// ---------------------------------------------------------------------------

/// What holds of every state of the ordering loop: the placed names are
/// distinct and each came after everything it depends on; every name on the
/// stack has its dependencies placed; and every unplaced table whose
/// dependencies are all placed is on the stack.
pub open spec fn sort_inv(ts: Seq<TableModel>, st: SortState) -> bool {
    &&& st.done == st.ordered
    &&& st.ordered.no_duplicates()
    &&& forall|k: int| 0 <= k < st.ordered.len() ==> deps_done(ts, st.ordered.take(k), #[trigger] st.ordered[k])
    &&& forall|k: int| 0 <= k < st.stack.len() ==> deps_done(ts, st.done, #[trigger] st.stack[k])
    &&& forall|i: int|
        0 <= i < ts.len() && !st.done.contains(#[trigger] ts[i].name) && deps_done(ts, st.done, ts[i].name)
            ==> st.stack.contains(ts[i].name)
}

proof fn lemma_deps_done_mono(ts: Seq<TableModel>, d: Seq<Seq<char>>, x: Seq<char>, nm: Seq<char>)
    requires
        deps_done(ts, d, nm),
    ensures
        deps_done(ts, d.push(x), nm),
{
    assert forall|k: int| 0 <= k < deps_of(ts, nm).len() implies d.push(x).contains(#[trigger] deps_of(ts, nm)[k]) by {
        assert(d.contains(deps_of(ts, nm)[k]));
        let j = choose|j: int| 0 <= j < d.len() && d[j] == deps_of(ts, nm)[k];
        assert(d.push(x)[j] == d[j]);
    }
}

proof fn lemma_newly_ready_has(ts: Seq<TableModel>, d: Seq<Seq<char>>, n: int, i: int)
    requires
        0 <= i < n <= ts.len(),
        !d.contains(ts[i].name),
        deps_done(ts, d, ts[i].name),
    ensures
        newly_ready(ts, d, n).contains(ts[i].name),
    decreases n,
{
    if i < n - 1 {
        lemma_newly_ready_has(ts, d, n - 1, i);
        let r = newly_ready(ts, d, n - 1);
        let j = choose|j: int| 0 <= j < r.len() && r[j] == ts[i].name;
        if !d.contains(ts[n - 1].name) && deps_done(ts, d, ts[n - 1].name) {
            assert(r.push(ts[n - 1].name)[j] == ts[i].name);
        }
    } else {
        let r = newly_ready(ts, d, n - 1);
        assert(r.push(ts[i].name)[r.len() as int] == ts[i].name);
    }
}

proof fn lemma_newly_ready_ready(ts: Seq<TableModel>, d: Seq<Seq<char>>, n: int, k: int)
    requires
        0 <= n <= ts.len(),
        0 <= k < newly_ready(ts, d, n).len(),
    ensures
        deps_done(ts, d, newly_ready(ts, d, n)[k]),
    decreases n,
{
    if n > 0 && k < newly_ready(ts, d, n - 1).len() {
        lemma_newly_ready_ready(ts, d, n - 1, k);
    }
}

proof fn lemma_roots_ready(ts: Seq<TableModel>, n: int, k: int)
    requires
        0 <= n <= ts.len(),
        0 <= k < roots(ts, n).len(),
    ensures
        deps_of(ts, roots(ts, n)[k]).len() == 0,
    decreases n,
{
    if n > 0 && k < roots(ts, n - 1).len() {
        lemma_roots_ready(ts, n - 1, k);
    }
}

proof fn lemma_roots_has(ts: Seq<TableModel>, n: int, i: int)
    requires
        0 <= i < n <= ts.len(),
        deps_of(ts, ts[i].name).len() == 0,
    ensures
        roots(ts, n).contains(ts[i].name),
    decreases n,
{
    let r = roots(ts, n - 1);
    if i < n - 1 {
        lemma_roots_has(ts, n - 1, i);
        let j = choose|j: int| 0 <= j < r.len() && r[j] == ts[i].name;
        if deps_of(ts, ts[n - 1].name).len() == 0 {
            assert(r.push(ts[n - 1].name)[j] == ts[i].name);
        }
    } else {
        assert(r.push(ts[i].name)[r.len() as int] == ts[i].name);
    }
}

proof fn lemma_sort_start(ts: Seq<TableModel>)
    ensures
        sort_inv(ts, SortState { stack: roots(ts, ts.len() as int), ordered: Seq::empty(), done: Seq::empty() }),
{
    let st = SortState { stack: roots(ts, ts.len() as int), ordered: Seq::<Seq<char>>::empty(), done: Seq::<Seq<char>>::empty() };
    assert forall|k: int| 0 <= k < st.stack.len() implies deps_done(ts, st.done, #[trigger] st.stack[k]) by {
        lemma_roots_ready(ts, ts.len() as int, k);
    }
    assert forall|i: int|
        0 <= i < ts.len() && !st.done.contains(#[trigger] ts[i].name) && deps_done(ts, st.done, ts[i].name)
            implies st.stack.contains(ts[i].name) by {
        if deps_of(ts, ts[i].name).len() > 0 {
            assert(!st.done.contains(deps_of(ts, ts[i].name)[0]));
        }
        lemma_roots_has(ts, ts.len() as int, i);
    }
}

proof fn lemma_sort_run_inv(ts: Seq<TableModel>, st: SortState)
    requires
        sort_inv(ts, st),
    ensures
        sort_inv(ts, sort_run(ts, st)),
        sort_run(ts, st).stack.len() == 0,
    decreases pending_count(table_names(ts), st.done), st.stack.len(),
{
    if st.stack.len() > 0 {
        let x = st.stack.last();
        let rest = st.stack.drop_last();
        assert(deps_done(ts, st.done, st.stack[st.stack.len() - 1]));
        if st.done.contains(x) || !table_names(ts).contains(x) {
            let st2 = SortState { stack: rest, ..st };
            assert forall|i: int|
                0 <= i < ts.len() && !st2.done.contains(#[trigger] ts[i].name) && deps_done(ts, st2.done, ts[i].name)
                    implies st2.stack.contains(ts[i].name) by {
                assert(st.stack.contains(ts[i].name));
                let j = choose|j: int| 0 <= j < st.stack.len() && st.stack[j] == ts[i].name;
                if j == st.stack.len() - 1 {
                    assert(table_names(ts)[i] == ts[i].name);
                    assert(false);
                }
                assert(rest[j] == ts[i].name);
            }
            lemma_sort_run_inv(ts, st2);
        } else {
            let d2 = st.done.push(x);
            let ready = newly_ready(ts, d2, ts.len() as int);
            let st2 = SortState { stack: rest + ready, ordered: st.ordered.push(x), done: d2 };
            lemma_pending_count_mono(table_names(ts), st.done, x);
            assert forall|k: int| 0 <= k < st2.ordered.len() implies deps_done(ts, st2.ordered.take(k), #[trigger] st2.ordered[k]) by {
                if k < st.ordered.len() {
                    assert(st2.ordered.take(k) =~= st.ordered.take(k));
                } else {
                    assert(st2.ordered.take(k) =~= st.ordered);
                }
            }
            assert forall|k: int| 0 <= k < st2.stack.len() implies deps_done(ts, st2.done, #[trigger] st2.stack[k]) by {
                if k < rest.len() {
                    assert(st.stack[k] == rest[k]);
                    lemma_deps_done_mono(ts, st.done, x, rest[k]);
                } else {
                    lemma_newly_ready_ready(ts, d2, ts.len() as int, k - rest.len());
                }
            }
            assert forall|i: int|
                0 <= i < ts.len() && !st2.done.contains(#[trigger] ts[i].name) && deps_done(ts, st2.done, ts[i].name)
                    implies st2.stack.contains(ts[i].name) by {
                lemma_newly_ready_has(ts, d2, ts.len() as int, i);
                let j = choose|j: int| 0 <= j < ready.len() && ready[j] == ts[i].name;
                assert(st2.stack[rest.len() + j] == ts[i].name);
            }
            assert(st2.ordered.no_duplicates()) by {
                assert forall|a: int, b: int| 0 <= a < st2.ordered.len() && 0 <= b < st2.ordered.len() && a != b implies st2.ordered[a] != st2.ordered[b] by {
                    if a == st.ordered.len() as int {
                        assert(st.ordered[b] == st2.ordered[b]);
                    } else if b == st.ordered.len() as int {
                        assert(st.ordered[a] == st2.ordered[a]);
                    }
                }
            }
            lemma_sort_run_inv(ts, st2);
        }
    }
}

/// Every table whose dependencies all come from lower-ranked tables is placed.
proof fn lemma_all_placed(ts: Seq<TableModel>, fin: SortState, rank: spec_fn(Seq<char>) -> nat, nm: Seq<char>)
    requires
        sort_inv(ts, fin),
        fin.stack.len() == 0,
        table_names(ts).contains(nm),
        forall|i: int, k: int|
            0 <= i < ts.len() && 0 <= k < deps_of(ts, ts[i].name).len() ==> rank(
                #[trigger] deps_of(ts, ts[i].name)[k],
            ) < rank(ts[i].name),
    ensures
        fin.done.contains(nm),
    decreases rank(nm),
{
    let i = choose|i: int| 0 <= i < table_names(ts).len() && table_names(ts)[i] == nm;
    assert(ts[i].name == nm);
    assert forall|k: int| 0 <= k < deps_of(ts, nm).len() implies fin.done.contains(#[trigger] deps_of(ts, nm)[k]) by {
        let d = deps_of(ts, nm)[k];
        assert(rank(deps_of(ts, ts[i].name)[k]) < rank(ts[i].name));
        lemma_deps_are_names(ts, nm, k);
        lemma_all_placed(ts, fin, rank, d);
    }
    if !fin.done.contains(nm) {
        assert(fin.stack.contains(ts[i].name));
        assert(false);
    }
}

proof fn lemma_fk_targets_are_names(fks: Seq<ForeignKeyModel>, names: Seq<Seq<char>>, k: int)
    requires
        0 <= k < fk_targets(fks, names).len(),
    ensures
        names.contains(fk_targets(fks, names)[k]),
    decreases fks.len(),
{
    if k < fk_targets(fks.drop_last(), names).len() {
        lemma_fk_targets_are_names(fks.drop_last(), names, k);
    }
}

proof fn lemma_deps_are_names(ts: Seq<TableModel>, nm: Seq<char>, k: int)
    requires
        0 <= k < deps_of(ts, nm).len(),
    ensures
        table_names(ts).contains(deps_of(ts, nm)[k]),
{
    lemma_last_pos(table_names(ts), nm);
    let i = last_pos(table_names(ts), nm);
    lemma_fk_targets_are_names(ts[i].foreign_keys, table_names(ts), k);
}

proof fn lemma_no_leftovers(ts: Seq<TableModel>, done: Seq<Seq<char>>, n: int)
    requires
        0 <= n <= ts.len(),
        forall|i: int| 0 <= i < ts.len() ==> done.contains(#[trigger] ts[i].name),
    ensures
        leftovers(ts, done, n) == Seq::<Seq<char>>::empty(),
    decreases n,
{
    if n > 0 {
        lemma_no_leftovers(ts, done, n - 1);
    }
}

/// Tables are created before the tables that reference them: when every
/// created table references only tables of lower rank (the foreign keys form
/// no cycle), the creation order names every created table exactly once, and
/// each comes after every created table it references.
pub proof fn law_creation_order_respects_foreign_keys(
    ts: Seq<TableModel>,
    rank: spec_fn(Seq<char>) -> nat,
)
    requires
        forall|i: int, k: int|
            0 <= i < ts.len() && 0 <= k < deps_of(ts, ts[i].name).len() ==> rank(
                #[trigger] deps_of(ts, ts[i].name)[k],
            ) < rank(ts[i].name),
    ensures
        creation_order(ts).no_duplicates(),
        forall|i: int| 0 <= i < ts.len() ==> creation_order(ts).contains(#[trigger] ts[i].name),
        forall|k: int| 0 <= k < creation_order(ts).len() ==> table_names(ts).contains(#[trigger] creation_order(ts)[k]),
        forall|k: int, m: int|
            0 <= k < creation_order(ts).len() && 0 <= m < deps_of(ts, creation_order(ts)[k]).len()
                ==> #[trigger] creation_order(ts).take(k).contains(deps_of(ts, creation_order(ts)[k])[m]),
{
    let init = SortState { stack: roots(ts, ts.len() as int), ordered: Seq::empty(), done: Seq::empty() };
    lemma_sort_start(ts);
    lemma_sort_run_inv(ts, init);
    let fin = sort_run(ts, init);
    assert forall|i: int| 0 <= i < ts.len() implies fin.done.contains(#[trigger] ts[i].name) by {
        assert(table_names(ts)[i] == ts[i].name);
        lemma_all_placed(ts, fin, rank, ts[i].name);
    }
    lemma_no_leftovers(ts, fin.done, ts.len() as int);
    assert(creation_order(ts) =~= fin.ordered);
    assert forall|k: int| 0 <= k < creation_order(ts).len() implies table_names(ts).contains(#[trigger] creation_order(ts)[k]) by {
        lemma_sort_run_names(ts, init);
    }
    assert forall|k: int, m: int|
        0 <= k < creation_order(ts).len() && 0 <= m < deps_of(ts, creation_order(ts)[k]).len()
            implies #[trigger] creation_order(ts).take(k).contains(deps_of(ts, creation_order(ts)[k])[m]) by {
        assert(deps_done(ts, fin.ordered.take(k), fin.ordered[k]));
    }
}

proof fn lemma_sort_run_names(ts: Seq<TableModel>, st: SortState)
    requires
        forall|k: int| 0 <= k < st.ordered.len() ==> table_names(ts).contains(#[trigger] st.ordered[k]),
    ensures
        forall|k: int| 0 <= k < sort_run(ts, st).ordered.len() ==> table_names(ts).contains(#[trigger] sort_run(ts, st).ordered[k]),
    decreases pending_count(table_names(ts), st.done), st.stack.len(),
{
    if st.stack.len() > 0 {
        let x = st.stack.last();
        let rest = st.stack.drop_last();
        if st.done.contains(x) || !table_names(ts).contains(x) {
            let st2 = SortState { stack: rest, ..st };
            assert(sort_run(ts, st) == sort_run(ts, st2));
            lemma_sort_run_names(ts, st2);
        } else {
            let d2 = st.done.push(x);
            lemma_pending_count_mono(table_names(ts), st.done, x);
            let st2 = SortState { stack: rest + newly_ready(ts, d2, ts.len() as int), ordered: st.ordered.push(x), done: d2 };
            assert forall|k: int| 0 <= k < st2.ordered.len() implies table_names(ts).contains(#[trigger] st2.ordered[k]) by {
                if k < st.ordered.len() {
                    assert(st2.ordered[k] == st.ordered[k]);
                }
            }
            assert(sort_run(ts, st) == sort_run(ts, st2));
            lemma_sort_run_names(ts, st2);
        }
    }
}

/// With distinct names, the tables left over after the ordering loop are
/// those not placed, each once.
proof fn lemma_leftovers_set(ts: Seq<TableModel>, done: Seq<Seq<char>>, n: int)
    requires
        0 <= n <= ts.len(),
        table_names(ts).no_duplicates(),
    ensures
        leftovers(ts, done, n).no_duplicates(),
        leftovers(ts, done, n).to_set() =~= table_names(ts).take(n).to_set().difference(done.to_set()),
    decreases n,
{
    if n > 0 {
        lemma_leftovers_set(ts, done, n - 1);
        let names = table_names(ts);
        let nm = ts[n - 1].name;
        let prev = leftovers(ts, done, n - 1);
        assert(names[n - 1] == nm);
        assert(names.take(n) =~= names.take(n - 1).push(nm));
        assert(!names.take(n - 1).contains(nm)) by {
            if names.take(n - 1).contains(nm) {
                let j = choose|j: int| 0 <= j < n - 1 && #[trigger] names.take(n - 1)[j] == nm;
                assert(names[j] == names[n - 1]);
            }
        }
        assert forall|x: Seq<char>| #[trigger] names.take(n).contains(x) <==> (names.take(n - 1).contains(x)
            || x == nm) by {
            lemma_push_contains(names.take(n - 1), nm, x);
        }
        assert forall|x: Seq<char>| #[trigger] prev.push(nm).contains(x) <==> (prev.contains(x) || x == nm) by {
            lemma_push_contains(prev, nm, x);
        }
        if !done.contains(nm) {
            assert(!prev.contains(nm)) by {
                if prev.contains(nm) {
                    let j = choose|j: int| 0 <= j < prev.len() && #[trigger] prev[j] == nm;
                    assert(prev.to_set().contains(prev[j]));
                }
            }
            assert forall|a: int, b: int| 0 <= a < b < prev.push(nm).len() implies prev.push(nm)[a]
                != prev.push(nm)[b] by {
                if b == prev.len() {
                    assert(prev.contains(prev[a]));
                }
            }
        }
        let cur = leftovers(ts, done, n);
        assert forall|x: Seq<char>|
            cur.to_set().contains(x) <==> #[trigger] names.take(n).to_set().difference(done.to_set()).contains(x) by {
            assert(prev.to_set().contains(x) <==> names.take(n - 1).to_set().difference(done.to_set()).contains(x));
            assert(prev.push(nm).contains(x) <==> (prev.contains(x) || x == nm));
            assert(names.take(n).contains(x) <==> (names.take(n - 1).contains(x) || x == nm));
        }
    }
}

proof fn lemma_push_contains(s: Seq<Seq<char>>, e: Seq<char>, x: Seq<char>)
    ensures
        s.push(e).contains(x) <==> (s.contains(x) || x == e),
{
    if s.contains(x) {
        let j = choose|j: int| 0 <= j < s.len() && #[trigger] s[j] == x;
        assert(s.push(e)[j] == x);
    }
    if x == e {
        assert(s.push(e)[s.len() as int] == x);
    }
    if s.push(e).contains(x) && x != e {
        let j = choose|j: int| 0 <= j < s.push(e).len() && #[trigger] s.push(e)[j] == x;
        assert(s[j] == x);
    }
}

/// The CREATE TABLE and the other operations of a list together are as many
/// as the list.
proof fn lemma_split_ops_len(ops: Seq<OpModel>)
    ensures
        created_tables(ops).len() + other_ops(ops).len() == ops.len(),
    decreases ops.len(),
{
    if ops.len() > 0 {
        lemma_split_ops_len(ops.drop_last());
    }
}

/// With distinct table names, the creation order names each table once.
proof fn lemma_creation_order_len(ts: Seq<TableModel>)
    requires
        table_names(ts).no_duplicates(),
    ensures
        creation_order(ts).len() == ts.len(),
{
    broadcast use vstd::seq_lib::seq_to_set_is_finite;

    let init = SortState { stack: roots(ts, ts.len() as int), ordered: Seq::empty(), done: Seq::empty() };
    lemma_sort_start(ts);
    lemma_sort_run_inv(ts, init);
    lemma_sort_run_names(ts, init);
    let fin = sort_run(ts, init);
    let names = table_names(ts);
    let d = fin.done;
    lemma_leftovers_set(ts, d, ts.len() as int);
    assert(names.take(ts.len() as int) =~= names);
    let l = leftovers(ts, d, ts.len() as int);
    l.unique_seq_to_set();
    d.unique_seq_to_set();
    names.unique_seq_to_set();
    assert(names.to_set().intersect(d.to_set()) =~= d.to_set()) by {
        assert forall|x: Seq<char>| d.to_set().contains(x) implies names.to_set().contains(x) by {
            let k = choose|k: int| 0 <= k < d.len() && #[trigger] d[k] == x;
            assert(fin.ordered[k] == x);
        }
    }
    vstd::set_lib::lemma_set_difference_len(names.to_set(), d.to_set());
}

/// Ordering by dependencies keeps every operation: when the created tables
/// have distinct names, there are as many operations after as before.
pub proof fn law_dependency_order_keeps_count(ops: Seq<OpModel>)
    requires
        table_names(created_tables(ops)).no_duplicates(),
    ensures
        dependency_order(ops).len() == ops.len(),
{
    lemma_creation_order_len(created_tables(ops));
    lemma_split_ops_len(ops);
}

} // verus!
