//! Database-agnostic schema model: tables, columns, indexes, foreign keys and
//! migration metadata, as parsed from model definitions and compared by the
//! diff algorithm.

use vstd::prelude::*;

use crate::text::{
    after_last, after_last_chars, chars_eq, chars_of, ends_with, has_prefix, has_suffix,
    slice_chars, spec_lowercase, starts_with, to_lowercase_chars, trim, trim_chars,
};

verus! {

// ---------------------------------------------------------------------------
// Abstract models (views)
// ---------------------------------------------------------------------------

pub open spec fn opt_str_view(o: Option<String>) -> Option<Seq<char>> {
    match o {
        Some(s) => Some(s@),
        None => None,
    }
}

pub open spec fn strs_view(v: Seq<String>) -> Seq<Seq<char>> {
    v.map_values(|s: String| s@)
}

/// A column as the specifications see it.
pub struct ColumnModel {
    pub name: Seq<char>,
    pub column_type: ColumnType,
    pub nullable: bool,
    pub default: Option<Seq<char>>,
    pub unique: bool,
    pub primary_key: bool,
    pub auto_increment: bool,
    pub indexed: bool,
    pub index_name: Option<Seq<char>>,
    pub max_length: Option<u32>,
    pub min_length: Option<u32>,
    pub range: Option<RangeConstraint>,
    pub soft_delete: bool,
    pub renamed_from: Option<Seq<char>>,
    pub dropped: bool,
}

pub struct IndexModel {
    pub name: Seq<char>,
    pub columns: Seq<Seq<char>>,
    pub unique: bool,
}

pub struct ForeignKeyModel {
    pub name: Option<Seq<char>>,
    pub column: Seq<char>,
    pub references_table: Seq<char>,
    pub references_column: Seq<char>,
    pub on_delete: OnDeleteAction,
    pub on_update: OnUpdateAction,
}

pub struct TableModel {
    pub name: Seq<char>,
    pub columns: Seq<ColumnModel>,
    pub indexes: Seq<IndexModel>,
    pub foreign_keys: Seq<ForeignKeyModel>,
    pub primary_key: Seq<Seq<char>>,
    pub migration_id: Option<Seq<char>>,
}

pub struct MigrationMetaModel {
    pub id: Seq<char>,
    pub after: Option<Seq<char>>,
    pub tables: Seq<TableModel>,
    pub data_migration: Option<Seq<char>>,
}

// ---------------------------------------------------------------------------
// Table
// ---------------------------------------------------------------------------

/// Represents a complete database table schema
#[derive(Debug)]
pub struct TableSchema {
    /// Table name in the database
    pub name: String,
    /// Columns in the table
    pub columns: Vec<ColumnSchema>,
    /// Indexes on the table (excluding primary key)
    pub indexes: Vec<IndexSchema>,
    /// Foreign key constraints
    pub foreign_keys: Vec<ForeignKeySchema>,
    /// Primary key columns (supports composite keys)
    pub primary_key: Vec<String>,
    /// Migration ID this schema belongs to (for tracking)
    pub migration_id: Option<String>,
}

impl View for TableSchema {
    type V = TableModel;

    open spec fn view(&self) -> TableModel {
        TableModel {
            name: self.name@,
            columns: self.columns@.map_values(|c: ColumnSchema| c@),
            indexes: self.indexes@.map_values(|i: IndexSchema| i@),
            foreign_keys: self.foreign_keys@.map_values(|f: ForeignKeySchema| f@),
            primary_key: strs_view(self.primary_key@),
            migration_id: opt_str_view(self.migration_id),
        }
    }
}

/// The first index at or after `k` of a column named `name`, or -1.
pub open spec fn column_index_from(cols: Seq<ColumnModel>, name: Seq<char>, k: int) -> int
    decreases cols.len() - k,
{
    if k < 0 || k >= cols.len() {
        -1
    } else if cols[k].name == name {
        k
    } else {
        column_index_from(cols, name, k + 1)
    }
}

/// The index of the first column named `name`, or -1.
pub open spec fn column_index(cols: Seq<ColumnModel>, name: Seq<char>) -> int {
    column_index_from(cols, name, 0)
}

pub proof fn lemma_column_index_from(cols: Seq<ColumnModel>, name: Seq<char>, k: int)
    ensures
        column_index_from(cols, name, k) == -1 || (0 <= k <= column_index_from(cols, name, k)
            < cols.len() && cols[column_index_from(cols, name, k)].name == name),
        column_index_from(cols, name, k) == -1 ==> forall|j: int|
            0 <= k <= j < cols.len() ==> cols[j].name != name,
        column_index_from(cols, name, k) != -1 ==> forall|j: int|
            k <= j < column_index_from(cols, name, k) ==> cols[j].name != name,
    decreases cols.len() - k,
{
    if k < 0 || k >= cols.len() {
    } else if cols[k].name == name {
    } else {
        lemma_column_index_from(cols, name, k + 1);
    }
}

pub open spec fn empty_table(name: Seq<char>) -> TableModel {
    TableModel {
        name,
        columns: Seq::empty(),
        indexes: Seq::empty(),
        foreign_keys: Seq::empty(),
        primary_key: Seq::empty(),
        migration_id: None,
    }
}

/// Index of the first column named `name` in a vector of columns.
pub fn position_of_column(cols: &Vec<ColumnSchema>, name: &[char]) -> (res: Option<usize>)
    ensures
        match res {
            Some(i) => i as int == column_index(cols@.map_values(|c: ColumnSchema| c@), name@),
            None => column_index(cols@.map_values(|c: ColumnSchema| c@), name@) == -1,
        },
{
    let ghost ms = cols@.map_values(|c: ColumnSchema| c@);
    let mut i: usize = 0;
    while i < cols.len()
        invariant
            i <= cols@.len(),
            ms == cols@.map_values(|c: ColumnSchema| c@),
            column_index(ms, name@) == column_index_from(ms, name@, i as int),
        decreases cols@.len() - i,
    {
        let cn = chars_of(cols[i].name.as_str());
        if chars_eq(&cn, name) {
            return Some(i);
        }
        i = i + 1;
    }
    None
}

impl TableSchema {
    /// Create a new empty table schema
    pub fn new(name: &str) -> (res: Self)
        ensures
            res@ == empty_table(name@),
    {
        let res = TableSchema {
            name: name.to_owned(),
            columns: Vec::new(),
            indexes: Vec::new(),
            foreign_keys: Vec::new(),
            primary_key: Vec::new(),
            migration_id: None,
        };
        proof {
            assert(res@.columns =~= Seq::empty());
            assert(res@.indexes =~= Seq::empty());
            assert(res@.foreign_keys =~= Seq::empty());
            assert(res@.primary_key =~= Seq::empty());
        }
        res
    }

    /// Add a column to the schema
    pub fn add_column(&mut self, column: ColumnSchema)
        ensures
            final(self)@ == (TableModel { columns: old(self)@.columns.push(column@), ..old(self)@ }),
    {
        let ghost c = column@;
        self.columns.push(column);
        proof {
            assert(self@.columns =~= old(self)@.columns.push(c));
        }
    }

    /// Find a column by name
    pub fn find_column(&self, name: &str) -> (res: Option<&ColumnSchema>)
        ensures
            match res {
                Some(c) => column_index(self@.columns, name@) >= 0 && c@ == self@.columns[column_index(
                    self@.columns,
                    name@,
                )],
                None => column_index(self@.columns, name@) == -1,
            },
    {
        let n = chars_of(name);
        proof {
            lemma_column_index_from(self@.columns, name@, 0);
        }
        match position_of_column(&self.columns, &n) {
            Some(i) => Some(&self.columns[i]),
            None => None,
        }
    }

    /// Find a column by name (mutable)
    pub fn find_column_mut(&mut self, name: &str) -> (res: Option<&mut ColumnSchema>)
        ensures
            match res {
                Some(c) => {
                    let i = column_index(old(self)@.columns, name@);
                    &&& 0 <= i < old(self)@.columns.len()
                    &&& c@ == old(self)@.columns[i]
                    &&& final(self).columns@ == old(self).columns@.update(i, *final(c))
                    &&& final(self).name == old(self).name
                    &&& final(self).indexes == old(self).indexes
                    &&& final(self).foreign_keys == old(self).foreign_keys
                    &&& final(self).primary_key == old(self).primary_key
                    &&& final(self).migration_id == old(self).migration_id
                },
                None => column_index(old(self)@.columns, name@) == -1 && final(self)@ == old(
                    self,
                )@,
            },
    {
        let n = chars_of(name);
        proof {
            lemma_column_index_from(self@.columns, name@, 0);
        }
        match position_of_column(&self.columns, &n) {
            Some(i) => Some(&mut self.columns[i]),
            None => None,
        }
    }
}

// ---------------------------------------------------------------------------
// Column
// ---------------------------------------------------------------------------

/// Represents a database column
#[derive(Debug)]
pub struct ColumnSchema {
    /// Column name
    pub name: String,
    /// Column data type
    pub column_type: ColumnType,
    /// Whether the column allows NULL values
    pub nullable: bool,
    /// Default value expression (SQL string)
    pub default: Option<String>,
    /// Whether the column has a unique constraint
    pub unique: bool,
    /// Whether this column is part of the primary key
    pub primary_key: bool,
    /// Whether the primary key auto-increments
    pub auto_increment: bool,
    /// Whether this column has an index
    pub indexed: bool,
    /// Index name if indexed
    pub index_name: Option<String>,
    /// Max length for string types
    pub max_length: Option<u32>,
    /// Min length for string types (validation only)
    pub min_length: Option<u32>,
    /// Range constraints for numeric types (validation only)
    pub range: Option<RangeConstraint>,
    /// Whether this is a soft delete marker column
    pub soft_delete: bool,
    /// For delta migrations: this column was renamed from another
    pub renamed_from: Option<String>,
    /// For delta migrations: this column should be dropped
    pub dropped: bool,
}

impl View for ColumnSchema {
    type V = ColumnModel;

    open spec fn view(&self) -> ColumnModel {
        ColumnModel {
            name: self.name@,
            column_type: self.column_type,
            nullable: self.nullable,
            default: opt_str_view(self.default),
            unique: self.unique,
            primary_key: self.primary_key,
            auto_increment: self.auto_increment,
            indexed: self.indexed,
            index_name: opt_str_view(self.index_name),
            max_length: self.max_length,
            min_length: self.min_length,
            range: self.range,
            soft_delete: self.soft_delete,
            renamed_from: opt_str_view(self.renamed_from),
            dropped: self.dropped,
        }
    }
}

/// A fresh column: everything off, nothing set.
pub open spec fn new_column(name: Seq<char>, column_type: ColumnType) -> ColumnModel {
    ColumnModel {
        name,
        column_type,
        nullable: false,
        default: None,
        unique: false,
        primary_key: false,
        auto_increment: false,
        indexed: false,
        index_name: None,
        max_length: None,
        min_length: None,
        range: None,
        soft_delete: false,
        renamed_from: None,
        dropped: false,
    }
}

impl ColumnSchema {
    /// Create a new column with the given name and type
    pub fn new(name: &str, column_type: ColumnType) -> (res: Self)
        ensures
            res@ == new_column(name@, column_type),
    {
        ColumnSchema {
            name: name.to_owned(),
            column_type,
            nullable: false,
            default: None,
            unique: false,
            primary_key: false,
            auto_increment: false,
            indexed: false,
            index_name: None,
            max_length: None,
            min_length: None,
            range: None,
            soft_delete: false,
            renamed_from: None,
            dropped: false,
        }
    }

    /// Set nullable
    pub fn nullable(self, nullable: bool) -> (res: Self)
        ensures
            res@ == (ColumnModel { nullable, ..self@ }),
    {
        let mut s = self;
        s.nullable = nullable;
        s
    }

    /// Set default value
    pub fn default(self, default: &str) -> (res: Self)
        ensures
            res@ == (ColumnModel { default: Some(default@), ..self@ }),
    {
        let mut s = self;
        s.default = Some(default.to_owned());
        s
    }

    /// Set as primary key
    pub fn primary_key(self, auto_increment: bool) -> (res: Self)
        ensures
            res@ == (ColumnModel { primary_key: true, auto_increment, ..self@ }),
    {
        let mut s = self;
        s.primary_key = true;
        s.auto_increment = auto_increment;
        s
    }

    /// Set as indexed
    pub fn indexed(self) -> (res: Self)
        ensures
            res@ == (ColumnModel { indexed: true, ..self@ }),
    {
        let mut s = self;
        s.indexed = true;
        s
    }

    /// Set as unique
    pub fn unique(self) -> (res: Self)
        ensures
            res@ == (ColumnModel { unique: true, ..self@ }),
    {
        let mut s = self;
        s.unique = true;
        s
    }

    /// Set max length
    pub fn max_length(self, len: u32) -> (res: Self)
        ensures
            res@ == (ColumnModel { max_length: Some(len), ..self@ }),
    {
        let mut s = self;
        s.max_length = Some(len);
        s
    }
}

// ---------------------------------------------------------------------------
// Column types
// ---------------------------------------------------------------------------

/// Database column types
#[derive(Debug, PartialEq, Eq, Structural)]
pub enum ColumnType {
    /// Boolean type
    Boolean,
    /// Small integer (i16)
    SmallInteger,
    /// Integer (i32)
    Integer,
    /// Big integer (i64)
    BigInteger,
    /// Single precision float (f32)
    Float,
    /// Double precision float (f64)
    Double,
    /// Decimal with precision and scale
    Decimal { precision: u32, scale: u32 },
    /// Variable-length string with optional max length
    String(Option<u32>),
    /// Unlimited text
    Text,
    /// Binary data
    Binary,
    /// Date (no time)
    Date,
    /// Time (no date)
    Time,
    /// DateTime without timezone
    DateTime,
    /// DateTime with timezone
    TimestampTz,
    /// UUID
    Uuid,
    /// JSON
    Json,
    /// JSONB (PostgreSQL)
    JsonB,
}

impl Clone for ColumnType {
    fn clone(&self) -> (res: Self)
        ensures
            res == *self,
    {
        match self {
            ColumnType::Boolean => ColumnType::Boolean,
            ColumnType::SmallInteger => ColumnType::SmallInteger,
            ColumnType::Integer => ColumnType::Integer,
            ColumnType::BigInteger => ColumnType::BigInteger,
            ColumnType::Float => ColumnType::Float,
            ColumnType::Double => ColumnType::Double,
            ColumnType::Decimal { precision, scale } => ColumnType::Decimal {
                precision: *precision,
                scale: *scale,
            },
            ColumnType::String(n) => ColumnType::String(*n),
            ColumnType::Text => ColumnType::Text,
            ColumnType::Binary => ColumnType::Binary,
            ColumnType::Date => ColumnType::Date,
            ColumnType::Time => ColumnType::Time,
            ColumnType::DateTime => ColumnType::DateTime,
            ColumnType::TimestampTz => ColumnType::TimestampTz,
            ColumnType::Uuid => ColumnType::Uuid,
            ColumnType::Json => ColumnType::Json,
            ColumnType::JsonB => ColumnType::JsonB,
        }
    }
}

/// The column type for a bare type name (the last path segment).
pub open spec fn simple_type_column(t: Seq<char>) -> ColumnType {
    if t == "bool"@ {
        ColumnType::Boolean
    } else if t == "i16"@ {
        ColumnType::SmallInteger
    } else if t == "i32"@ {
        ColumnType::Integer
    } else if t == "i64"@ {
        ColumnType::BigInteger
    } else if t == "f32"@ {
        ColumnType::Float
    } else if t == "f64"@ {
        ColumnType::Double
    } else if t == "String"@ {
        ColumnType::String(None)
    } else if t == "Vec<u8>"@ {
        ColumnType::Binary
    } else if t == "Uuid"@ {
        ColumnType::Uuid
    } else if t == "NaiveDate"@ || t == "Date"@ {
        ColumnType::Date
    } else if t == "NaiveTime"@ || t == "Time"@ {
        ColumnType::Time
    } else if t == "NaiveDateTime"@ || t == "DateTime"@ {
        ColumnType::DateTime
    } else if t == "DateTimeWithTimeZone"@ || t == "DateTime<FixedOffset>"@ {
        ColumnType::TimestampTz
    } else if t == "Value"@ {
        ColumnType::Json
    } else {
        ColumnType::String(None)
    }
}

pub open spec fn is_option_wrapped(t: Seq<char>) -> bool {
    has_prefix(t, "Option<"@) && has_suffix(t, ">"@)
}

/// The column type inferred from a Rust type written as text: `Option<T>`
/// is unwrapped, then the last path segment is looked up; unknown types map
/// to `String(None)`.
pub open spec fn rust_type_column(s: Seq<char>) -> ColumnType
    decreases s.len(),
{
    let t = trim(s);
    if is_option_wrapped(t) && t.len() <= s.len() && 8 <= t.len() {
        rust_type_column(t.subrange(7, t.len() - 1))
    } else {
        simple_type_column(after_last(t, "::"@))
    }
}

/// Wrapping a type in `Option<..>` keeps its column type: an optional field
/// is stored in the same column type, made nullable elsewhere.
pub proof fn law_option_keeps_column_type(t: Seq<char>)
    ensures
        rust_type_column("Option<"@ + t + ">"@) == rust_type_column(t),
{
    reveal_strlit("Option<");
    reveal_strlit(">");
    let s = "Option<"@ + t + ">"@;
    let ws = crate::text::CharSet::Whitespace;
    assert(s[0] == 'O');
    assert(s.last() == '>');
    assert(crate::text::strip_start(s, ws) == s);
    assert(crate::text::strip_end(s, ws) == s);
    assert(trim(s) == s);
    assert(s.subrange(0, 7) =~= "Option<"@);
    assert(s.subrange(s.len() - 1, s.len() as int) =~= ">"@);
    assert(is_option_wrapped(s));
    assert(s.subrange(7, s.len() - 1) =~= t);
}

proof fn lemma_trim_len(s: Seq<char>)
    ensures
        trim(s).len() <= s.len(),
{
    lemma_strip_start_len(s, crate::text::CharSet::Whitespace);
    lemma_strip_end_len(crate::text::strip_start(s, crate::text::CharSet::Whitespace), crate::text::CharSet::Whitespace);
}

proof fn lemma_strip_start_len(s: Seq<char>, k: crate::text::CharSet)
    ensures
        crate::text::strip_start(s, k).len() <= s.len(),
    decreases s.len(),
{
    if s.len() > 0 && crate::text::in_set(k, s[0]) {
        lemma_strip_start_len(s.drop_first(), k);
    }
}

proof fn lemma_strip_end_len(s: Seq<char>, k: crate::text::CharSet)
    ensures
        crate::text::strip_end(s, k).len() <= s.len(),
    decreases s.len(),
{
    if s.len() > 0 && crate::text::in_set(k, s.last()) {
        lemma_strip_end_len(s.drop_last(), k);
    }
}

fn simple_type_column_exec(t: &[char]) -> (res: ColumnType)
    ensures
        res == simple_type_column(t@),
{
    if chars_eq(t, &chars_of("bool")) {
        ColumnType::Boolean
    } else if chars_eq(t, &chars_of("i16")) {
        ColumnType::SmallInteger
    } else if chars_eq(t, &chars_of("i32")) {
        ColumnType::Integer
    } else if chars_eq(t, &chars_of("i64")) {
        ColumnType::BigInteger
    } else if chars_eq(t, &chars_of("f32")) {
        ColumnType::Float
    } else if chars_eq(t, &chars_of("f64")) {
        ColumnType::Double
    } else if chars_eq(t, &chars_of("String")) {
        ColumnType::String(None)
    } else if chars_eq(t, &chars_of("Vec<u8>")) {
        ColumnType::Binary
    } else if chars_eq(t, &chars_of("Uuid")) {
        ColumnType::Uuid
    } else if chars_eq(t, &chars_of("NaiveDate")) || chars_eq(t, &chars_of("Date")) {
        ColumnType::Date
    } else if chars_eq(t, &chars_of("NaiveTime")) || chars_eq(t, &chars_of("Time")) {
        ColumnType::Time
    } else if chars_eq(t, &chars_of("NaiveDateTime")) || chars_eq(t, &chars_of("DateTime")) {
        ColumnType::DateTime
    } else if chars_eq(t, &chars_of("DateTimeWithTimeZone")) || chars_eq(
        t,
        &chars_of("DateTime<FixedOffset>"),
    ) {
        ColumnType::TimestampTz
    } else if chars_eq(t, &chars_of("Value")) {
        ColumnType::Json
    } else {
        ColumnType::String(None)
    }
}

fn rust_type_column_exec(s: &[char]) -> (res: ColumnType)
    ensures
        res == rust_type_column(s@),
    decreases s@.len(),
{
    let t = trim_chars(s);
    proof {
        lemma_trim_len(s@);
    }
    if starts_with(&t, &chars_of("Option<")) && ends_with(&t, &chars_of(">")) && 8 <= t.len() {
        let inner = slice_chars(&t, 7, t.len() - 1);
        return rust_type_column_exec(&inner);
    }
    proof {
        reveal_strlit("Option<");
        reveal_strlit(">");
        if is_option_wrapped(t@) {
            // "Option<" and ">" cannot overlap, so a wrapped name has at least 8 characters
            assert(t@.subrange(0, 7) == "Option<"@);
            assert(t@.subrange(t@.len() - 1, t@.len() as int) == ">"@);
            if t@.len() < 8 {
                assert(t@.len() == 7);
                reveal_strlit("Option<");
                reveal_strlit(">");
                assert(t@.subrange(0, 7)[6] == '<');
                assert(t@.subrange(t@.len() - 1, t@.len() as int)[0] == '>');
            }
        }
    }
    let seg = after_last_chars(&t, &chars_of("::"));
    simple_type_column_exec(&seg)
}

impl ColumnType {
    /// Infer column type from Rust type string
    pub fn from_rust_type(type_str: &str) -> (res: Self)
        ensures
            res == rust_type_column(type_str@),
    {
        let cs = chars_of(type_str);
        rust_type_column_exec(&cs)
    }

    /// Check if this type is nullable by default (Option types)
    pub fn is_option_type(type_str: &str) -> (res: bool)
        ensures
            res == has_prefix(trim(type_str@), "Option<"@),
    {
        let cs = chars_of(type_str);
        let t = trim_chars(&cs);
        starts_with(&t, &chars_of("Option<"))
    }
}

// ---------------------------------------------------------------------------
// Range constraints, indexes, foreign keys
// ---------------------------------------------------------------------------

/// Range constraint for numeric columns
#[derive(Debug, PartialEq, Eq, Structural)]
pub struct RangeConstraint {
    pub min: Option<i64>,
    pub max: Option<i64>,
}

impl Clone for RangeConstraint {
    fn clone(&self) -> (res: Self)
        ensures
            res == *self,
    {
        RangeConstraint { min: self.min, max: self.max }
    }
}

/// Index definition
#[derive(Debug)]
pub struct IndexSchema {
    /// Index name
    pub name: String,
    /// Columns in the index
    pub columns: Vec<String>,
    /// Whether this is a unique index
    pub unique: bool,
}

impl View for IndexSchema {
    type V = IndexModel;

    open spec fn view(&self) -> IndexModel {
        IndexModel { name: self.name@, columns: strs_view(self.columns@), unique: self.unique }
    }
}

impl IndexSchema {
    /// Create a new index
    pub fn new(name: &str, columns: Vec<String>) -> (res: Self)
        ensures
            res@ == (IndexModel { name: name@, columns: strs_view(columns@), unique: false }),
    {
        IndexSchema { name: name.to_owned(), columns, unique: false }
    }

    /// Set as unique index
    pub fn unique(self) -> (res: Self)
        ensures
            res@ == (IndexModel { unique: true, ..self@ }),
    {
        let mut s = self;
        s.unique = true;
        s
    }
}

/// Foreign key constraint
#[derive(Debug)]
pub struct ForeignKeySchema {
    /// Constraint name
    pub name: Option<String>,
    /// Column in this table
    pub column: String,
    /// Referenced table
    pub references_table: String,
    /// Referenced column
    pub references_column: String,
    /// ON DELETE behavior
    pub on_delete: OnDeleteAction,
    /// ON UPDATE behavior
    pub on_update: OnUpdateAction,
}

impl View for ForeignKeySchema {
    type V = ForeignKeyModel;

    open spec fn view(&self) -> ForeignKeyModel {
        ForeignKeyModel {
            name: opt_str_view(self.name),
            column: self.column@,
            references_table: self.references_table@,
            references_column: self.references_column@,
            on_delete: self.on_delete,
            on_update: self.on_update,
        }
    }
}

impl ForeignKeySchema {
    /// Create a new foreign key
    pub fn new(column: &str, references_table: &str, references_column: &str) -> (res: Self)
        ensures
            res@ == (ForeignKeyModel {
                name: None,
                column: column@,
                references_table: references_table@,
                references_column: references_column@,
                on_delete: OnDeleteAction::NoAction,
                on_update: OnUpdateAction::NoAction,
            }),
    {
        ForeignKeySchema {
            name: None,
            column: column.to_owned(),
            references_table: references_table.to_owned(),
            references_column: references_column.to_owned(),
            on_delete: OnDeleteAction::NoAction,
            on_update: OnUpdateAction::NoAction,
        }
    }

    /// Set ON DELETE action
    pub fn on_delete(self, action: OnDeleteAction) -> (res: Self)
        ensures
            res@ == (ForeignKeyModel { on_delete: action, ..self@ }),
    {
        let mut s = self;
        s.on_delete = action;
        s
    }
}

/// ON DELETE actions for foreign keys
#[derive(Debug, Clone, Copy, PartialEq, Eq, Structural)]
pub enum OnDeleteAction {
    NoAction,
    Restrict,
    Cascade,
    SetNull,
    SetDefault,
}

impl Default for OnDeleteAction {
    fn default() -> (res: Self)
        ensures
            res == OnDeleteAction::NoAction,
    {
        OnDeleteAction::NoAction
    }
}

/// The action named by a string, compared case-insensitively.
pub open spec fn on_delete_from_lower(l: Seq<char>) -> OnDeleteAction {
    if l == "cascade"@ {
        OnDeleteAction::Cascade
    } else if l == "restrict"@ {
        OnDeleteAction::Restrict
    } else if l == "setnull"@ || l == "set_null"@ || l == "set null"@ {
        OnDeleteAction::SetNull
    } else if l == "setdefault"@ || l == "set_default"@ || l == "set default"@ {
        OnDeleteAction::SetDefault
    } else {
        OnDeleteAction::NoAction
    }
}

pub fn on_delete_from_chars(s: &[char]) -> (res: OnDeleteAction)
    ensures
        res == on_delete_from_lower(spec_lowercase(s@)),
        crate::text::all_ascii(s@) ==> res == on_delete_from_lower(
            s@.map_values(|c: char| crate::text::ascii_lower(c)),
        ),
{
    let l = to_lowercase_chars(s);
    if chars_eq(&l, &chars_of("cascade")) {
        OnDeleteAction::Cascade
    } else if chars_eq(&l, &chars_of("restrict")) {
        OnDeleteAction::Restrict
    } else if chars_eq(&l, &chars_of("setnull")) || chars_eq(&l, &chars_of("set_null"))
        || chars_eq(&l, &chars_of("set null")) {
        OnDeleteAction::SetNull
    } else if chars_eq(&l, &chars_of("setdefault")) || chars_eq(&l, &chars_of("set_default"))
        || chars_eq(&l, &chars_of("set default")) {
        OnDeleteAction::SetDefault
    } else {
        OnDeleteAction::NoAction
    }
}

impl OnDeleteAction {
    /// Parse from string (case-insensitive)
    pub fn from_str(s: &str) -> (res: Self)
        ensures
            res == on_delete_from_lower(spec_lowercase(s@)),
            crate::text::all_ascii(s@) ==> res == on_delete_from_lower(
                s@.map_values(|c: char| crate::text::ascii_lower(c)),
            ),
    {
        let cs = chars_of(s);
        on_delete_from_chars(&cs)
    }
}

/// ON UPDATE actions for foreign keys
#[derive(Debug, Clone, Copy, PartialEq, Eq, Structural)]
pub enum OnUpdateAction {
    NoAction,
    Restrict,
    Cascade,
    SetNull,
    SetDefault,
}

impl Default for OnUpdateAction {
    fn default() -> (res: Self)
        ensures
            res == OnUpdateAction::NoAction,
    {
        OnUpdateAction::NoAction
    }
}

// ---------------------------------------------------------------------------
// Migration metadata and deltas
// ---------------------------------------------------------------------------

/// Migration metadata
#[derive(Debug)]
pub struct MigrationMeta {
    /// Migration ID (matches filename without extension)
    pub id: String,
    /// Migration this one depends on (for ordering)
    pub after: Option<String>,
    /// Tables defined or modified in this migration
    pub tables: Vec<TableSchema>,
    /// Data migration function name (if any)
    pub data_migration: Option<String>,
}

impl View for MigrationMeta {
    type V = MigrationMetaModel;

    open spec fn view(&self) -> MigrationMetaModel {
        MigrationMetaModel {
            id: self.id@,
            after: opt_str_view(self.after),
            tables: self.tables@.map_values(|t: TableSchema| t@),
            data_migration: opt_str_view(self.data_migration),
        }
    }
}

impl MigrationMeta {
    /// Create a new migration
    pub fn new(id: &str) -> (res: Self)
        ensures
            res@ == (MigrationMetaModel {
                id: id@,
                after: None,
                tables: Seq::empty(),
                data_migration: None,
            }),
    {
        let res = MigrationMeta {
            id: id.to_owned(),
            after: None,
            tables: Vec::new(),
            data_migration: None,
        };
        proof {
            assert(res@.tables =~= Seq::empty());
        }
        res
    }

    /// Set the dependency
    pub fn after(self, after: &str) -> (res: Self)
        ensures
            res@ == (MigrationMetaModel { after: Some(after@), ..self@ }),
    {
        let mut s = self;
        s.after = Some(after.to_owned());
        s
    }

    /// Add a table schema
    pub fn add_table(&mut self, table: TableSchema)
        ensures
            final(self)@ == (MigrationMetaModel { tables: old(self)@.tables.push(table@), ..old(self)@ }),
    {
        let ghost t = table@;
        self.tables.push(table);
        proof {
            assert(self@.tables =~= old(self)@.tables.push(t));
        }
    }
}

/// Schema delta for a table (used in extends migrations)
#[derive(Debug)]
pub struct TableDelta {
    /// Table name
    pub table: String,
    /// Base migration this extends
    pub extends: String,
    /// Columns to add
    pub add_columns: Vec<ColumnSchema>,
    /// Columns to drop (by name)
    pub drop_columns: Vec<String>,
    /// Column renames (from -> to)
    pub rename_columns: Vec<(String, String)>,
    /// Column modifications
    pub alter_columns: Vec<ColumnSchema>,
}

// ---------------------------------------------------------------------------
// Copies
// ---------------------------------------------------------------------------

pub fn clone_opt_str(o: &Option<String>) -> (res: Option<String>)
    ensures
        opt_str_view(res) == opt_str_view(*o),
{
    match o {
        Some(s) => Some(s.clone()),
        None => None,
    }
}

pub fn clone_strs(v: &Vec<String>) -> (res: Vec<String>)
    ensures
        strs_view(res@) == strs_view(v@),
{
    let mut res: Vec<String> = Vec::new();
    let mut i: usize = 0;
    while i < v.len()
        invariant
            i <= v@.len(),
            res@.len() == i,
            forall|k: int| 0 <= k < i ==> (#[trigger] res@[k])@ == v@[k]@,
        decreases v@.len() - i,
    {
        res.push(v[i].clone());
        i = i + 1;
    }
    proof {
        assert(strs_view(res@) =~= strs_view(v@));
    }
    res
}

impl Clone for ColumnSchema {
    fn clone(&self) -> (res: Self)
        ensures
            res@ == self@,
    {
        ColumnSchema {
            name: self.name.clone(),
            column_type: self.column_type.clone(),
            nullable: self.nullable,
            default: clone_opt_str(&self.default),
            unique: self.unique,
            primary_key: self.primary_key,
            auto_increment: self.auto_increment,
            indexed: self.indexed,
            index_name: clone_opt_str(&self.index_name),
            max_length: self.max_length,
            min_length: self.min_length,
            range: match &self.range {
                Some(r) => Some(r.clone()),
                None => None,
            },
            soft_delete: self.soft_delete,
            renamed_from: clone_opt_str(&self.renamed_from),
            dropped: self.dropped,
        }
    }
}

impl Clone for IndexSchema {
    fn clone(&self) -> (res: Self)
        ensures
            res@ == self@,
    {
        IndexSchema { name: self.name.clone(), columns: clone_strs(&self.columns), unique: self.unique }
    }
}

impl Clone for ForeignKeySchema {
    fn clone(&self) -> (res: Self)
        ensures
            res@ == self@,
    {
        ForeignKeySchema {
            name: clone_opt_str(&self.name),
            column: self.column.clone(),
            references_table: self.references_table.clone(),
            references_column: self.references_column.clone(),
            on_delete: self.on_delete,
            on_update: self.on_update,
        }
    }
}

pub fn clone_columns(v: &Vec<ColumnSchema>) -> (res: Vec<ColumnSchema>)
    ensures
        res@.map_values(|c: ColumnSchema| c@) == v@.map_values(|c: ColumnSchema| c@),
{
    let mut res: Vec<ColumnSchema> = Vec::new();
    let mut i: usize = 0;
    while i < v.len()
        invariant
            i <= v@.len(),
            res@.len() == i,
            forall|k: int| 0 <= k < i ==> (#[trigger] res@[k])@ == v@[k]@,
        decreases v@.len() - i,
    {
        res.push(v[i].clone());
        i = i + 1;
    }
    proof {
        assert(res@.map_values(|c: ColumnSchema| c@) =~= v@.map_values(|c: ColumnSchema| c@));
    }
    res
}

pub fn clone_indexes(v: &Vec<IndexSchema>) -> (res: Vec<IndexSchema>)
    ensures
        res@.map_values(|c: IndexSchema| c@) == v@.map_values(|c: IndexSchema| c@),
{
    let mut res: Vec<IndexSchema> = Vec::new();
    let mut i: usize = 0;
    while i < v.len()
        invariant
            i <= v@.len(),
            res@.len() == i,
            forall|k: int| 0 <= k < i ==> (#[trigger] res@[k])@ == v@[k]@,
        decreases v@.len() - i,
    {
        res.push(v[i].clone());
        i = i + 1;
    }
    proof {
        assert(res@.map_values(|c: IndexSchema| c@) =~= v@.map_values(|c: IndexSchema| c@));
    }
    res
}

pub fn clone_foreign_keys(v: &Vec<ForeignKeySchema>) -> (res: Vec<ForeignKeySchema>)
    ensures
        res@.map_values(|c: ForeignKeySchema| c@) == v@.map_values(|c: ForeignKeySchema| c@),
{
    let mut res: Vec<ForeignKeySchema> = Vec::new();
    let mut i: usize = 0;
    while i < v.len()
        invariant
            i <= v@.len(),
            res@.len() == i,
            forall|k: int| 0 <= k < i ==> (#[trigger] res@[k])@ == v@[k]@,
        decreases v@.len() - i,
    {
        res.push(v[i].clone());
        i = i + 1;
    }
    proof {
        assert(res@.map_values(|c: ForeignKeySchema| c@) =~= v@.map_values(
            |c: ForeignKeySchema| c@,
        ));
    }
    res
}

impl Clone for TableSchema {
    fn clone(&self) -> (res: Self)
        ensures
            res@ == self@,
    {
        TableSchema {
            name: self.name.clone(),
            columns: clone_columns(&self.columns),
            indexes: clone_indexes(&self.indexes),
            foreign_keys: clone_foreign_keys(&self.foreign_keys),
            primary_key: clone_strs(&self.primary_key),
            migration_id: clone_opt_str(&self.migration_id),
        }
    }
}

} // verus!
