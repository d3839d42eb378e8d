//! Declarations used by migration files: the settings of a schema snapshot
//! or data migration, and the markers of delta migrations.

use vstd::prelude::*;

use crate::attr_args::{
    arg_pieces, arg_pieces_exec, is_ident, is_ident_exec, literal, literal_exec, piece_of,
    piece_of_exec, texts, Lit, LitModel, Piece, PieceModel,
};
use crate::model_def::{malformed, malformed_text, unknown_attribute, unknown_attribute_text};
use crate::parser::key_is;
use crate::schema::opt_str_view;
use crate::text::{chars_of, string_of};

verus! {

/// Configuration for the `#[ormada_schema]` attribute
#[derive(Debug, Clone)]
pub struct SchemaConfig {
    /// Table name in the database
    pub table_name: String,
    /// Migration ID this schema belongs to
    pub migration_id: Option<String>,
    /// Migration this one depends on (for ordering)
    pub after: Option<String>,
    /// Entity to extend (for delta migrations)
    pub extends: Option<String>,
    /// Whether to include in migrations (default: true)
    pub migrate: bool,
}

impl Default for SchemaConfig {
    fn default() -> (res: Self)
        ensures
            res.table_name@.len() == 0,
            res.migration_id is None,
            res.after is None,
            res.extends is None,
            !res.migrate,
    {
        SchemaConfig { table_name: String::new(), migration_id: None, after: None, extends: None, migrate: false }
    }
}

/// Configuration for the `#[ormada_data_migration]` attribute
#[derive(Debug, Clone)]
pub struct DataMigrationConfig {
    /// Migration ID
    pub migration_id: String,
    /// Migration this depends on
    pub after: Option<String>,
}

impl Default for DataMigrationConfig {
    fn default() -> (res: Self)
        ensures
            res.migration_id@.len() == 0,
            res.after is None,
    {
        DataMigrationConfig { migration_id: String::new(), after: None }
    }
}

pub struct SchemaConfigModel {
    pub table_name: Seq<char>,
    pub migration_id: Option<Seq<char>>,
    pub after: Option<Seq<char>>,
    pub extends: Option<Seq<char>>,
    pub migrate: bool,
}

impl View for SchemaConfig {
    type V = SchemaConfigModel;

    open spec fn view(&self) -> SchemaConfigModel {
        SchemaConfigModel {
            table_name: self.table_name@,
            migration_id: opt_str_view(self.migration_id),
            after: opt_str_view(self.after),
            extends: opt_str_view(self.extends),
            migrate: self.migrate,
        }
    }
}

/// The settings before any argument is read: no table, included in migrations.
pub open spec fn initial_schema_config() -> SchemaConfigModel {
    SchemaConfigModel { table_name: Seq::empty(), migration_id: None, after: None, extends: None, migrate: true }
}

/// The settings read from the pieces from `i` on: `table`, `migration` and
/// `after` take a string literal, `extends` an identifier, `migrate` a
/// boolean literal; another key is refused by name.
pub open spec fn schema_args(ps: Seq<Seq<char>>, i: int, c: SchemaConfigModel) -> Result<SchemaConfigModel, Seq<char>>
    decreases ps.len() - i,
{
    if i < 0 || i >= ps.len() {
        Ok(c)
    } else if ps[i].len() == 0 {
        if i == ps.len() - 1 {
            Ok(c)
        } else {
            Err(malformed_text())
        }
    } else {
        match piece_of(ps[i]) {
            PieceModel::Pair(k, v) => if !is_ident(k) {
                Err(malformed_text())
            } else if k == "table"@ || k == "migration"@ || k == "after"@ {
                match literal(v) {
                    Some(LitModel::Str(x)) => if k == "table"@ {
                        schema_args(ps, i + 1, SchemaConfigModel { table_name: x, ..c })
                    } else if k == "migration"@ {
                        schema_args(ps, i + 1, SchemaConfigModel { migration_id: Some(x), ..c })
                    } else {
                        schema_args(ps, i + 1, SchemaConfigModel { after: Some(x), ..c })
                    },
                    _ => Err(malformed_text()),
                }
            } else if k == "extends"@ {
                if is_ident(v) {
                    schema_args(ps, i + 1, SchemaConfigModel { extends: Some(v), ..c })
                } else {
                    Err(malformed_text())
                }
            } else if k == "migrate"@ {
                match literal(v) {
                    Some(LitModel::Bool(b)) => schema_args(ps, i + 1, SchemaConfigModel { migrate: b, ..c }),
                    _ => Err(malformed_text()),
                }
            } else {
                Err(unknown_attribute_text(k))
            },
            PieceModel::Bare(_) => Err(malformed_text()),
        }
    }
}

/// The settings of `#[ormada_schema(..)]`: a non-empty table is required.
pub open spec fn schema_config_of(t: Seq<char>) -> Result<SchemaConfigModel, Seq<char>> {
    match schema_args(arg_pieces(t), 0, initial_schema_config()) {
        Err(e) => Err(e),
        Ok(c) => if c.table_name.len() == 0 {
            Err("Missing required 'table' attribute"@)
        } else {
            Ok(c)
        },
    }
}

/// Parse the arguments of `#[ormada_schema(..)]`
pub fn parse_schema_config(args: &str) -> (res: Result<SchemaConfig, String>)
    ensures
        match (res, schema_config_of(args@)) {
            (Ok(c), Ok(m)) => c@ == m,
            (Err(e), Err(m)) => e@ == m,
            _ => false,
        },
{
    let tc = chars_of(args);
    let ps = arg_pieces_exec(&tc);
    let ghost m = texts(ps@);
    proof {
        assert(m =~= arg_pieces(args@));
    }
    let mut c = SchemaConfig { table_name: String::new(), migration_id: None, after: None, extends: None, migrate: true };
    proof {
        assert(c@ == initial_schema_config());
    }
    let mut i: usize = 0;
    while i < ps.len()
        invariant
            m == texts(ps@),
            m == arg_pieces(args@),
            i <= ps@.len(),
            schema_args(m, 0, initial_schema_config()) == schema_args(m, i as int, c@),
        decreases ps@.len() - i,
    {
        let p = &ps[i];
        proof {
            assert(m[i as int] == p@);
        }
        if p.len() == 0 {
            if i + 1 == ps.len() {
                i = i + 1;
                continue;
            }
            return Err(malformed());
        }
        match piece_of_exec(p) {
            Piece::Pair(k, v) => {
                if !is_ident_exec(&k) {
                    return Err(malformed());
                }
                if key_is(&k, "table") || key_is(&k, "migration") || key_is(&k, "after") {
                    match literal_exec(&v) {
                        Some(Lit::Str(x)) => {
                            if key_is(&k, "table") {
                                c.table_name = string_of(&x);
                            } else if key_is(&k, "migration") {
                                c.migration_id = Some(string_of(&x));
                            } else {
                                c.after = Some(string_of(&x));
                            }
                        },
                        _ => {
                            return Err(malformed());
                        },
                    }
                } else if key_is(&k, "extends") {
                    if is_ident_exec(&v) {
                        c.extends = Some(string_of(&v));
                    } else {
                        return Err(malformed());
                    }
                } else if key_is(&k, "migrate") {
                    match literal_exec(&v) {
                        Some(Lit::Bool(b)) => {
                            c.migrate = b;
                        },
                        _ => {
                            return Err(malformed());
                        },
                    }
                } else {
                    return Err(unknown_attribute(&k));
                }
            },
            Piece::Bare(_) => {
                return Err(malformed());
            },
        }
        i = i + 1;
    }
    if chars_of(c.table_name.as_str()).len() == 0 {
        return Err(String::from_str("Missing required 'table' attribute"));
    }
    Ok(c)
}

pub struct DataMigrationConfigModel {
    pub migration_id: Seq<char>,
    pub after: Option<Seq<char>>,
}

impl View for DataMigrationConfig {
    type V = DataMigrationConfigModel;

    open spec fn view(&self) -> DataMigrationConfigModel {
        DataMigrationConfigModel { migration_id: self.migration_id@, after: opt_str_view(self.after) }
    }
}

/// The settings read from the pieces from `i` on: `migration` and `after`
/// take a string literal; another key is refused by name.
pub open spec fn data_migration_args(ps: Seq<Seq<char>>, i: int, c: DataMigrationConfigModel) -> Result<DataMigrationConfigModel, Seq<char>>
    decreases ps.len() - i,
{
    if i < 0 || i >= ps.len() {
        Ok(c)
    } else if ps[i].len() == 0 {
        if i == ps.len() - 1 {
            Ok(c)
        } else {
            Err(malformed_text())
        }
    } else {
        match piece_of(ps[i]) {
            PieceModel::Pair(k, v) => if !is_ident(k) {
                Err(malformed_text())
            } else if k == "migration"@ || k == "after"@ {
                match literal(v) {
                    Some(LitModel::Str(x)) => if k == "migration"@ {
                        data_migration_args(ps, i + 1, DataMigrationConfigModel { migration_id: x, ..c })
                    } else {
                        data_migration_args(ps, i + 1, DataMigrationConfigModel { after: Some(x), ..c })
                    },
                    _ => Err(malformed_text()),
                }
            } else {
                Err(unknown_attribute_text(k))
            },
            PieceModel::Bare(_) => Err(malformed_text()),
        }
    }
}

/// The settings of `#[ormada_data_migration(..)]`: a non-empty migration id
/// is required.
pub open spec fn data_migration_config_of(t: Seq<char>) -> Result<DataMigrationConfigModel, Seq<char>> {
    match data_migration_args(arg_pieces(t), 0, DataMigrationConfigModel { migration_id: Seq::empty(), after: None }) {
        Err(e) => Err(e),
        Ok(c) => if c.migration_id.len() == 0 {
            Err("Missing required 'migration' attribute"@)
        } else {
            Ok(c)
        },
    }
}

/// Parse the arguments of `#[ormada_data_migration(..)]`
pub fn parse_data_migration_config(args: &str) -> (res: Result<DataMigrationConfig, String>)
    ensures
        match (res, data_migration_config_of(args@)) {
            (Ok(c), Ok(m)) => c@ == m,
            (Err(e), Err(m)) => e@ == m,
            _ => false,
        },
{
    let tc = chars_of(args);
    let ps = arg_pieces_exec(&tc);
    let ghost m = texts(ps@);
    proof {
        assert(m =~= arg_pieces(args@));
    }
    let mut c = DataMigrationConfig { migration_id: String::new(), after: None };
    let ghost init = c@;
    proof {
        assert(init == DataMigrationConfigModel { migration_id: Seq::empty(), after: None });
    }
    let mut i: usize = 0;
    while i < ps.len()
        invariant
            m == texts(ps@),
            m == arg_pieces(args@),
            init == (DataMigrationConfigModel { migration_id: Seq::empty(), after: None }),
            i <= ps@.len(),
            data_migration_args(m, 0, init) == data_migration_args(m, i as int, c@),
        decreases ps@.len() - i,
    {
        let p = &ps[i];
        proof {
            assert(m[i as int] == p@);
        }
        if p.len() == 0 {
            if i + 1 == ps.len() {
                i = i + 1;
                continue;
            }
            return Err(malformed());
        }
        match piece_of_exec(p) {
            Piece::Pair(k, v) => {
                if !is_ident_exec(&k) {
                    return Err(malformed());
                }
                if key_is(&k, "migration") || key_is(&k, "after") {
                    match literal_exec(&v) {
                        Some(Lit::Str(x)) => {
                            if key_is(&k, "migration") {
                                c.migration_id = string_of(&x);
                            } else {
                                c.after = Some(string_of(&x));
                            }
                        },
                        _ => {
                            return Err(malformed());
                        },
                    }
                } else {
                    return Err(unknown_attribute(&k));
                }
            },
            Piece::Bare(_) => {
                return Err(malformed());
            },
        }
        i = i + 1;
    }
    if chars_of(c.migration_id.as_str()).len() == 0 {
        return Err(String::from_str("Missing required 'migration' attribute"));
    }
    Ok(c)
}

/// What a schema snapshot's field attributes mark it as.
#[derive(Clone, Copy, Debug, Default, PartialEq, Eq, Structural)]
pub struct SchemaFieldConfig {
    pub primary_key: bool,
    pub foreign_key: bool,
    pub indexed: bool,
    pub unique: bool,
    pub nullable: bool,
    pub has_max_length: bool,
    pub has_default: bool,
    pub soft_delete: bool,
    pub is_rename: bool,
    pub is_drop: bool,
}

/// One attribute applied: each of the schema attributes sets its mark.
pub open spec fn schema_field_step(c: SchemaFieldConfig, a: crate::parser::AttrModel) -> SchemaFieldConfig {
    match a.name {
        None => c,
        Some(n) => if n == "primary_key"@ {
            SchemaFieldConfig { primary_key: true, ..c }
        } else if n == "foreign_key"@ {
            SchemaFieldConfig { foreign_key: true, ..c }
        } else if n == "index"@ {
            SchemaFieldConfig { indexed: true, ..c }
        } else if n == "unique"@ {
            SchemaFieldConfig { unique: true, ..c }
        } else if n == "nullable"@ {
            SchemaFieldConfig { nullable: true, ..c }
        } else if n == "max_length"@ {
            SchemaFieldConfig { has_max_length: true, ..c }
        } else if n == "default"@ {
            SchemaFieldConfig { has_default: true, ..c }
        } else if n == "soft_delete"@ {
            SchemaFieldConfig { soft_delete: true, ..c }
        } else if n == "rename"@ {
            SchemaFieldConfig { is_rename: true, ..c }
        } else if n == "drop"@ {
            SchemaFieldConfig { is_drop: true, ..c }
        } else {
            c
        },
    }
}

pub open spec fn schema_field_from(attrs: Seq<crate::parser::AttrModel>, n: int) -> SchemaFieldConfig
    decreases n,
{
    if n <= 0 {
        SchemaFieldConfig {
            primary_key: false,
            foreign_key: false,
            indexed: false,
            unique: false,
            nullable: false,
            has_max_length: false,
            has_default: false,
            soft_delete: false,
            is_rename: false,
            is_drop: false,
        }
    } else {
        schema_field_step(schema_field_from(attrs, n - 1), attrs[n - 1])
    }
}

/// Parse field attributes for schema definition
/// Returns attributes that affect schema (primary_key, foreign_key, index, etc.)
pub fn parse_schema_field_attrs(attrs: &[crate::parser::AttrInfo]) -> (res: SchemaFieldConfig)
    ensures
        res == schema_field_from(crate::parser::attr_views(attrs@), attrs@.len() as int),
{
    let ghost av = crate::parser::attr_views(attrs@);
    let mut c = SchemaFieldConfig {
        primary_key: false,
        foreign_key: false,
        indexed: false,
        unique: false,
        nullable: false,
        has_max_length: false,
        has_default: false,
        soft_delete: false,
        is_rename: false,
        is_drop: false,
    };
    let mut i: usize = 0;
    while i < attrs.len()
        invariant
            av == crate::parser::attr_views(attrs@),
            i <= attrs@.len(),
            c == schema_field_from(av, i as int),
        decreases attrs@.len() - i,
    {
        let a = &attrs[i];
        proof {
            assert(av[i as int] == a@);
        }
        if crate::parser::attr_name_is(a, "primary_key") {
            c.primary_key = true;
        } else if crate::parser::attr_name_is(a, "foreign_key") {
            c.foreign_key = true;
        } else if crate::parser::attr_name_is(a, "index") {
            c.indexed = true;
        } else if crate::parser::attr_name_is(a, "unique") {
            c.unique = true;
        } else if crate::parser::attr_name_is(a, "nullable") {
            c.nullable = true;
        } else if crate::parser::attr_name_is(a, "max_length") {
            c.has_max_length = true;
        } else if crate::parser::attr_name_is(a, "default") {
            c.has_default = true;
        } else if crate::parser::attr_name_is(a, "soft_delete") {
            c.soft_delete = true;
        } else if crate::parser::attr_name_is(a, "rename") {
            c.is_rename = true;
        } else if crate::parser::attr_name_is(a, "drop") {
            c.is_drop = true;
        }
        i = i + 1;
    }
    c
}

/// Marker attribute for columns that should be dropped
pub struct Drop;

/// Marker attribute for column renames
pub struct Rename {
    /// Original column name
    pub from: &'static str,
    /// New column name
    pub to: &'static str,
}

} // verus!
