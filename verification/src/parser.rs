//! Source file parsing for Ormada models and schemas
//!
//! Rust source is parsed with `syn`; each struct is then read as plain text:
//! its attributes as token strings and its fields as name, type text and
//! attributes. Structs marked `#[ormada_model]` or `#[ormada_schema]` become
//! table schemas.

use vstd::prelude::*;

use crate::schema::{
    ColumnModel, ColumnSchema, ColumnType, ForeignKeyModel, ForeignKeySchema, OnDeleteAction,
    RangeConstraint, TableModel, TableSchema, on_delete_from_lower, rust_type_column,
};
use crate::text::{
    after_last, after_last_chars, chars_eq, chars_of, contains, find, find_char, has_prefix, has_sub,
    lemma_index_from_bounds, lemma_rindex_bounds, matches_at, parse_i64, parse_i64_chars, rfind,
    rfind_char, slice_chars, spec_lowercase, split, split_char, split_once, split_once_char,
    str_eq, string_of, strip, strip_end, trim, trim_chars, trim_end_set, trim_set, CharSet,
};

verus! {

// ---------------------------------------------------------------------------
// Reading attribute arguments from their token text
// ---------------------------------------------------------------------------

/// `trim_matches('"')`: leading and trailing double quotes removed.
pub open spec fn unquote(s: Seq<char>) -> Seq<char> {
    strip(s, CharSet::Only('"'))
}

/// `trim_start_matches(p)`: every leading repetition of `p` removed.
pub open spec fn strip_prefix_all(s: Seq<char>, p: Seq<char>) -> Seq<char>
    decreases s.len(),
{
    if p.len() > 0 && has_prefix(s, p) {
        strip_prefix_all(s.subrange(p.len() as int, s.len() as int), p)
    } else {
        s
    }
}

fn strip_prefix_all_chars(s: &[char], p: &str) -> (res: Vec<char>)
    ensures
        res@ == strip_prefix_all(s@, p@),
{
    let pc = chars_of(p);
    let n = s.len();
    let mut i: usize = 0;
    proof {
        assert(s@.subrange(0, n as int) =~= s@);
    }
    if pc.len() == 0 {
        return slice_chars(s, 0, n);
    }
    while matches_at(s, &pc, i)
        invariant
            pc@ == p@,
            pc@.len() > 0,
            n == s@.len(),
            i <= n,
            strip_prefix_all(s@, p@) == strip_prefix_all(s@.subrange(i as int, n as int), p@),
        decreases n - i,
    {
        proof {
            let rest = s@.subrange(i as int, n as int);
            assert(rest.subrange(0, p@.len() as int) =~= s@.subrange(i as int, i + p@.len()));
            assert(has_prefix(rest, p@));
            assert(rest.subrange(p@.len() as int, rest.len() as int) =~= s@.subrange(i + p@.len(), n as int));
        }
        i = i + pc.len();
    }
    proof {
        let rest = s@.subrange(i as int, n as int);
        if has_prefix(rest, p@) {
            assert(rest.subrange(0, p@.len() as int) =~= s@.subrange(i as int, i + p@.len()));
        }
    }
    slice_chars(s, i, n)
}

/// Whether the attribute text contains `key = value` or `key=value`.
pub open spec fn attr_has_arg(tokens: Seq<char>, key: Seq<char>, value: Seq<char>) -> bool {
    has_sub(tokens, key + " = "@ + value) || has_sub(tokens, key + "="@ + value)
}

/// Check if attribute has a specific argument with a value
pub fn has_attr_arg(tokens: &str, key: &str, value: &str) -> (res: bool)
    ensures
        res == attr_has_arg(tokens@, key@, value@),
{
    let t = chars_of(tokens);
    let mut a: Vec<char> = chars_of(key);
    let eq1 = chars_of(" = ");
    let v = chars_of(value);
    crate::text::extend_chars(&mut a, &eq1);
    crate::text::extend_chars(&mut a, &v);
    let mut b: Vec<char> = chars_of(key);
    let eq2 = chars_of("=");
    crate::text::extend_chars(&mut b, &eq2);
    crate::text::extend_chars(&mut b, &v);
    contains(&t, &a) || contains(&t, &b)
}

/// The value of the first `key = value` piece among the comma-separated
/// pieces from index `i` on, unquoted.
pub open spec fn string_arg_from(parts: Seq<Seq<char>>, key: Seq<char>, i: int) -> Option<Seq<char>>
    decreases parts.len() - i,
{
    if i < 0 || i >= parts.len() {
        None
    } else {
        match split_once(trim(parts[i]), '=') {
            Some((k, v)) => if trim(k) == key {
                Some(unquote(trim(v)))
            } else {
                string_arg_from(parts, key, i + 1)
            },
            None => string_arg_from(parts, key, i + 1),
        }
    }
}

/// The string argument `key` of an attribute's text.
pub open spec fn string_arg(tokens: Seq<char>, key: Seq<char>) -> Option<Seq<char>> {
    string_arg_from(split(tokens, ','), key, 0)
}

/// Get string argument from attribute
pub fn get_attr_string_arg(tokens: &str, key: &str) -> (res: Option<String>)
    ensures
        match res {
            Some(s) => string_arg(tokens@, key@) == Some(s@),
            None => string_arg(tokens@, key@) is None,
        },
{
    let t = chars_of(tokens);
    let k = chars_of(key);
    let parts = split_char(&t, ',');
    let ghost ps = split(tokens@, ',');
    let mut i: usize = 0;
    while i < parts.len()
        invariant
            parts@.len() == ps.len(),
            ps == split(tokens@, ','),
            forall|j: int| 0 <= j < parts@.len() ==> #[trigger] parts@[j]@ == ps[j],
            k@ == key@,
            i <= parts@.len(),
            string_arg(tokens@, key@) == string_arg_from(ps, key@, i as int),
        decreases parts@.len() - i,
    {
        let part = trim_chars(&parts[i]);
        match split_once_char(&part, '=') {
            Some((kk, v)) => {
                let kt = trim_chars(&kk);
                if chars_eq(&kt, &k) {
                    let vt = trim_chars(&v);
                    let u = trim_set(&vt, CharSet::Only('"'));
                    return Some(string_of(&u));
                }
            },
            None => {},
        }
        i = i + 1;
    }
    None
}

/// The first `(` comes no later than the first `)`, when both occur.
pub open spec fn first_parens_ordered(t: Seq<char>) -> bool {
    find(t, '(') < 0 || find(t, ')') < 0 || find(t, '(') + 1 <= find(t, ')')
}

/// The first `(` comes before the last `)`, when both occur.
pub open spec fn outer_parens_ordered(t: Seq<char>) -> bool {
    find(t, '(') < 0 || rfind(t, ')') < 0 || find(t, '(') + 1 <= rfind(t, ')')
}

/// The integer between the first `(` and the first `)`: `#[max_length(200)]`.
pub open spec fn int_arg(t: Seq<char>) -> Option<i64> {
    let s = find(t, '(');
    let e = find(t, ')');
    if s < 0 || e < 0 {
        None
    } else {
        parse_i64(trim(t.subrange(s + 1, e)))
    }
}

/// Get integer argument from attribute (for #[max_length(200)])
pub fn get_attr_int_arg(tokens: &str) -> (res: Option<i64>)
    requires
        first_parens_ordered(tokens@),
    ensures
        res == int_arg(tokens@),
{
    let t = chars_of(tokens);
    proof {
        lemma_index_from_bounds(t@, '(', 0);
        lemma_index_from_bounds(t@, ')', 0);
    }
    match find_char(&t, '(') {
        Some(start) => match find_char(&t, ')') {
            Some(end) => {
                let inner = slice_chars(&t, start + 1, end);
                let it = trim_chars(&inner);
                parse_i64_chars(&it)
            },
            None => None,
        },
        None => None,
    }
}

/// The text between the first `(` and the last `)`, trimmed and unquoted:
/// `#[default("now()")]`.
pub open spec fn value_arg(t: Seq<char>) -> Option<Seq<char>> {
    let s = find(t, '(');
    let e = rfind(t, ')');
    if s < 0 || e < 0 {
        None
    } else {
        Some(unquote(trim(t.subrange(s + 1, e))))
    }
}

/// Get value argument from attribute
pub fn get_attr_value_arg(tokens: &str) -> (res: Option<String>)
    requires
        outer_parens_ordered(tokens@),
    ensures
        match res {
            Some(s) => value_arg(tokens@) == Some(s@),
            None => value_arg(tokens@) is None,
        },
{
    let t = chars_of(tokens);
    proof {
        lemma_index_from_bounds(t@, '(', 0);
        lemma_rindex_bounds(t@, ')', t@.len() as int);
    }
    match find_char(&t, '(') {
        Some(start) => match rfind_char(&t, ')') {
            Some(end) => {
                let inner = slice_chars(&t, start + 1, end);
                let it = trim_chars(&inner);
                let u = trim_set(&it, CharSet::Only('"'));
                Some(string_of(&u))
            },
            None => None,
        },
        None => None,
    }
}

// ---------------------------------------------------------------------------
// Foreign keys and ranges
// ---------------------------------------------------------------------------

/// What `heck::ToSnakeCase::to_snake_case` returns for a text.
pub uninterp spec fn spec_snake_case(s: Seq<char>) -> Seq<char>;

/// `heck::ToSnakeCase::to_snake_case` on a string slice. Claimed: the result is
/// `spec_snake_case` of the input.
#[verifier::external_body]
fn heck_snake_case(s: &str) -> (res: String)
    ensures
        res@ == spec_snake_case(s@),
{
    heck::ToSnakeCase::to_snake_case(s)
}

/// What `inflector::Inflector::to_plural` returns for a text.
pub uninterp spec fn spec_plural(s: Seq<char>) -> Seq<char>;

/// `inflector::Inflector::to_plural` on a string slice. Claimed: the result is
/// `spec_plural` of the input.
#[verifier::external_body]
fn inflector_plural(s: &str) -> (res: String)
    ensures
        res@ == spec_plural(s@),
{
    inflector::Inflector::to_plural(s)
}

/// The table name of an entity: its name in snake case, pluralized.
pub open spec fn table_name_of(entity: Seq<char>) -> Seq<char> {
    spec_plural(spec_snake_case(entity))
}

/// Convert PascalCase entity name to snake_case table name (pluralized)
pub fn to_table_name(entity: &str) -> (res: String)
    ensures
        res@ == table_name_of(entity@),
{
    let snake = heck_snake_case(entity);
    inflector_plural(snake.as_str())
}

/// The `on_delete = ...` setting among the pieces from index `i` on; the last
/// one given wins, and `acc` stands when there is none.
pub open spec fn on_delete_from(parts: Seq<Seq<char>>, i: int, acc: OnDeleteAction) -> OnDeleteAction
    decreases parts.len() - i,
{
    if i < 0 || i >= parts.len() {
        acc
    } else {
        match split_once(trim(parts[i]), '=') {
            Some((k, v)) => if trim(k) == "on_delete"@ {
                on_delete_from(parts, i + 1, on_delete_from_lower(spec_lowercase(trim(v))))
            } else {
                on_delete_from(parts, i + 1, acc)
            },
            None => on_delete_from(parts, i + 1, acc),
        }
    }
}

/// `#[foreign_key(Entity)]` or `#[foreign_key(path::Entity, on_delete = Cascade)]`:
/// the referenced table (the entity's last path segment as a table name) and
/// the deletion behaviour (no action unless given).
pub open spec fn fk_attr(t: Seq<char>) -> Option<(Seq<char>, OnDeleteAction)> {
    let s = find(t, '(');
    let e = rfind(t, ')');
    if s < 0 || e < 0 {
        None
    } else {
        let parts = split(t.subrange(s + 1, e), ',');
        let entity = trim(after_last(trim(parts[0]), "::"@));
        Some((table_name_of(entity), on_delete_from(parts, 1, OnDeleteAction::NoAction)))
    }
}

proof fn lemma_split_nonempty(s: Seq<char>, c: char)
    ensures
        split(s, c).len() >= 1,
    decreases s.len(),
{
}

/// Parse #[foreign_key(Entity)] or #[foreign_key(Entity, on_delete = Cascade)]
pub fn parse_foreign_key_attr(tokens: &str) -> (res: Option<(String, OnDeleteAction)>)
    requires
        outer_parens_ordered(tokens@),
    ensures
        match res {
            Some((table, action)) => fk_attr(tokens@) == Some((table@, action)),
            None => fk_attr(tokens@) is None,
        },
{
    let t = chars_of(tokens);
    proof {
        lemma_index_from_bounds(t@, '(', 0);
        lemma_rindex_bounds(t@, ')', t@.len() as int);
    }
    let start = match find_char(&t, '(') {
        Some(i) => i,
        None => return None,
    };
    let end = match rfind_char(&t, ')') {
        Some(i) => i,
        None => return None,
    };
    let inner = slice_chars(&t, start + 1, end);
    let parts = split_char(&inner, ',');
    let ghost ps = split(inner@, ',');
    proof {
        lemma_split_nonempty(inner@, ',');
    }
    let first = trim_chars(&parts[0]);
    let sep = chars_of("::");
    let last_segment = after_last_chars(&first, &sep);
    let entity = trim_chars(&last_segment);
    let entity_str = string_of(&entity);
    let table_name = to_table_name(entity_str.as_str());
    let mut on_delete = OnDeleteAction::NoAction;
    let mut i: usize = 1;
    while i < parts.len()
        invariant
            parts@.len() == ps.len(),
            ps == split(inner@, ','),
            forall|j: int| 0 <= j < parts@.len() ==> #[trigger] parts@[j]@ == ps[j],
            1 <= i <= parts@.len(),
            on_delete_from(ps, 1, OnDeleteAction::NoAction) == on_delete_from(ps, i as int, on_delete),
        decreases parts@.len() - i,
    {
        let part = trim_chars(&parts[i]);
        match split_once_char(&part, '=') {
            Some((k, v)) => {
                let kt = trim_chars(&k);
                let key = chars_of("on_delete");
                if chars_eq(&kt, &key) {
                    let vt = trim_chars(&v);
                    let vs = string_of(&vt);
                    on_delete = OnDeleteAction::from_str(vs.as_str());
                }
            },
            None => {},
        }
        i = i + 1;
    }
    Some((table_name, on_delete))
}

/// The key of a `key = value` piece in `#[range(min = 0, max = 100)]`, with
/// a leading `range(` and `(` removed.
pub open spec fn range_key(k: Seq<char>) -> Seq<char> {
    crate::text::strip_start(strip_prefix_all(trim(k), "range("@), CharSet::Only('('))
}

/// The value of a `key = value` piece in a range, with trailing `)` removed.
pub open spec fn range_value(v: Seq<char>) -> Seq<char> {
    strip_end(trim(v), CharSet::Only(')'))
}

/// The `(min, max)` bounds read from the pieces from index `i` on; a later
/// setting replaces an earlier one.
pub open spec fn range_from(parts: Seq<Seq<char>>, i: int, min: Option<i64>, max: Option<i64>) -> (Option<i64>, Option<i64>)
    decreases parts.len() - i,
{
    if i < 0 || i >= parts.len() {
        (min, max)
    } else {
        match split_once(trim(parts[i]), '=') {
            Some((k, v)) => if range_key(k) == "min"@ {
                range_from(parts, i + 1, parse_i64(range_value(v)), max)
            } else if range_key(k) == "max"@ {
                range_from(parts, i + 1, min, parse_i64(range_value(v)))
            } else {
                range_from(parts, i + 1, min, max)
            },
            None => range_from(parts, i + 1, min, max),
        }
    }
}

/// The range constraint of an attribute's text, if it gives a bound.
pub open spec fn range_attr(t: Seq<char>) -> Option<RangeConstraint> {
    let (min, max) = range_from(split(t, ','), 0, None, None);
    if min is Some || max is Some {
        Some(RangeConstraint { min, max })
    } else {
        None
    }
}

/// Parse #[range(min = 0, max = 100)]
pub fn parse_range_attr(tokens: &str) -> (res: Option<RangeConstraint>)
    ensures
        res == range_attr(tokens@),
{
    let t = chars_of(tokens);
    let parts = split_char(&t, ',');
    let ghost ps = split(tokens@, ',');
    let mut min: Option<i64> = None;
    let mut max: Option<i64> = None;
    let mut i: usize = 0;
    while i < parts.len()
        invariant
            parts@.len() == ps.len(),
            ps == split(tokens@, ','),
            forall|j: int| 0 <= j < parts@.len() ==> #[trigger] parts@[j]@ == ps[j],
            i <= parts@.len(),
            range_from(ps, 0, None, None) == range_from(ps, i as int, min, max),
        decreases parts@.len() - i,
    {
        let part = trim_chars(&parts[i]);
        match split_once_char(&part, '=') {
            Some((k, v)) => {
                let kt = trim_chars(&k);
                let k1 = strip_prefix_all_chars(&kt, "range(");
                let key = crate::text::trim_start_set(&k1, CharSet::Only('('));
                let vt = trim_chars(&v);
                let value = trim_end_set(&vt, CharSet::Only(')'));
                let min_key = chars_of("min");
                let max_key = chars_of("max");
                if chars_eq(&key, &min_key) {
                    min = parse_i64_chars(&value);
                } else if chars_eq(&key, &max_key) {
                    max = parse_i64_chars(&value);
                }
            },
            None => {},
        }
        i = i + 1;
    }
    if min.is_some() || max.is_some() {
        Some(RangeConstraint { min, max })
    } else {
        None
    }
}

// ---------------------------------------------------------------------------
// Errors and configuration
// ---------------------------------------------------------------------------

/// Errors that can occur during parsing
#[derive(Debug, Clone)]
pub enum ParseError {
    /// Failed to read file
    IoError(String),
    /// Failed to parse Rust syntax
    SyntaxError { file: String, message: String },
    /// Invalid attribute configuration
    InvalidAttribute { file: String, struct_name: String, message: String },
}

pub enum ParseErrorModel {
    IoError(Seq<char>),
    SyntaxError { file: Seq<char>, message: Seq<char> },
    InvalidAttribute { file: Seq<char>, struct_name: Seq<char>, message: Seq<char> },
}

impl View for ParseError {
    type V = ParseErrorModel;

    open spec fn view(&self) -> ParseErrorModel {
        match self {
            ParseError::IoError(m) => ParseErrorModel::IoError(m@),
            ParseError::SyntaxError { file, message } => ParseErrorModel::SyntaxError {
                file: file@,
                message: message@,
            },
            ParseError::InvalidAttribute { file, struct_name, message } => ParseErrorModel::InvalidAttribute {
                file: file@,
                struct_name: struct_name@,
                message: message@,
            },
        }
    }
}

/// The text of a parse error, as users see it.
pub open spec fn parse_error_text(e: ParseErrorModel) -> Seq<char> {
    match e {
        ParseErrorModel::IoError(m) => "IO error: "@ + m,
        ParseErrorModel::SyntaxError { file, message } => "Syntax error in "@ + file + ": "@ + message,
        ParseErrorModel::InvalidAttribute { file, struct_name, message } => "Invalid attribute on "@
            + struct_name + " in "@ + file + ": "@ + message,
    }
}

impl ParseError {
    /// The error message, as shown to users.
    pub fn message(&self) -> (res: String)
        ensures
            res@ == parse_error_text(self@),
    {
        let mut s = String::new();
        match self {
            ParseError::IoError(m) => {
                crate::text::push_str(&mut s, "IO error: ");
                crate::text::push_str(&mut s, m.as_str());
            },
            ParseError::SyntaxError { file, message } => {
                crate::text::push_str(&mut s, "Syntax error in ");
                crate::text::push_str(&mut s, file.as_str());
                crate::text::push_str(&mut s, ": ");
                crate::text::push_str(&mut s, message.as_str());
            },
            ParseError::InvalidAttribute { file, struct_name, message } => {
                crate::text::push_str(&mut s, "Invalid attribute on ");
                crate::text::push_str(&mut s, struct_name.as_str());
                crate::text::push_str(&mut s, " in ");
                crate::text::push_str(&mut s, file.as_str());
                crate::text::push_str(&mut s, ": ");
                crate::text::push_str(&mut s, message.as_str());
            },
        }
        proof {
            assert(s@ =~= parse_error_text(self@));
        }
        s
    }
}

fn invalid_attribute(file: &str, struct_name: &str, message: &str) -> (res: ParseError)
    ensures
        res@ == (ParseErrorModel::InvalidAttribute { file: file@, struct_name: struct_name@, message: message@ }),
{
    ParseError::InvalidAttribute { file: file.to_owned(), struct_name: struct_name.to_owned(), message: message.to_owned() }
}

/// Configuration for source discovery
#[derive(Debug, Clone)]
pub struct DiscoveryConfig {
    /// Paths to include in scanning
    pub include_paths: Vec<String>,
    /// Paths to exclude from scanning
    pub exclude_paths: Vec<String>,
    /// Skip models with `migrate = false`
    pub skip_non_migratable: bool,
    /// Skip models inside `#[cfg(test)]`
    pub skip_test_models: bool,
}

impl Default for DiscoveryConfig {
    fn default() -> (res: Self)
        ensures
            crate::schema::strs_view(res.include_paths@) == seq!["src"@],
            crate::schema::strs_view(res.exclude_paths@) == seq!["tests"@, "examples"@, "benches"@],
            res.skip_non_migratable,
            res.skip_test_models,
    {
        let mut include_paths: Vec<String> = Vec::new();
        include_paths.push("src".to_owned());
        let mut exclude_paths: Vec<String> = Vec::new();
        exclude_paths.push("tests".to_owned());
        exclude_paths.push("examples".to_owned());
        exclude_paths.push("benches".to_owned());
        let res = DiscoveryConfig { include_paths, exclude_paths, skip_non_migratable: true, skip_test_models: true };
        proof {
            assert(crate::schema::strs_view(res.include_paths@) =~= seq!["src"@]);
            assert(crate::schema::strs_view(res.exclude_paths@) =~= seq!["tests"@, "examples"@, "benches"@]);
        }
        res
    }
}

// ---------------------------------------------------------------------------
// The model attribute
// ---------------------------------------------------------------------------

/// Parsed model/schema attribute configuration
#[derive(Debug)]
pub struct ModelAttrConfig {
    pub table_name: String,
    pub migration_id: Option<String>,
    pub after: Option<String>,
    pub extends: Option<String>,
    pub migrate: bool,
}

pub struct ModelAttrModel {
    pub table_name: Seq<char>,
    pub migration_id: Option<Seq<char>>,
    pub after: Option<Seq<char>>,
    pub extends: Option<Seq<char>>,
    pub migrate: bool,
}

impl View for ModelAttrConfig {
    type V = ModelAttrModel;

    open spec fn view(&self) -> ModelAttrModel {
        ModelAttrModel {
            table_name: self.table_name@,
            migration_id: crate::schema::opt_str_view(self.migration_id),
            after: crate::schema::opt_str_view(self.after),
            extends: crate::schema::opt_str_view(self.extends),
            migrate: self.migrate,
        }
    }
}

/// The settings read from the `key = value` pieces from index `i` on; later
/// pieces override earlier ones, unknown keys are ignored.
pub open spec fn model_attr_from(parts: Seq<Seq<char>>, i: int, c: ModelAttrModel) -> ModelAttrModel
    decreases parts.len() - i,
{
    if i < 0 || i >= parts.len() {
        c
    } else {
        match split_once(trim(parts[i]), '=') {
            Some((k, v)) => {
                let key = trim(k);
                let value = unquote(trim(v));
                let c2 = if key == "table"@ {
                    ModelAttrModel { table_name: value, ..c }
                } else if key == "migration"@ {
                    ModelAttrModel { migration_id: Some(value), ..c }
                } else if key == "after"@ {
                    ModelAttrModel { after: Some(value), ..c }
                } else if key == "extends"@ {
                    ModelAttrModel { extends: Some(value), ..c }
                } else if key == "migrate"@ {
                    ModelAttrModel { migrate: value != "false"@, ..c }
                } else {
                    c
                };
                model_attr_from(parts, i + 1, c2)
            },
            None => model_attr_from(parts, i + 1, c),
        }
    }
}

pub open spec fn default_model_attr() -> ModelAttrModel {
    ModelAttrModel { table_name: Seq::empty(), migration_id: None, after: None, extends: None, migrate: true }
}

/// The outcome of reading a model attribute whose arguments are `list_tokens`
/// (none when the attribute has no argument list).
pub open spec fn model_attr_result(list_tokens: Option<Seq<char>>, file: Seq<char>, struct_name: Seq<char>) -> Result<ModelAttrModel, ParseErrorModel> {
    match list_tokens {
        None => Err(ParseErrorModel::InvalidAttribute {
            file,
            struct_name,
            message: "Expected attribute with arguments"@,
        }),
        Some(t) => {
            let c = model_attr_from(split(t, ','), 0, default_model_attr());
            if c.table_name.len() == 0 {
                Err(ParseErrorModel::InvalidAttribute {
                    file,
                    struct_name,
                    message: "Missing required 'table' attribute"@,
                })
            } else {
                Ok(c)
            }
        },
    }
}

pub(crate) fn key_is(key: &Vec<char>, name: &str) -> (res: bool)
    ensures
        res == (key@ == name@),
{
    let n = chars_of(name);
    chars_eq(key, &n)
}

/// Parse #[ormada_model(...)] or #[ormada_schema(...)] attribute
pub fn parse_model_attr(list_tokens: Option<&str>, file_name: &str, struct_name: &str) -> (res: Result<ModelAttrConfig, ParseError>)
    ensures
        match (res, model_attr_result(
            match list_tokens {
                Some(t) => Some(t@),
                None => None,
            },
            file_name@,
            struct_name@,
        )) {
            (Ok(c), Ok(m)) => c@ == m,
            (Err(e), Err(m)) => e@ == m,
            _ => false,
        },
{
    let tokens = match list_tokens {
        Some(t) => t,
        None => return Err(invalid_attribute(file_name, struct_name, "Expected attribute with arguments")),
    };
    let mut config = ModelAttrConfig {
        table_name: String::new(),
        migration_id: None,
        after: None,
        extends: None,
        migrate: true,
    };
    let t = chars_of(tokens);
    let parts = split_char(&t, ',');
    let ghost ps = split(tokens@, ',');
    proof {
        assert(config@ == default_model_attr());
    }
    let mut i: usize = 0;
    while i < parts.len()
        invariant
            parts@.len() == ps.len(),
            ps == split(tokens@, ','),
            forall|j: int| 0 <= j < parts@.len() ==> #[trigger] parts@[j]@ == ps[j],
            i <= parts@.len(),
            model_attr_from(ps, 0, default_model_attr()) == model_attr_from(ps, i as int, config@),
        decreases parts@.len() - i,
    {
        let part = trim_chars(&parts[i]);
        match split_once_char(&part, '=') {
            Some((k, v)) => {
                let key = trim_chars(&k);
                let vt = trim_chars(&v);
                let value = trim_set(&vt, CharSet::Only('"'));
                if key_is(&key, "table") {
                    config.table_name = string_of(&value);
                } else if key_is(&key, "migration") {
                    config.migration_id = Some(string_of(&value));
                } else if key_is(&key, "after") {
                    config.after = Some(string_of(&value));
                } else if key_is(&key, "extends") {
                    config.extends = Some(string_of(&value));
                } else if key_is(&key, "migrate") {
                    config.migrate = !key_is(&value, "false");
                }
            },
            None => {},
        }
        i = i + 1;
    }
    if config.table_name.as_str().is_empty() {
        proof {
            assert(config@.table_name.len() == 0);
        }
        return Err(invalid_attribute(file_name, struct_name, "Missing required 'table' attribute"));
    }
    Ok(config)
}

// ---------------------------------------------------------------------------
// Structs and fields, as read from the source
// ---------------------------------------------------------------------------

/// An attribute as the parser reads it: the single identifier naming it (if
/// its path is one), the text of the whole attribute, and the text of its
/// argument list when it has one.
#[derive(Debug, Clone)]
pub struct AttrInfo {
    pub name: Option<String>,
    pub tokens: String,
    pub list_tokens: Option<String>,
}

pub struct AttrModel {
    pub name: Option<Seq<char>>,
    pub tokens: Seq<char>,
    pub list_tokens: Option<Seq<char>>,
}

impl View for AttrInfo {
    type V = AttrModel;

    open spec fn view(&self) -> AttrModel {
        AttrModel {
            name: crate::schema::opt_str_view(self.name),
            tokens: self.tokens@,
            list_tokens: crate::schema::opt_str_view(self.list_tokens),
        }
    }
}

/// A struct field: its name, the text of its type, and its attributes.
#[derive(Debug, Clone)]
pub struct FieldDecl {
    pub name: Option<String>,
    pub ty: String,
    pub attrs: Vec<AttrInfo>,
}

pub struct FieldModel {
    pub name: Option<Seq<char>>,
    pub ty: Seq<char>,
    pub attrs: Seq<AttrModel>,
}

pub open spec fn attr_views(v: Seq<AttrInfo>) -> Seq<AttrModel> {
    v.map_values(|a: AttrInfo| a@)
}

impl View for FieldDecl {
    type V = FieldModel;

    open spec fn view(&self) -> FieldModel {
        FieldModel { name: crate::schema::opt_str_view(self.name), ty: self.ty@, attrs: attr_views(self.attrs@) }
    }
}

/// A struct: its name, its attributes, and its fields when they are named.
#[derive(Debug, Clone)]
pub struct StructInfo {
    pub name: String,
    pub attrs: Vec<AttrInfo>,
    pub named_fields: Option<Vec<FieldDecl>>,
}

pub struct StructModel {
    pub name: Seq<char>,
    pub attrs: Seq<AttrModel>,
    pub named_fields: Option<Seq<FieldModel>>,
}

pub open spec fn field_views(v: Seq<FieldDecl>) -> Seq<FieldModel> {
    v.map_values(|f: FieldDecl| f@)
}

impl View for StructInfo {
    type V = StructModel;

    open spec fn view(&self) -> StructModel {
        StructModel {
            name: self.name@,
            attrs: attr_views(self.attrs@),
            named_fields: match self.named_fields {
                Some(fs) => Some(field_views(fs@)),
                None => None,
            },
        }
    }
}

pub open spec fn attr_named(a: AttrModel, n: Seq<char>) -> bool {
    a.name == Some(n)
}

pub(crate) fn attr_name_is(a: &AttrInfo, n: &str) -> (res: bool)
    ensures
        res == attr_named(a@, n@),
{
    match &a.name {
        Some(x) => str_eq(x.as_str(), n),
        None => false,
    }
}

/// Some attribute is `#[cfg(...)]` mentioning `test`.
pub open spec fn cfg_test(attrs: Seq<AttrModel>) -> bool {
    exists|i: int| 0 <= i < attrs.len() && attr_named(attrs[i], "cfg"@) && has_sub(#[trigger] attrs[i].tokens, "test"@)
}

/// Check if attributes contain #[cfg(test)]
pub fn has_cfg_test(attrs: &[AttrInfo]) -> (res: bool)
    ensures
        res == cfg_test(attr_views(attrs@)),
{
    let ghost av = attr_views(attrs@);
    let mut i: usize = 0;
    while i < attrs.len()
        invariant
            av == attr_views(attrs@),
            i <= attrs@.len(),
            forall|j: int| 0 <= j < i ==> !(attr_named(av[j], "cfg"@) && has_sub(#[trigger] av[j].tokens, "test"@)),
        decreases attrs@.len() - i,
    {
        if attr_name_is(&attrs[i], "cfg") {
            let t = chars_of(attrs[i].tokens.as_str());
            let test = chars_of("test");
            if contains(&t, &test) {
                proof {
                    assert(av[i as int] == attrs@[i as int]@);
                    assert(attr_named(av[i as int], "cfg"@) && has_sub(av[i as int].tokens, "test"@));
                }
                return true;
            }
        }
        proof {
            assert(av[i as int] == attrs@[i as int]@);
        }
        i = i + 1;
    }
    false
}

/// The index of the first attribute named `n`, or -1.
pub open spec fn attr_index_from(attrs: Seq<AttrModel>, n: Seq<char>, k: int) -> int
    decreases attrs.len() - k,
{
    if k < 0 || k >= attrs.len() {
        -1
    } else if attr_named(attrs[k], n) {
        k
    } else {
        attr_index_from(attrs, n, k + 1)
    }
}

proof fn lemma_attr_index_from(attrs: Seq<AttrModel>, n: Seq<char>, k: int)
    ensures
        -1 <= attr_index_from(attrs, n, k) < attrs.len(),
        attr_index_from(attrs, n, k) >= 0 ==> attr_named(attrs[attr_index_from(attrs, n, k)], n),
    decreases attrs.len() - k,
{
    if 0 <= k < attrs.len() && !attr_named(attrs[k], n) {
        lemma_attr_index_from(attrs, n, k + 1);
    }
}

/// Find an attribute by name
pub fn find_ormada_attr(attrs: &[AttrInfo], name: &str) -> (res: Option<usize>)
    ensures
        match res {
            Some(i) => i < attrs@.len() && i as int == attr_index_from(attr_views(attrs@), name@, 0),
            None => attr_index_from(attr_views(attrs@), name@, 0) == -1,
        },
{
    let ghost av = attr_views(attrs@);
    proof {
        lemma_attr_index_from(av, name@, 0);
    }
    let mut i: usize = 0;
    while i < attrs.len()
        invariant
            av == attr_views(attrs@),
            i <= attrs@.len(),
            attr_index_from(av, name@, 0) == attr_index_from(av, name@, i as int),
        decreases attrs@.len() - i,
    {
        proof {
            assert(av[i as int] == attrs@[i as int]@);
        }
        if attr_name_is(&attrs[i], name) {
            return Some(i);
        }
        i = i + 1;
    }
    None
}

// ---------------------------------------------------------------------------
// Field attributes
// ---------------------------------------------------------------------------

/// The attribute's argument text can be cut where the parser cuts it.
pub open spec fn attr_args_ok(a: AttrModel) -> bool {
    &&& (attr_named(a, "max_length"@) || attr_named(a, "min_length"@)) ==> first_parens_ordered(a.tokens)
    &&& (attr_named(a, "default"@) || attr_named(a, "foreign_key"@)) ==> outer_parens_ordered(a.tokens)
}

pub open spec fn attrs_args_ok(attrs: Seq<AttrModel>) -> bool {
    forall|i: int| 0 <= i < attrs.len() ==> #[trigger] attr_args_ok(attrs[i])
}

/// One field attribute applied to the column and the table being built.
pub open spec fn apply_field_attr(col: ColumnModel, tab: TableModel, a: AttrModel, field: Seq<char>) -> (ColumnModel, TableModel) {
    if attr_named(a, "primary_key"@) {
        (ColumnModel { primary_key: true, auto_increment: !attr_has_arg(a.tokens, "auto_increment"@, "false"@), ..col }, tab)
    } else if attr_named(a, "foreign_key"@) {
        match fk_attr(a.tokens) {
            Some((rt, od)) => (
                col,
                TableModel {
                    foreign_keys: tab.foreign_keys.push(
                        ForeignKeyModel {
                            name: None,
                            column: field,
                            references_table: rt,
                            references_column: "id"@,
                            on_delete: od,
                            on_update: crate::schema::OnUpdateAction::NoAction,
                        },
                    ),
                    ..tab
                },
            ),
            None => (col, tab),
        }
    } else if attr_named(a, "index"@) {
        (ColumnModel { indexed: true, index_name: string_arg(a.tokens, "name"@), ..col }, tab)
    } else if attr_named(a, "unique"@) {
        (ColumnModel { unique: true, ..col }, tab)
    } else if attr_named(a, "max_length"@) {
        match int_arg(a.tokens) {
            Some(len) => (
                ColumnModel {
                    max_length: Some(len as u32),
                    column_type: if col.column_type is String {
                        ColumnType::String(Some(len as u32))
                    } else {
                        col.column_type
                    },
                    ..col
                },
                tab,
            ),
            None => (col, tab),
        }
    } else if attr_named(a, "min_length"@) {
        match int_arg(a.tokens) {
            Some(len) => (ColumnModel { min_length: Some(len as u32), ..col }, tab),
            None => (col, tab),
        }
    } else if attr_named(a, "range"@) {
        (ColumnModel { range: range_attr(a.tokens), ..col }, tab)
    } else if attr_named(a, "default"@) {
        (ColumnModel { default: value_arg(a.tokens), ..col }, tab)
    } else if attr_named(a, "nullable"@) {
        (ColumnModel { nullable: true, ..col }, tab)
    } else if attr_named(a, "soft_delete"@) {
        (ColumnModel { soft_delete: true, ..col }, tab)
    } else if attr_named(a, "rename"@) {
        match string_arg(a.tokens, "from"@) {
            Some(f) => (ColumnModel { renamed_from: Some(f), ..col }, tab),
            None => (col, tab),
        }
    } else if attr_named(a, "drop"@) {
        (ColumnModel { dropped: true, ..col }, tab)
    } else {
        (col, tab)
    }
}

/// The first `n` field attributes applied in order.
pub open spec fn apply_field_attrs(col: ColumnModel, tab: TableModel, attrs: Seq<AttrModel>, field: Seq<char>, n: int) -> (ColumnModel, TableModel)
    decreases n,
{
    if n <= 0 {
        (col, tab)
    } else {
        let (c, t) = apply_field_attrs(col, tab, attrs, field, n - 1);
        apply_field_attr(c, t, attrs[n - 1], field)
    }
}

proof fn lemma_field_attr_names_differ()
    ensures
        "primary_key"@ != "foreign_key"@,
        "primary_key"@ != "index"@,
        "primary_key"@ != "unique"@,
        "primary_key"@ != "max_length"@,
        "primary_key"@ != "min_length"@,
        "primary_key"@ != "range"@,
        "primary_key"@ != "default"@,
        "primary_key"@ != "nullable"@,
        "primary_key"@ != "soft_delete"@,
        "primary_key"@ != "rename"@,
        "primary_key"@ != "drop"@,
        "foreign_key"@ != "index"@,
        "foreign_key"@ != "unique"@,
        "foreign_key"@ != "max_length"@,
        "foreign_key"@ != "min_length"@,
        "foreign_key"@ != "range"@,
        "foreign_key"@ != "default"@,
        "foreign_key"@ != "nullable"@,
        "foreign_key"@ != "soft_delete"@,
        "foreign_key"@ != "rename"@,
        "foreign_key"@ != "drop"@,
        "index"@ != "unique"@,
        "index"@ != "max_length"@,
        "index"@ != "min_length"@,
        "index"@ != "range"@,
        "index"@ != "default"@,
        "index"@ != "nullable"@,
        "index"@ != "soft_delete"@,
        "index"@ != "rename"@,
        "index"@ != "drop"@,
        "unique"@ != "max_length"@,
        "unique"@ != "min_length"@,
        "unique"@ != "range"@,
        "unique"@ != "default"@,
        "unique"@ != "nullable"@,
        "unique"@ != "soft_delete"@,
        "unique"@ != "rename"@,
        "unique"@ != "drop"@,
        "max_length"@ != "min_length"@,
        "max_length"@ != "range"@,
        "max_length"@ != "default"@,
        "max_length"@ != "nullable"@,
        "max_length"@ != "soft_delete"@,
        "max_length"@ != "rename"@,
        "max_length"@ != "drop"@,
        "min_length"@ != "range"@,
        "min_length"@ != "default"@,
        "min_length"@ != "nullable"@,
        "min_length"@ != "soft_delete"@,
        "min_length"@ != "rename"@,
        "min_length"@ != "drop"@,
        "range"@ != "default"@,
        "range"@ != "nullable"@,
        "range"@ != "soft_delete"@,
        "range"@ != "rename"@,
        "range"@ != "drop"@,
        "default"@ != "nullable"@,
        "default"@ != "soft_delete"@,
        "default"@ != "rename"@,
        "default"@ != "drop"@,
        "nullable"@ != "soft_delete"@,
        "nullable"@ != "rename"@,
        "nullable"@ != "drop"@,
        "soft_delete"@ != "rename"@,
        "soft_delete"@ != "drop"@,
        "rename"@ != "drop"@,
{
    reveal_strlit("primary_key");
    reveal_strlit("foreign_key");
    reveal_strlit("index");
    reveal_strlit("unique");
    reveal_strlit("max_length");
    reveal_strlit("min_length");
    reveal_strlit("range");
    reveal_strlit("default");
    reveal_strlit("nullable");
    reveal_strlit("soft_delete");
    reveal_strlit("rename");
    reveal_strlit("drop");
    assert("primary_key"@.len() == 11);
    assert("foreign_key"@.len() == 11);
    assert("index"@.len() == 5);
    assert("unique"@.len() == 6);
    assert("max_length"@.len() == 10);
    assert("min_length"@.len() == 10);
    assert("range"@.len() == 5);
    assert("default"@.len() == 7);
    assert("nullable"@.len() == 8);
    assert("soft_delete"@.len() == 11);
    assert("rename"@.len() == 6);
    assert("drop"@.len() == 4);
    assert("primary_key"@[0] != "foreign_key"@[0]);
    assert("primary_key"@[0] != "soft_delete"@[0]);
    assert("foreign_key"@[0] != "soft_delete"@[0]);
    assert("index"@[0] != "range"@[0]);
    assert("unique"@[0] != "rename"@[0]);
    assert("max_length"@[1] != "min_length"@[1]);
}

/// A field attribute the parser acts on.
pub open spec fn recognized_field_attr(a: AttrModel) -> bool {
    ||| attr_named(a, "primary_key"@)
    ||| attr_named(a, "foreign_key"@)
    ||| attr_named(a, "index"@)
    ||| attr_named(a, "unique"@)
    ||| attr_named(a, "max_length"@)
    ||| attr_named(a, "min_length"@)
    ||| attr_named(a, "range"@)
    ||| attr_named(a, "default"@)
    ||| attr_named(a, "nullable"@)
    ||| attr_named(a, "soft_delete"@)
    ||| attr_named(a, "rename"@)
    ||| attr_named(a, "drop"@)
}

/// Each recognized field attribute sets what it names, with the value its
/// argument gives: `#[default(v)]` the column's default, `#[nullable]`,
/// `#[unique]`, `#[primary_key]`, `#[index]`, `#[soft_delete]` and `#[drop]`
/// their flags, the length, range and rename attributes their values, and
/// `#[foreign_key]` appends a foreign key on the field's column; any other
/// attribute changes nothing.
pub proof fn law_field_attr_sets_what_it_names(col: ColumnModel, tab: TableModel, a: AttrModel, field: Seq<char>)
    ensures
        ({
            let (c, t) = apply_field_attr(col, tab, a, field);
            &&& attr_named(a, "default"@) ==> c.default == value_arg(a.tokens) && t == tab
            &&& attr_named(a, "nullable"@) ==> c.nullable
            &&& attr_named(a, "unique"@) ==> c.unique
            &&& attr_named(a, "primary_key"@) ==> c.primary_key
            &&& attr_named(a, "index"@) ==> c.indexed && c.index_name == string_arg(a.tokens, "name"@)
            &&& attr_named(a, "soft_delete"@) ==> c.soft_delete
            &&& attr_named(a, "drop"@) ==> c.dropped
            &&& attr_named(a, "range"@) ==> c.range == range_attr(a.tokens)
            &&& (attr_named(a, "max_length"@) && int_arg(a.tokens) is Some) ==> c.max_length == Some(
                int_arg(a.tokens)->0 as u32,
            )
            &&& (attr_named(a, "min_length"@) && int_arg(a.tokens) is Some) ==> c.min_length == Some(
                int_arg(a.tokens)->0 as u32,
            )
            &&& (attr_named(a, "rename"@) && string_arg(a.tokens, "from"@) is Some) ==> c.renamed_from
                == string_arg(a.tokens, "from"@)
            &&& (attr_named(a, "foreign_key"@) && fk_attr(a.tokens) is Some) ==> {
                &&& c == col
                &&& t.foreign_keys.len() == tab.foreign_keys.len() + 1
                &&& t.foreign_keys.drop_last() == tab.foreign_keys
                &&& t.foreign_keys.last().column == field
                &&& fk_attr(a.tokens) == Some(
                    (t.foreign_keys.last().references_table, t.foreign_keys.last().on_delete),
                )
            }
            &&& !recognized_field_attr(a) ==> c == col && t == tab
        }),
{
    lemma_field_attr_names_differ();
    let (c, t) = apply_field_attr(col, tab, a, field);
    if attr_named(a, "foreign_key"@) && fk_attr(a.tokens) is Some {
        assert(t.foreign_keys.drop_last() =~= tab.foreign_keys);
    }
}

proof fn lemma_other_attrs_keep_default(col: ColumnModel, tab: TableModel, a: AttrModel, field: Seq<char>)
    requires
        !attr_named(a, "default"@),
    ensures
        apply_field_attr(col, tab, a, field).0.default == col.default,
{
}

/// A field's column takes its default from its last `#[default(v)]`
/// attribute: `v`, whatever the other attributes around it are.
pub proof fn law_last_default_wins(
    col: ColumnModel,
    tab: TableModel,
    attrs: Seq<AttrModel>,
    field: Seq<char>,
    k: int,
    n: int,
)
    requires
        0 <= k < n <= attrs.len(),
        attr_named(attrs[k], "default"@),
        forall|j: int| k < j < n ==> !attr_named(#[trigger] attrs[j], "default"@),
    ensures
        apply_field_attrs(col, tab, attrs, field, n).0.default == value_arg(attrs[k].tokens),
    decreases n,
{
    let (c, t) = apply_field_attrs(col, tab, attrs, field, n - 1);
    if n - 1 > k {
        law_last_default_wins(col, tab, attrs, field, k, n - 1);
        lemma_other_attrs_keep_default(c, t, attrs[n - 1], field);
    } else {
        law_field_attr_sets_what_it_names(c, t, attrs[k], field);
    }
}

/// Parse field attributes and update column/table accordingly
pub fn parse_field_attrs(
    column: &mut ColumnSchema,
    table: &mut TableSchema,
    attrs: &[AttrInfo],
    field_name: &str,
) -> (res: Result<(), ParseError>)
    requires
        attrs_args_ok(attr_views(attrs@)),
    ensures
        res is Ok,
        (final(column)@, final(table)@) == apply_field_attrs(
            old(column)@,
            old(table)@,
            attr_views(attrs@),
            field_name@,
            attrs@.len() as int,
        ),
{
    let ghost av = attr_views(attrs@);
    let ghost c0 = column@;
    let ghost t0 = table@;
    let mut i: usize = 0;
    while i < attrs.len()
        invariant
            av == attr_views(attrs@),
            attrs_args_ok(av),
            i <= attrs@.len(),
            (column@, table@) == apply_field_attrs(c0, t0, av, field_name@, i as int),
        decreases attrs@.len() - i,
    {
        let attr = &attrs[i];
        proof {
            assert(av[i as int] == attr@);
            assert(attr_args_ok(av[i as int]));
        }
        let tokens = attr.tokens.as_str();
        let ghost cb = column@;
        let ghost tb = table@;
        if attr_name_is(attr, "primary_key") {
            column.primary_key = true;
            column.auto_increment = !has_attr_arg(tokens, "auto_increment", "false");
        } else if attr_name_is(attr, "foreign_key") {
            match parse_foreign_key_attr(tokens) {
                Some((ref_table, on_delete)) => {
                    let fk = ForeignKeySchema::new(field_name, ref_table.as_str(), "id").on_delete(on_delete);
                    table.foreign_keys.push(fk);
                    proof {
                        assert(table@.foreign_keys =~= tb.foreign_keys.push(fk@));
                    }
                },
                None => {},
            }
        } else if attr_name_is(attr, "index") {
            column.indexed = true;
            column.index_name = get_attr_string_arg(tokens, "name");
        } else if attr_name_is(attr, "unique") {
            column.unique = true;
        } else if attr_name_is(attr, "max_length") {
            match get_attr_int_arg(tokens) {
                Some(len) => {
                    #[verifier::truncate]
                    let l = len as u32;
                    column.max_length = Some(l);
                    match column.column_type {
                        ColumnType::String(_) => {
                            column.column_type = ColumnType::String(Some(l));
                        },
                        _ => {},
                    }
                },
                None => {},
            }
        } else if attr_name_is(attr, "min_length") {
            match get_attr_int_arg(tokens) {
                Some(len) => {
                    #[verifier::truncate]
                    let l = len as u32;
                    column.min_length = Some(l);
                },
                None => {},
            }
        } else if attr_name_is(attr, "range") {
            column.range = parse_range_attr(tokens);
        } else if attr_name_is(attr, "default") {
            column.default = get_attr_value_arg(tokens);
        } else if attr_name_is(attr, "nullable") {
            column.nullable = true;
        } else if attr_name_is(attr, "soft_delete") {
            column.soft_delete = true;
        } else if attr_name_is(attr, "rename") {
            match get_attr_string_arg(tokens, "from") {
                Some(from) => {
                    column.renamed_from = Some(from);
                },
                None => {},
            }
        } else if attr_name_is(attr, "drop") {
            column.dropped = true;
        }
        proof {
            assert((column@, table@) == apply_field_attr(cb, tb, av[i as int], field_name@));
        }
        i = i + 1;
    }
    Ok(())
}

// ---------------------------------------------------------------------------
// Structs
// ---------------------------------------------------------------------------

/// The text with every space removed.
pub open spec fn without_spaces(s: Seq<char>) -> Seq<char>
    decreases s.len(),
{
    if s.len() == 0 {
        Seq::empty()
    } else {
        let r = without_spaces(s.drop_last());
        if s.last() == ' ' {
            r
        } else {
            r.push(s.last())
        }
    }
}

fn remove_spaces(s: &str) -> (res: String)
    ensures
        res@ == without_spaces(s@),
{
    let cs = chars_of(s);
    let mut out = String::new();
    let mut i: usize = 0;
    while i < cs.len()
        invariant
            cs@ == s@,
            i <= cs@.len(),
            out@ == without_spaces(s@.take(i as int)),
        decreases cs@.len() - i,
    {
        proof {
            assert(s@.take(i + 1).drop_last() =~= s@.take(i as int));
        }
        if cs[i] != ' ' {
            out.push(cs[i]);
        }
        i = i + 1;
    }
    proof {
        assert(s@.take(cs@.len() as int) =~= s@);
    }
    out
}

/// The name of a field (empty when it has none).
pub open spec fn field_name_of(f: FieldModel) -> Seq<char> {
    match f.name {
        Some(n) => n,
        None => Seq::empty(),
    }
}

/// The column a field starts as, before its attributes: typed from its Rust
/// type (spaces removed), nullable when that type is an `Option`.
pub open spec fn field_column(f: FieldModel) -> ColumnModel {
    let ty = without_spaces(f.ty);
    ColumnModel {
        nullable: has_prefix(trim(ty), "Option<"@),
        ..crate::schema::new_column(field_name_of(f), rust_type_column(ty))
    }
}

/// The table after its first `n` fields are added: each field's attributes
/// are applied, primary key columns are recorded, and the column appended.
pub open spec fn add_fields(tab: TableModel, fields: Seq<FieldModel>, n: int) -> TableModel
    decreases n,
{
    if n <= 0 {
        tab
    } else {
        let t = add_fields(tab, fields, n - 1);
        let f = fields[n - 1];
        let name = field_name_of(f);
        let (c, t2) = apply_field_attrs(field_column(f), t, f.attrs, name, f.attrs.len() as int);
        let t3 = if c.primary_key {
            TableModel { primary_key: t2.primary_key.push(name), ..t2 }
        } else {
            t2
        };
        TableModel { columns: t3.columns.push(c), ..t3 }
    }
}

/// Every field's attributes can be read.
pub open spec fn struct_args_ok(st: StructModel) -> bool {
    match st.named_fields {
        Some(fs) => forall|k: int| 0 <= k < fs.len() ==> #[trigger] attrs_args_ok(fs[k].attrs),
        None => true,
    }
}

/// The table a struct defines: none when it is skipped (a test model, not a
/// model or schema, or not migratable), an error for a bad model attribute or
/// for a struct without named fields.
pub open spec fn struct_table(st: StructModel, file: Seq<char>, skip_test: bool, skip_non_migratable: bool) -> Result<Option<TableModel>, ParseErrorModel> {
    if skip_test && cfg_test(st.attrs) {
        Ok(None)
    } else {
        let mi = attr_index_from(st.attrs, "ormada_model"@, 0);
        let si = attr_index_from(st.attrs, "ormada_schema"@, 0);
        if mi < 0 && si < 0 {
            Ok(None)
        } else {
            let a = if mi >= 0 {
                st.attrs[mi]
            } else {
                st.attrs[si]
            };
            match model_attr_result(a.list_tokens, file, st.name) {
                Err(e) => Err(e),
                Ok(c) => if skip_non_migratable && !c.migrate {
                    Ok(None)
                } else {
                    match st.named_fields {
                        None => Err(ParseErrorModel::InvalidAttribute {
                            file,
                            struct_name: st.name,
                            message: "Only structs with named fields are supported"@,
                        }),
                        Some(fs) => Ok(
                            Some(
                                add_fields(
                                    TableModel { migration_id: c.migration_id, ..crate::schema::empty_table(c.table_name) },
                                    fs,
                                    fs.len() as int,
                                ),
                            ),
                        ),
                    }
                },
            }
        }
    }
}

/// Parse a struct with #[ormada_model] or #[ormada_schema] attribute
pub fn parse_ormada_struct(item: &StructInfo, file_name: &str, config: &DiscoveryConfig) -> (res: Result<Option<TableSchema>, ParseError>)
    requires
        struct_args_ok(item@),
    ensures
        match (res, struct_table(item@, file_name@, config.skip_test_models, config.skip_non_migratable)) {
            (Ok(Some(t)), Ok(Some(m))) => t@ == m,
            (Ok(None), Ok(None)) => true,
            (Err(e), Err(m)) => e@ == m,
            _ => false,
        },
{
    if config.skip_test_models && has_cfg_test(&item.attrs) {
        return Ok(None);
    }
    let model_attr = find_ormada_attr(&item.attrs, "ormada_model");
    let schema_attr = find_ormada_attr(&item.attrs, "ormada_schema");
    let attr = match model_attr {
        Some(i) => &item.attrs[i],
        None => match schema_attr {
            Some(i) => &item.attrs[i],
            None => return Ok(None),
        },
    };
    proof {
        assert(attr_views(item.attrs@)[attr_index_from(attr_views(item.attrs@), "ormada_model"@, 0)] == attr@
            || attr_views(item.attrs@)[attr_index_from(attr_views(item.attrs@), "ormada_schema"@, 0)] == attr@);
    }
    let list = match &attr.list_tokens {
        Some(t) => Some(t.as_str()),
        None => None,
    };
    let attr_config = parse_model_attr(list, file_name, item.name.as_str())?;
    if config.skip_non_migratable && !attr_config.migrate {
        return Ok(None);
    }
    let fields = match &item.named_fields {
        Some(fs) => fs,
        None => {
            return Err(
                invalid_attribute(file_name, item.name.as_str(), "Only structs with named fields are supported"),
            );
        },
    };
    let ghost fv = field_views(fields@);
    let mut table = TableSchema::new(attr_config.table_name.as_str());
    table.migration_id = attr_config.migration_id;
    let ghost t0 = table@;
    proof {
        assert(t0 == TableModel { migration_id: attr_config@.migration_id, ..crate::schema::empty_table(attr_config@.table_name) });
    }
    let mut k: usize = 0;
    while k < fields.len()
        invariant
            fv == field_views(fields@),
            forall|j: int| 0 <= j < fv.len() ==> #[trigger] attrs_args_ok(fv[j].attrs),
            k <= fields@.len(),
            table@ == add_fields(t0, fv, k as int),
        decreases fields@.len() - k,
    {
        let field = &fields[k];
        proof {
            assert(fv[k as int] == field@);
            assert(attrs_args_ok(fv[k as int].attrs));
        }
        let field_name = match &field.name {
            Some(n) => n.clone(),
            None => String::new(),
        };
        let field_type = remove_spaces(field.ty.as_str());
        let is_nullable = ColumnType::is_option_type(field_type.as_str());
        let column_type = ColumnType::from_rust_type(field_type.as_str());
        let mut column = ColumnSchema::new(field_name.as_str(), column_type);
        column.nullable = is_nullable;
        proof {
            assert(field_name@ == field_name_of(fv[k as int]));
            assert(column@ == field_column(fv[k as int]));
        }
        let ghost tb = table@;
        let _ = parse_field_attrs(&mut column, &mut table, &field.attrs, field_name.as_str());
        let ghost ta = table@;
        if column.primary_key {
            table.primary_key.push(field_name.clone());
            proof {
                assert(crate::schema::strs_view(table.primary_key@) =~= ta.primary_key.push(field_name@));
            }
        }
        table.add_column(column);
        k = k + 1;
    }
    Ok(Some(table))
}

/// The tables defined by the first `n` structs, or the first error.
pub open spec fn structs_tables(sts: Seq<StructModel>, file: Seq<char>, skip_test: bool, skip_non_migratable: bool, n: int) -> Result<Seq<TableModel>, ParseErrorModel>
    decreases n,
{
    if n <= 0 {
        Ok(Seq::empty())
    } else {
        match structs_tables(sts, file, skip_test, skip_non_migratable, n - 1) {
            Err(e) => Err(e),
            Ok(ts) => match struct_table(sts[n - 1], file, skip_test, skip_non_migratable) {
                Err(e) => Err(e),
                Ok(Some(t)) => Ok(ts.push(t)),
                Ok(None) => Ok(ts),
            },
        }
    }
}

pub open spec fn struct_views(v: Seq<StructInfo>) -> Seq<StructModel> {
    v.map_values(|s: StructInfo| s@)
}

/// The tables defined by the structs of a file, in order.
pub fn parse_structs(structs: &[StructInfo], file_name: &str, config: &DiscoveryConfig) -> (res: Result<Vec<TableSchema>, ParseError>)
    requires
        forall|i: int| 0 <= i < structs@.len() ==> #[trigger] struct_args_ok(structs@[i]@),
    ensures
        match (res, structs_tables(struct_views(structs@), file_name@, config.skip_test_models, config.skip_non_migratable, structs@.len() as int)) {
            (Ok(ts), Ok(ms)) => crate::diff::tables_view(ts@) == ms,
            (Err(e), Err(m)) => e@ == m,
            _ => false,
        },
{
    let ghost sv = struct_views(structs@);
    let mut schemas: Vec<TableSchema> = Vec::new();
    proof {
        assert(crate::diff::tables_view(schemas@) =~= Seq::<TableModel>::empty());
    }
    let mut i: usize = 0;
    while i < structs.len()
        invariant
            sv == struct_views(structs@),
            forall|i: int| 0 <= i < structs@.len() ==> #[trigger] struct_args_ok(structs@[i]@),
            i <= structs@.len(),
            structs_tables(sv, file_name@, config.skip_test_models, config.skip_non_migratable, i as int)
                == Ok::<Seq<TableModel>, ParseErrorModel>(crate::diff::tables_view(schemas@)),
        decreases structs@.len() - i,
    {
        proof {
            assert(sv[i as int] == structs@[i as int]@);
            assert(struct_args_ok(structs@[i as int]@));
        }
        match parse_ormada_struct(&structs[i], file_name, config) {
            Ok(Some(t)) => {
                let ghost s0 = schemas@;
                schemas.push(t);
                proof {
                    assert(crate::diff::tables_view(schemas@) =~= crate::diff::tables_view(s0).push(t@));
                }
            },
            Ok(None) => {},
            Err(e) => {
                proof {
                    lemma_structs_tables_err(sv, file_name@, config.skip_test_models, config.skip_non_migratable, i + 1, structs@.len() as int);
                }
                return Err(e);
            },
        }
        i = i + 1;
    }
    Ok(schemas)
}

proof fn lemma_structs_tables_err(sts: Seq<StructModel>, file: Seq<char>, a: bool, b: bool, k: int, n: int)
    requires
        0 < k <= n,
        structs_tables(sts, file, a, b, k) is Err,
    ensures
        structs_tables(sts, file, a, b, n) == structs_tables(sts, file, a, b, k),
    decreases n - k,
{
    if k < n {
        lemma_structs_tables_err(sts, file, a, b, k, n - 1);
    }
}

/// A path is excluded when it contains one of the excluded paths.
pub open spec fn path_excluded(path: Seq<char>, exclude: Seq<Seq<char>>) -> bool {
    exists|i: int| 0 <= i < exclude.len() && has_sub(path, #[trigger] exclude[i])
}

/// Check whether discovery skips a source file because of an exclusion.
pub fn is_excluded_path(path: &str, config: &DiscoveryConfig) -> (res: bool)
    ensures
        res == path_excluded(path@, crate::schema::strs_view(config.exclude_paths@)),
{
    let ghost ex = crate::schema::strs_view(config.exclude_paths@);
    let p = chars_of(path);
    let mut i: usize = 0;
    while i < config.exclude_paths.len()
        invariant
            ex == crate::schema::strs_view(config.exclude_paths@),
            p@ == path@,
            i <= config.exclude_paths@.len(),
            forall|j: int| 0 <= j < i ==> !has_sub(path@, #[trigger] ex[j]),
        decreases config.exclude_paths@.len() - i,
    {
        let e = chars_of(config.exclude_paths[i].as_str());
        if contains(&p, &e) {
            proof {
                assert(has_sub(path@, ex[i as int]));
            }
            return true;
        }
        i = i + 1;
    }
    false
}

} // verus!
