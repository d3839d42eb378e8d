//! SQL formatting utilities for pretty-printing queries
//!
//! By default, SQL output is pretty-printed with proper indentation and line
//! breaks; the compact form leaves the SQL text as it is.

use vstd::prelude::*;

verus! {

/// Options for SQL formatting
#[derive(Debug, Clone)]
pub struct SqlFormatOptions {
    /// Whether to pretty-print the SQL (default: true)
    pub pretty: bool,
    /// Number of spaces for indentation (default: 2)
    pub indent_spaces: u8,
    /// Whether to uppercase SQL keywords (default: true)
    pub uppercase: bool,
}

impl Default for SqlFormatOptions {
    fn default() -> (res: Self)
        ensures
            res.pretty && res.indent_spaces == 2 && res.uppercase,
    {
        SqlFormatOptions { pretty: true, indent_spaces: 2, uppercase: true }
    }
}

impl SqlFormatOptions {
    /// Create options with pretty-printing disabled (single-line output)
    pub fn compact() -> (res: Self)
        ensures
            !res.pretty && res.indent_spaces == 2 && res.uppercase,
    {
        SqlFormatOptions { pretty: false, indent_spaces: 2, uppercase: true }
    }

    /// Create options with custom indentation
    pub fn with_indent(self, spaces: u8) -> (res: Self)
        ensures
            res.pretty == self.pretty && res.indent_spaces == spaces && res.uppercase == self.uppercase,
    {
        let mut s = self;
        s.indent_spaces = spaces;
        s
    }

    /// Create options with uppercase keywords disabled
    pub fn lowercase_keywords(self) -> (res: Self)
        ensures
            res.pretty == self.pretty && res.indent_spaces == self.indent_spaces && !res.uppercase,
    {
        let mut s = self;
        s.uppercase = false;
        s
    }
}

/// What `sqlformat::format` returns for a query with no parameters, indented
/// by the given number of spaces, with keywords uppercased or lowercased, and
/// the given number of lines between queries.
pub uninterp spec fn spec_sqlformat(sql: Seq<char>, indent_spaces: u8, uppercase: bool, lines_between_queries: u8) -> Seq<char>;

/// `sqlformat::format` with no query parameters, `Indent::Spaces(indent_spaces)`,
/// `uppercase: Some(uppercase)` and `lines_between_queries`. Claimed: the
/// result is `spec_sqlformat` of these arguments.
#[verifier::external_body]
fn sqlformat_format(sql: &str, indent_spaces: u8, uppercase: bool, lines_between_queries: u8) -> (res: String)
    ensures
        res@ == spec_sqlformat(sql@, indent_spaces, uppercase, lines_between_queries),
{
    let options = sqlformat::FormatOptions {
        indent: sqlformat::Indent::Spaces(indent_spaces),
        uppercase: Some(uppercase),
        lines_between_queries,
        ..Default::default()
    };
    sqlformat::format(sql, &sqlformat::QueryParams::None, &options)
}

/// The text `format_sql` gives for SQL under the given options.
pub open spec fn formatted_sql(sql: Seq<char>, pretty: bool, indent_spaces: u8, uppercase: bool) -> Seq<char> {
    if !pretty {
        sql
    } else {
        spec_sqlformat(sql, indent_spaces, uppercase, 1)
    }
}

/// Format a SQL string with the given options (`None` for the defaults, which
/// pretty-print with two spaces and uppercase keywords)
pub fn format_sql(sql: &str, options: Option<SqlFormatOptions>) -> (res: String)
    ensures
        res@ == match options {
            Some(o) => formatted_sql(sql@, o.pretty, o.indent_spaces, o.uppercase),
            None => formatted_sql(sql@, true, 2, true),
        },
{
    let opts = match options {
        Some(o) => o,
        None => SqlFormatOptions::default(),
    };
    if !opts.pretty {
        return sql.to_owned();
    }
    sqlformat_format(sql, opts.indent_spaces, opts.uppercase, 1)
}

/// Format SQL with default pretty-printing options
pub fn format_sql_pretty(sql: &str) -> (res: String)
    ensures
        res@ == spec_sqlformat(sql@, 2, true, 1),
{
    format_sql(sql, None)
}

/// Format SQL in compact single-line format, which leaves it unchanged
pub fn format_sql_compact(sql: &str) -> (res: String)
    ensures
        res@ == sql@,
{
    format_sql(sql, Some(SqlFormatOptions::compact()))
}

} // verus!
