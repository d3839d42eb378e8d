use ormada::format::{format_sql, format_sql_compact, format_sql_pretty, SqlFormatOptions};

#[test]
fn test_format_sql_pretty_default() {
    let sql = "SELECT id, name FROM users WHERE age > 18";
    let formatted = format_sql(sql, None);

    assert!(formatted.contains('\n'), "Pretty format should have newlines");
    assert!(formatted.contains("SELECT"));
    assert!(formatted.contains("FROM"));
    assert!(formatted.contains("WHERE"));
}

#[test]
fn test_format_sql_compact() {
    let sql = "SELECT id, name FROM users WHERE age > 18";
    let formatted = format_sql(sql, Some(SqlFormatOptions::compact()));

    assert!(!formatted.contains('\n'), "Compact format should not have newlines");
    assert_eq!(formatted, sql);
}

#[test]
fn test_format_sql_uppercase() {
    let sql = "select id from users";
    let formatted = format_sql(sql, None);

    assert!(formatted.contains("SELECT"), "Keywords should be uppercased");
    assert!(formatted.contains("FROM"), "Keywords should be uppercased");
}

#[test]
fn test_format_sql_lowercase() {
    let sql = "SELECT id FROM users";
    let formatted = format_sql(sql, Some(SqlFormatOptions::default().lowercase_keywords()));

    assert!(formatted.contains("select") || formatted.contains("SELECT"));
}

#[test]
fn test_format_sql_complex_query() {
    let sql = "SELECT u.id, u.name, COUNT(o.id) as order_count FROM users u LEFT JOIN orders o ON u.id = o.user_id WHERE u.status = 'active' GROUP BY u.id, u.name ORDER BY order_count DESC LIMIT 10";
    let formatted = format_sql(sql, None);

    assert!(formatted.contains('\n'));
    assert!(formatted.contains("SELECT"));
    assert!(formatted.contains("LEFT JOIN"));
    assert!(formatted.contains("GROUP BY"));
    assert!(formatted.contains("ORDER BY"));
}

#[test]
fn pretty_and_compact_shortcuts() {
    let sql = "select 1";
    assert_eq!(format_sql_compact(sql), sql);
    assert_ne!(format_sql_pretty(sql), sql);
    let opts = SqlFormatOptions::default().with_indent(4);
    assert_eq!(opts.indent_spaces, 4);
    assert!(opts.pretty && opts.uppercase);
}
