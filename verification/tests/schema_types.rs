use ormada::schema::{ColumnSchema, ColumnType, OnDeleteAction, TableSchema};

#[test]
fn test_column_type_from_rust_type_primitives() {
    assert_eq!(ColumnType::from_rust_type("bool"), ColumnType::Boolean);
    assert_eq!(ColumnType::from_rust_type("i16"), ColumnType::SmallInteger);
    assert_eq!(ColumnType::from_rust_type("i32"), ColumnType::Integer);
    assert_eq!(ColumnType::from_rust_type("i64"), ColumnType::BigInteger);
    assert_eq!(ColumnType::from_rust_type("f32"), ColumnType::Float);
    assert_eq!(ColumnType::from_rust_type("f64"), ColumnType::Double);
    assert_eq!(ColumnType::from_rust_type("String"), ColumnType::String(None));
}

#[test]
fn test_column_type_from_rust_type_datetime() {
    assert_eq!(ColumnType::from_rust_type("DateTimeWithTimeZone"), ColumnType::TimestampTz);
    assert_eq!(ColumnType::from_rust_type("NaiveDateTime"), ColumnType::DateTime);
    assert_eq!(ColumnType::from_rust_type("NaiveDate"), ColumnType::Date);
    assert_eq!(ColumnType::from_rust_type("NaiveTime"), ColumnType::Time);
    assert_eq!(
        ColumnType::from_rust_type("ormada::prelude::DateTimeWithTimeZone"),
        ColumnType::TimestampTz
    );
    assert_eq!(ColumnType::from_rust_type("chrono::NaiveDateTime"), ColumnType::DateTime);
    assert_eq!(ColumnType::from_rust_type("chrono::NaiveDate"), ColumnType::Date);
    assert_eq!(ColumnType::from_rust_type("chrono::NaiveTime"), ColumnType::Time);
}

#[test]
fn test_column_type_from_rust_type_special() {
    assert_eq!(ColumnType::from_rust_type("Uuid"), ColumnType::Uuid);
    assert_eq!(ColumnType::from_rust_type("uuid::Uuid"), ColumnType::Uuid);
    assert_eq!(ColumnType::from_rust_type("Vec<u8>"), ColumnType::Binary);
    assert_eq!(ColumnType::from_rust_type("Value"), ColumnType::Json);
    assert_eq!(ColumnType::from_rust_type("serde_json::Value"), ColumnType::Json);
}

#[test]
fn test_column_type_from_rust_type_option() {
    assert_eq!(ColumnType::from_rust_type("Option<i32>"), ColumnType::Integer);
    assert_eq!(ColumnType::from_rust_type("Option<String>"), ColumnType::String(None));
    assert_eq!(ColumnType::from_rust_type("Option<DateTimeWithTimeZone>"), ColumnType::TimestampTz);
    assert_eq!(
        ColumnType::from_rust_type("Option<ormada::prelude::DateTimeWithTimeZone>"),
        ColumnType::TimestampTz
    );
}

#[test]
fn test_column_type_from_rust_type_unknown_fallback() {
    assert_eq!(ColumnType::from_rust_type("CustomType"), ColumnType::String(None));
    assert_eq!(ColumnType::from_rust_type("my_module::MyType"), ColumnType::String(None));
}

#[test]
fn test_is_option_type() {
    assert!(ColumnType::is_option_type("Option<i32>"));
    assert!(ColumnType::is_option_type("Option<String>"));
    assert!(ColumnType::is_option_type("Option<DateTimeWithTimeZone>"));
    assert!(!ColumnType::is_option_type("i32"));
    assert!(!ColumnType::is_option_type("String"));
    assert!(!ColumnType::is_option_type("DateTimeWithTimeZone"));
}

#[test]
fn test_table_schema_builder() {
    let mut table = TableSchema::new("books");
    table.add_column(ColumnSchema::new("id", ColumnType::Integer).primary_key(true));
    table.add_column(ColumnSchema::new("title", ColumnType::String(Some(200))).max_length(200));
    table.primary_key = vec!["id".to_string()];

    assert_eq!(table.name, "books");
    assert_eq!(table.columns.len(), 2);
    assert!(table.find_column("id").is_some());
    assert!(table.find_column("title").is_some());
    assert!(table.find_column("nonexistent").is_none());
}

#[test]
fn test_on_delete_from_str() {
    assert_eq!(OnDeleteAction::from_str("Cascade"), OnDeleteAction::Cascade);
    assert_eq!(OnDeleteAction::from_str("CASCADE"), OnDeleteAction::Cascade);
    assert_eq!(OnDeleteAction::from_str("SetNull"), OnDeleteAction::SetNull);
    assert_eq!(OnDeleteAction::from_str("set_null"), OnDeleteAction::SetNull);
    assert_eq!(OnDeleteAction::from_str("unknown"), OnDeleteAction::NoAction);
}

#[test]
fn find_column_mut_changes_the_first_column_of_that_name() {
    let mut table = TableSchema::new("users");
    table.add_column(ColumnSchema::new("email", ColumnType::Text));
    table.add_column(ColumnSchema::new("email", ColumnType::Integer));
    if let Some(c) = table.find_column_mut("email") {
        c.unique = true;
    }
    assert!(table.columns[0].unique);
    assert!(!table.columns[1].unique);
    assert!(table.find_column_mut("missing").is_none());
}

#[test]
fn column_builders_set_their_flags() {
    let c = ColumnSchema::new("bio", ColumnType::Text)
        .nullable(true)
        .default("''")
        .indexed()
        .unique();
    assert!(c.nullable);
    assert_eq!(c.default, Some("''".to_string()));
    assert!(c.indexed);
    assert!(c.unique);
    assert!(!c.primary_key);
}

#[test]
fn option_wrapping_keeps_the_column_type() {
    for t in ["bool", "i64", "my_module::MyType", "Option<f32>", " chrono::NaiveDate ", ""] {
        let wrapped = format!("Option<{}>", t);
        assert_eq!(ColumnType::from_rust_type(&wrapped), ColumnType::from_rust_type(t));
    }
}
