use ormada::parser::{
    get_attr_int_arg, get_attr_string_arg, get_attr_value_arg, parse_foreign_key_attr,
    parse_model_attr, parse_range_attr, to_table_name, DiscoveryConfig, ParseError,
};
use ormada::schema::{ColumnType, OnDeleteAction, RangeConstraint};
use ormada::source::parse_source;

#[test]
fn test_parse_simple_model() {
    let source = r#"
        use ormada::prelude::*;
        
        #[ormada_model(table = "books")]
        pub struct Book {
            #[primary_key]
            pub id: i32,
            
            #[max_length(200)]
            pub title: String,
            
            pub published: bool,
        }
    "#;

    let config = DiscoveryConfig::default();
    let schemas = parse_source(source, "test.rs", &config).unwrap();

    assert_eq!(schemas.len(), 1);
    let table = &schemas[0];
    assert_eq!(table.name, "books");
    assert_eq!(table.columns.len(), 3);

    let id_col = table.find_column("id").unwrap();
    assert!(id_col.primary_key);

    let title_col = table.find_column("title").unwrap();
    assert_eq!(title_col.max_length, Some(200));
}

#[test]
fn test_parse_model_with_foreign_key() {
    let source = r#"
        #[ormada_model(table = "books")]
        pub struct Book {
            #[primary_key]
            pub id: i32,
            
            #[foreign_key(Author)]
            pub author_id: i32,
        }
    "#;

    let config = DiscoveryConfig::default();
    let schemas = parse_source(source, "test.rs", &config).unwrap();

    assert_eq!(schemas.len(), 1);
    let table = &schemas[0];
    assert_eq!(table.foreign_keys.len(), 1);

    let fk = &table.foreign_keys[0];
    assert_eq!(fk.column, "author_id");
    assert_eq!(fk.references_table, "authors");
}

#[test]
fn test_parse_schema_with_migration() {
    let source = r#"
        #[ormada_schema(table = "books", migration = "001_initial")]
        pub struct Book {
            #[primary_key]
            pub id: i32,
            pub title: String,
        }
    "#;

    let config = DiscoveryConfig::default();
    let schemas = parse_source(source, "test.rs", &config).unwrap();

    assert_eq!(schemas.len(), 1);
    let table = &schemas[0];
    assert_eq!(table.migration_id, Some("001_initial".to_string()));
}

#[test]
fn test_skip_migrate_false() {
    let source = r#"
        #[ormada_model(table = "test_books", migrate = false)]
        pub struct TestBook {
            #[primary_key]
            pub id: i32,
        }
    "#;

    let config = DiscoveryConfig::default();
    let schemas = parse_source(source, "test.rs", &config).unwrap();

    assert!(schemas.is_empty());
}

#[test]
fn test_parse_foreign_key_with_full_path() {
    let source = r#"
        #[ormada_model(table = "books")]
        pub struct Book {
            #[primary_key]
            pub id: i32,
            
            #[foreign_key(crate::server::models::author::Author, on_delete = Cascade)]
            pub author_id: i32,
        }
    "#;

    let config = DiscoveryConfig::default();
    let schemas = parse_source(source, "test.rs", &config).unwrap();

    assert_eq!(schemas.len(), 1);
    let table = &schemas[0];
    assert_eq!(table.foreign_keys.len(), 1);

    let fk = &table.foreign_keys[0];
    assert_eq!(fk.column, "author_id");
    // Should extract just "Author" from the full path and convert to "authors"
    assert_eq!(fk.references_table, "authors");
    assert_eq!(fk.on_delete, OnDeleteAction::Cascade);
}

#[test]
fn test_parse_foreign_key_simple_name() {
    let source = r#"
        #[ormada_model(table = "books")]
        pub struct Book {
            #[primary_key]
            pub id: i32,
            
            #[foreign_key(Author)]
            pub author_id: i32,
        }
    "#;

    let config = DiscoveryConfig::default();
    let schemas = parse_source(source, "test.rs", &config).unwrap();

    let fk = &schemas[0].foreign_keys[0];
    assert_eq!(fk.references_table, "authors");
    assert_eq!(fk.on_delete, OnDeleteAction::NoAction);
}

#[test]
fn test_parse_datetime_fields() {
    let source = r#"
        #[ormada_model(table = "posts")]
        pub struct Post {
            #[primary_key]
            pub id: i32,
            
            pub created_at: ormada::prelude::DateTimeWithTimeZone,
            pub updated_at: DateTimeWithTimeZone,
            pub published_date: chrono::NaiveDate,
        }
    "#;

    let config = DiscoveryConfig::default();
    let schemas = parse_source(source, "test.rs", &config).unwrap();

    let table = &schemas[0];

    let created_at = table.find_column("created_at").unwrap();
    assert_eq!(created_at.column_type, ColumnType::TimestampTz);

    let updated_at = table.find_column("updated_at").unwrap();
    assert_eq!(updated_at.column_type, ColumnType::TimestampTz);

    let published_date = table.find_column("published_date").unwrap();
    assert_eq!(published_date.column_type, ColumnType::Date);
}

#[test]
fn test_parse_nullable_fields() {
    let source = r#"
        #[ormada_model(table = "users")]
        pub struct User {
            #[primary_key]
            pub id: i32,
            
            pub name: String,
            pub bio: Option<String>,
            pub deleted_at: Option<ormada::prelude::DateTimeWithTimeZone>,
        }
    "#;

    let config = DiscoveryConfig::default();
    let schemas = parse_source(source, "test.rs", &config).unwrap();

    let table = &schemas[0];

    let name = table.find_column("name").unwrap();
    assert!(!name.nullable);

    let bio = table.find_column("bio").unwrap();
    assert!(bio.nullable);
    assert_eq!(bio.column_type, ColumnType::String(None));

    let deleted_at = table.find_column("deleted_at").unwrap();
    assert!(deleted_at.nullable);
    assert_eq!(deleted_at.column_type, ColumnType::TimestampTz);
}

#[test]
fn test_parse_indexed_and_unique_fields() {
    let source = r#"
        #[ormada_model(table = "users")]
        pub struct User {
            #[primary_key]
            pub id: i32,
            
            #[unique]
            pub email: String,
            
            #[index]
            pub username: String,
        }
    "#;

    let config = DiscoveryConfig::default();
    let schemas = parse_source(source, "test.rs", &config).unwrap();

    let table = &schemas[0];

    let email = table.find_column("email").unwrap();
    assert!(email.unique);

    let username = table.find_column("username").unwrap();
    assert!(username.indexed);
}

#[test]
fn test_to_table_name() {
    assert_eq!(to_table_name("Author"), "authors");
    assert_eq!(to_table_name("Book"), "books");
    assert_eq!(to_table_name("Category"), "categories");
    assert_eq!(to_table_name("Address"), "addresses");
}

#[test]
fn attribute_arguments_are_read_from_text() {
    assert_eq!(get_attr_int_arg("max_length (200)"), Some(200));
    assert_eq!(get_attr_int_arg("max_length (x)"), None);
    assert_eq!(get_attr_string_arg("index (name = \"idx_a\")", "name"), None);
    assert_eq!(get_attr_string_arg("rename (from = \"old\" , to = \"new\")", "to"), Some("new\")".to_string()));
    assert_eq!(get_attr_value_arg("default (\"now()\")"), Some("now()".to_string()));
    assert_eq!(
        parse_range_attr("range (min = 0 , max = 100)"),
        Some(RangeConstraint { min: None, max: Some(100) })
    );
    assert_eq!(parse_range_attr("(min = -5)"), Some(RangeConstraint { min: Some(-5), max: None }));
    let fk = parse_foreign_key_attr("foreign_key (a :: b :: Category , on_delete = set_null)");
    assert_eq!(fk, Some(("categories".to_string(), OnDeleteAction::SetNull)));
    assert_eq!(parse_foreign_key_attr("foreign_key"), None);
}

#[test]
fn model_attribute_errors() {
    match parse_model_attr(None, "f.rs", "S") {
        Err(e) => assert_eq!(e.message(), "Invalid attribute on S in f.rs: Expected attribute with arguments"),
        Ok(_) => panic!("expected an error"),
    }
    match parse_model_attr(Some("migration = \"1\""), "f.rs", "S") {
        Err(e) => assert_eq!(e.message(), "Invalid attribute on S in f.rs: Missing required 'table' attribute"),
        Ok(_) => panic!("expected an error"),
    }
    let c = parse_model_attr(Some("table = \"t\", migrate = false, after = \"x\""), "f.rs", "S").unwrap();
    assert_eq!(c.table_name, "t");
    assert!(!c.migrate);
    assert_eq!(c.after, Some("x".to_string()));
}

#[test]
fn syntax_errors_name_the_file() {
    let config = DiscoveryConfig::default();
    match parse_source("struct {", "broken.rs", &config) {
        Err(ParseError::SyntaxError { file, .. }) => assert_eq!(file, "broken.rs"),
        _ => panic!("expected a syntax error"),
    }
}

#[test]
fn test_models_and_unnamed_fields() {
    let config = DiscoveryConfig::default();
    let source = r#"
        #[cfg(test)]
        #[ormada_model(table = "t")]
        struct T { id: i32 }

        #[ormada_model(table = "pairs")]
        struct P(i32, i32);
    "#;
    match parse_source(source, "m.rs", &config) {
        Err(ParseError::InvalidAttribute { struct_name, message, .. }) => {
            assert_eq!(struct_name, "P");
            assert_eq!(message, "Only structs with named fields are supported");
        }
        _ => panic!("expected an invalid attribute error"),
    }
}

#[test]
fn structs_are_read_in_order_and_the_first_error_wins() {
    let config = DiscoveryConfig::default();
    let source = r#"
        struct Plain { #[max_length(oops)] name: String }

        #[ormada_model(migration = "1")]
        struct First { id: i32 }

        #[ormada_model(table = "second")]
        struct Second(i32);
    "#;
    match parse_source(source, "o.rs", &config) {
        Err(ParseError::InvalidAttribute { struct_name, message, .. }) => {
            assert_eq!(struct_name, "First");
            assert_eq!(message, "Missing required 'table' attribute");
        }
        _ => panic!("expected an invalid attribute error"),
    }
}
