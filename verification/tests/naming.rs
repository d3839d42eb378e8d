use ormada::introspect::{
    introspector_for, DatabaseIntrospector, IntrospectorKind, PostgresIntrospector, SqliteIntrospector,
};
use ormada::naming::{to_pascal_case, to_snake_case};

#[test]
fn pascal_case_capitalizes_each_word() {
    assert_eq!(to_pascal_case("author_id"), "AuthorId");
    assert_eq!(to_pascal_case("__x__y"), "XY");
    assert_eq!(to_pascal_case("straße_ok"), "StraßeOk");
    assert_eq!(to_pascal_case(""), "");
}

#[test]
fn snake_case_splits_before_capitals() {
    assert_eq!(to_snake_case("BookAuthor"), "book_author");
    assert_eq!(to_snake_case("HTTPServer"), "h_t_t_p_server");
    assert_eq!(to_snake_case("already_snake"), "already_snake");
}

#[test]
fn introspectors_start_empty() {
    let pg = PostgresIntrospector::new("postgres://x").unwrap();
    assert!(pg.get_tables().unwrap().is_empty());
    assert!(pg.get_all_schemas().unwrap().is_empty());
    let lite = SqliteIntrospector::new("app.db").unwrap();
    assert_eq!(lite.get_table_schema("t").unwrap().name, "t");
    assert_eq!(introspector_for("postgresql://h/db"), Ok(IntrospectorKind::Postgres));
    assert_eq!(introspector_for("data.db"), Ok(IntrospectorKind::Sqlite));
    assert_eq!(introspector_for("mysql://x"), Err("Unsupported database URL: mysql://x".to_string()));
}
