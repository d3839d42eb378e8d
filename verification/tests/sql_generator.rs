use ormada::diff::{ColumnChanges, SchemaOperation};
use ormada::schema::{
    ColumnSchema, ColumnType, ForeignKeySchema, IndexSchema, OnDeleteAction, TableSchema,
};
use ormada::sqlgen::{
    column_type_to_sql, generate_alter_column, generate_column_definition, generate_create_index,
    generate_create_table, generate_operation_sql, generate_sql, order_operations_by_dependencies,
};

#[test]
fn test_generate_create_table_simple() {
    let mut schema = TableSchema::new("users");
    let mut id = ColumnSchema::new("id", ColumnType::Integer);
    id.primary_key = true;
    schema.columns.push(id);
    schema.columns.push(ColumnSchema::new("name", ColumnType::String(Some(100))));
    schema.primary_key = vec!["id".to_string()];

    let sql = generate_create_table(&schema);
    assert!(sql.contains("CREATE TABLE \"users\""));
    assert!(sql.contains("\"id\" INTEGER"));
    assert!(sql.contains("\"name\" VARCHAR"));
    assert!(sql.contains("PRIMARY KEY (\"id\")"));
}

#[test]
fn test_generate_create_table_with_foreign_key() {
    let mut schema = TableSchema::new("books");
    schema.columns.push(ColumnSchema::new("id", ColumnType::Integer));
    schema.columns.push(ColumnSchema::new("author_id", ColumnType::Integer));
    schema.foreign_keys.push(
        ForeignKeySchema::new("author_id", "authors", "id").on_delete(OnDeleteAction::Cascade),
    );

    let sql = generate_create_table(&schema);
    assert!(sql.contains("FOREIGN KEY (\"author_id\")"));
    assert!(sql.contains("REFERENCES \"authors\"(\"id\")"));
    assert!(sql.contains("ON DELETE CASCADE"));
}

#[test]
fn test_generate_column_definition_not_null() {
    let col = ColumnSchema::new("email", ColumnType::String(Some(255)));
    let def = generate_column_definition(&col);
    assert!(def.contains("NOT NULL"));
}

#[test]
fn test_generate_column_definition_nullable() {
    let mut col = ColumnSchema::new("bio", ColumnType::Text);
    col.nullable = true;
    let def = generate_column_definition(&col);
    assert!(!def.contains("NOT NULL"));
}

#[test]
fn test_generate_column_definition_with_default() {
    let mut col = ColumnSchema::new("active", ColumnType::Boolean);
    col.default = Some("true".to_string());
    let def = generate_column_definition(&col);
    assert!(def.contains("DEFAULT true"));
}

#[test]
fn test_generate_drop_table() {
    let sql = generate_operation_sql(&SchemaOperation::DropTable("users".to_string()));
    assert_eq!(sql, "DROP TABLE IF EXISTS \"users\";");
}

#[test]
fn test_generate_add_column() {
    let col = ColumnSchema::new("email", ColumnType::String(Some(255)));
    let sql = generate_operation_sql(&SchemaOperation::AddColumn {
        table: "users".to_string(),
        column: col,
    });
    assert!(sql.contains("ALTER TABLE \"users\" ADD COLUMN"));
    assert!(sql.contains("\"email\" VARCHAR"));
}

#[test]
fn test_generate_rename_column() {
    let sql = generate_operation_sql(&SchemaOperation::RenameColumn {
        table: "users".to_string(),
        from: "name".to_string(),
        to: "full_name".to_string(),
    });
    assert!(sql.contains("RENAME COLUMN \"name\" TO \"full_name\""));
}

#[test]
fn test_generate_create_index() {
    let index = IndexSchema {
        name: "idx_users_email".to_string(),
        columns: vec!["email".to_string()],
        unique: true,
    };
    let sql = generate_create_index("users", &index);
    assert!(sql.contains("CREATE UNIQUE INDEX"));
    assert!(sql.contains("\"idx_users_email\""));
    assert!(sql.contains("ON \"users\""));
}

#[test]
fn test_column_type_to_sql() {
    assert_eq!(column_type_to_sql(&ColumnType::Integer), "INTEGER");
    assert_eq!(column_type_to_sql(&ColumnType::TimestampTz), "TIMESTAMPTZ");
    assert_eq!(column_type_to_sql(&ColumnType::Uuid), "UUID");
    assert_eq!(column_type_to_sql(&ColumnType::Text), "TEXT");
}

#[test]
fn test_generate_alter_column_type_change() {
    let changes = ColumnChanges {
        column_type: Some(ColumnType::BigInteger),
        ..Default::default()
    };
    let sql = generate_alter_column("users", "id", &changes);
    assert!(sql.contains("ALTER COLUMN \"id\" TYPE BIGINT"));
}

#[test]
fn test_generate_alter_column_nullable_change() {
    let changes = ColumnChanges {
        nullable: Some(true),
        ..Default::default()
    };
    let sql = generate_alter_column("users", "email", &changes);
    assert!(sql.contains("DROP NOT NULL"));

    let changes2 = ColumnChanges {
        nullable: Some(false),
        ..Default::default()
    };
    let sql2 = generate_alter_column("users", "email", &changes2);
    assert!(sql2.contains("SET NOT NULL"));
}

#[test]
fn test_generate_alter_column_default_change() {
    let changes = ColumnChanges {
        default: Some(Some("true".to_string())),
        ..Default::default()
    };
    let sql = generate_alter_column("users", "active", &changes);
    assert!(sql.contains("SET DEFAULT true"));
}

#[test]
fn test_generate_alter_column_drop_default() {
    let changes = ColumnChanges {
        default: Some(None),
        ..Default::default()
    };
    let sql = generate_alter_column("users", "active", &changes);
    assert!(sql.contains("DROP DEFAULT"));
}

#[test]
fn test_generate_alter_column_no_changes() {
    let changes = ColumnChanges::default();
    let sql = generate_alter_column("users", "id", &changes);
    assert!(sql.contains("-- No changes"));
}

#[test]
fn test_generate_sql_multiple_operations() {
    let ops = vec![
        SchemaOperation::CreateTable(TableSchema::new("users")),
        SchemaOperation::DropTable("old_table".to_string()),
    ];
    let sql = generate_sql(&ops);
    assert!(sql.contains("CREATE TABLE \"users\""));
    assert!(sql.contains("DROP TABLE IF EXISTS \"old_table\""));
}

#[test]
fn create_table_text_is_exact() {
    let mut schema = TableSchema::new("books");
    let mut id = ColumnSchema::new("id", ColumnType::Integer);
    id.primary_key = true;
    schema.columns.push(id);
    let mut gone = ColumnSchema::new("old", ColumnType::Text);
    gone.dropped = true;
    schema.columns.push(gone);
    schema.columns.push(ColumnSchema::new("title", ColumnType::String(None)));
    schema.primary_key = vec!["id".to_string()];
    schema.foreign_keys.push(ForeignKeySchema::new("author_id", "authors", "id"));
    schema.indexes.push(IndexSchema::new("idx_title", vec!["title".to_string()]));
    assert_eq!(
        generate_create_table(&schema),
        "CREATE TABLE \"books\" (\n    \"id\" INTEGER,\n    \"title\" VARCHAR(255) NOT NULL,\n    PRIMARY KEY (\"id\"),\n    CONSTRAINT \"fk_author_id_authors\" FOREIGN KEY (\"author_id\") REFERENCES \"authors\"(\"id\")\n);\n\nCREATE INDEX \"idx_title\" ON \"books\" (\"title\");"
    );
}

#[test]
fn alter_column_joins_statements_by_newlines() {
    let changes = ColumnChanges {
        column_type: Some(ColumnType::Text),
        nullable: Some(false),
        default: Some(None),
        ..Default::default()
    };
    assert_eq!(
        generate_alter_column("t", "c", &changes),
        "ALTER TABLE \"t\" ALTER COLUMN \"c\" TYPE TEXT;\nALTER TABLE \"t\" ALTER COLUMN \"c\" SET NOT NULL;\nALTER TABLE \"t\" ALTER COLUMN \"c\" DROP DEFAULT;"
    );
}

#[test]
fn generate_sql_creates_referenced_tables_first() {
    let mut books = TableSchema::new("books");
    books.foreign_keys.push(ForeignKeySchema::new("author_id", "authors", "id").on_delete(OnDeleteAction::SetNull));
    let mut reviews = TableSchema::new("reviews");
    reviews.foreign_keys.push(ForeignKeySchema::new("book_id", "books", "id"));
    let authors = TableSchema::new("authors");
    let ops = vec![
        SchemaOperation::DropTable("old".to_string()),
        SchemaOperation::CreateTable(reviews),
        SchemaOperation::CreateTable(books),
        SchemaOperation::CreateTable(authors),
    ];
    let sql = generate_sql(&ops);
    let a = sql.find("CREATE TABLE \"authors\"").unwrap();
    let b = sql.find("CREATE TABLE \"books\"").unwrap();
    let r = sql.find("CREATE TABLE \"reviews\"").unwrap();
    let d = sql.find("DROP TABLE IF EXISTS \"old\"").unwrap();
    assert!(a < b && b < r && r < d);
    assert!(sql.contains("ON DELETE SET NULL"));
}

#[test]
fn tables_in_a_cycle_keep_their_order_at_the_end() {
    let mut a = TableSchema::new("a");
    a.foreign_keys.push(ForeignKeySchema::new("b_id", "b", "id"));
    let mut b = TableSchema::new("b");
    b.foreign_keys.push(ForeignKeySchema::new("a_id", "a", "id"));
    let c = TableSchema::new("c");
    let ops = vec![SchemaOperation::CreateTable(a), SchemaOperation::CreateTable(b), SchemaOperation::CreateTable(c)];
    let sql = generate_sql(&ops);
    let pa = sql.find("CREATE TABLE \"a\"").unwrap();
    let pb = sql.find("CREATE TABLE \"b\"").unwrap();
    let pc = sql.find("CREATE TABLE \"c\"").unwrap();
    assert!(pc < pa && pa < pb);
}

#[test]
fn other_operations_print_exactly() {
    let op = SchemaOperation::RenameTable { from: "a".to_string(), to: "b".to_string() };
    assert_eq!(generate_operation_sql(&op), "ALTER TABLE \"a\" RENAME TO \"b\";");
    let op = SchemaOperation::DropIndex { table: "t".to_string(), name: "i".to_string() };
    assert_eq!(generate_operation_sql(&op), "DROP INDEX IF EXISTS \"i\";");
    let op = SchemaOperation::DropForeignKey { table: "t".to_string(), name: "f".to_string() };
    assert_eq!(generate_operation_sql(&op), "ALTER TABLE \"t\" DROP CONSTRAINT \"f\";");
    let op = SchemaOperation::DropColumn { table: "t".to_string(), column: "c".to_string() };
    assert_eq!(generate_operation_sql(&op), "ALTER TABLE \"t\" DROP COLUMN \"c\";");
    let fk = ForeignKeySchema::new("x", "y", "z").on_delete(OnDeleteAction::Restrict);
    let op = SchemaOperation::AddForeignKey { table: "t".to_string(), foreign_key: fk };
    assert_eq!(
        generate_operation_sql(&op),
        "ALTER TABLE \"t\" ADD CONSTRAINT \"fk_x_y\" FOREIGN KEY (\"x\") REFERENCES \"y\"(\"z\") ON DELETE RESTRICT;"
    );
}

#[test]
fn dependency_order_is_a_permutation_of_positions() {
    let mut books = TableSchema::new("books");
    books.foreign_keys.push(ForeignKeySchema::new("author_id", "authors", "id"));
    let ops = vec![
        SchemaOperation::DropTable("old".to_string()),
        SchemaOperation::CreateTable(books),
        SchemaOperation::DropTable("older".to_string()),
        SchemaOperation::CreateTable(TableSchema::new("authors")),
    ];
    assert_eq!(order_operations_by_dependencies(&ops), vec![3, 1, 0, 2]);
}

#[test]
fn duplicate_names_in_a_cycle_repeat_the_first() {
    let mut a1 = TableSchema::new("a");
    a1.foreign_keys.push(ForeignKeySchema::new("b_id", "b", "id"));
    let mut a2 = TableSchema::new("a");
    a2.foreign_keys.push(ForeignKeySchema::new("b_id", "b", "id"));
    let mut b = TableSchema::new("b");
    b.foreign_keys.push(ForeignKeySchema::new("a_id", "a", "id"));
    let ops = vec![SchemaOperation::CreateTable(a1), SchemaOperation::CreateTable(a2), SchemaOperation::CreateTable(b)];
    assert_eq!(order_operations_by_dependencies(&ops), vec![0, 0, 2]);
}
