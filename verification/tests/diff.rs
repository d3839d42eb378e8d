use ormada::diff::{generate_diff, order_operations, resolve_delta, SchemaOperation};
use ormada::schema::{ColumnSchema, ColumnType, ForeignKeySchema, IndexSchema, TableSchema};

fn make_table(name: &str, columns: Vec<ColumnSchema>) -> TableSchema {
    let mut table = TableSchema::new(name);
    for col in columns {
        if col.primary_key {
            table.primary_key.push(col.name.clone());
        }
        table.columns.push(col);
    }
    table
}

#[test]
fn test_diff_new_table() {
    let current: Vec<TableSchema> = vec![];
    let target = vec![make_table(
        "books",
        vec![
            ColumnSchema::new("id", ColumnType::Integer).primary_key(true),
            ColumnSchema::new("title", ColumnType::String(Some(200))),
        ],
    )];

    let ops = generate_diff(&current, &target);

    assert_eq!(ops.len(), 1);
    assert!(matches!(&ops[0], SchemaOperation::CreateTable(t) if t.name == "books"));
}

#[test]
fn test_diff_drop_table() {
    let current = vec![make_table(
        "books",
        vec![ColumnSchema::new("id", ColumnType::Integer).primary_key(true)],
    )];
    let target: Vec<TableSchema> = vec![];

    let ops = generate_diff(&current, &target);

    assert_eq!(ops.len(), 1);
    assert!(matches!(&ops[0], SchemaOperation::DropTable(name) if name == "books"));
}

#[test]
fn test_diff_add_column() {
    let current = vec![make_table(
        "books",
        vec![ColumnSchema::new("id", ColumnType::Integer).primary_key(true)],
    )];
    let target = vec![make_table(
        "books",
        vec![
            ColumnSchema::new("id", ColumnType::Integer).primary_key(true),
            ColumnSchema::new("title", ColumnType::String(Some(200))),
        ],
    )];

    let ops = generate_diff(&current, &target);

    assert_eq!(ops.len(), 1);
    assert!(matches!(
        &ops[0],
        SchemaOperation::AddColumn { table, column }
        if table == "books" && column.name == "title"
    ));
}

#[test]
fn test_diff_drop_column() {
    let current = vec![make_table(
        "books",
        vec![
            ColumnSchema::new("id", ColumnType::Integer).primary_key(true),
            ColumnSchema::new("title", ColumnType::String(Some(200))),
        ],
    )];
    let target = vec![make_table(
        "books",
        vec![ColumnSchema::new("id", ColumnType::Integer).primary_key(true)],
    )];

    let ops = generate_diff(&current, &target);

    assert_eq!(ops.len(), 1);
    assert!(matches!(
        &ops[0],
        SchemaOperation::DropColumn { table, column }
        if table == "books" && column == "title"
    ));
}

#[test]
fn test_diff_rename_column() {
    let current = vec![make_table(
        "books",
        vec![
            ColumnSchema::new("id", ColumnType::Integer).primary_key(true),
            ColumnSchema::new("title", ColumnType::String(Some(200))),
        ],
    )];

    let mut name_col = ColumnSchema::new("name", ColumnType::String(Some(200)));
    name_col.renamed_from = Some("title".to_string());

    let target = vec![make_table(
        "books",
        vec![ColumnSchema::new("id", ColumnType::Integer).primary_key(true), name_col],
    )];

    let ops = generate_diff(&current, &target);

    assert!(ops.iter().any(|op| matches!(
        op,
        SchemaOperation::RenameColumn { table, from, to }
        if table == "books" && from == "title" && to == "name"
    )));
}

#[test]
fn test_resolve_delta_add_column() {
    let base = make_table(
        "books",
        vec![ColumnSchema::new("id", ColumnType::Integer).primary_key(true)],
    );

    let mut delta = TableSchema::new("books");
    delta.migration_id = Some("002".to_string());
    delta.columns.push(ColumnSchema::new("title", ColumnType::String(Some(200))));

    let result = resolve_delta(&base, &delta);

    assert_eq!(result.columns.len(), 2);
    assert!(result.find_column("id").is_some());
    assert!(result.find_column("title").is_some());
    assert_eq!(result.migration_id, Some("002".to_string()));
}

#[test]
fn test_resolve_delta_drop_column() {
    let base = make_table(
        "books",
        vec![
            ColumnSchema::new("id", ColumnType::Integer).primary_key(true),
            ColumnSchema::new("legacy", ColumnType::String(None)),
        ],
    );

    let mut delta = TableSchema::new("books");
    let mut drop_col = ColumnSchema::new("legacy", ColumnType::String(None));
    drop_col.dropped = true;
    delta.columns.push(drop_col);

    let result = resolve_delta(&base, &delta);

    assert_eq!(result.columns.len(), 1);
    assert!(result.find_column("id").is_some());
    assert!(result.find_column("legacy").is_none());
}

#[test]
fn test_operation_ordering() {
    let ops = vec![
        SchemaOperation::AddColumn {
            table: "t".to_string(),
            column: ColumnSchema::new("c", ColumnType::Integer),
        },
        SchemaOperation::DropForeignKey {
            table: "t".to_string(),
            name: "fk".to_string(),
        },
        SchemaOperation::CreateTable(TableSchema::new("new")),
        SchemaOperation::DropTable("old".to_string()),
    ];

    let ordered = order_operations(ops);

    // DropForeignKey should come first
    assert!(matches!(&ordered[0], SchemaOperation::DropForeignKey { .. }));
    // DropTable before CreateTable
    assert!(matches!(&ordered[1], SchemaOperation::DropTable(_)));
    assert!(matches!(&ordered[2], SchemaOperation::CreateTable(_)));
    // AddColumn last
    assert!(matches!(&ordered[3], SchemaOperation::AddColumn { .. }));
}

#[test]
fn test_diff_alter_column_type() {
    let current = vec![make_table(
        "books",
        vec![
            ColumnSchema::new("id", ColumnType::Integer).primary_key(true),
            ColumnSchema::new("price", ColumnType::Integer),
        ],
    )];
    let target = vec![make_table(
        "books",
        vec![
            ColumnSchema::new("id", ColumnType::Integer).primary_key(true),
            ColumnSchema::new("price", ColumnType::Double),
        ],
    )];

    let ops = generate_diff(&current, &target);

    assert_eq!(ops.len(), 1);
    assert!(matches!(
        &ops[0],
        SchemaOperation::AlterColumn { table, column, changes }
        if table == "books" && column == "price" && changes.column_type.is_some()
    ));
}

#[test]
fn test_diff_multiple_tables() {
    let current: Vec<TableSchema> = vec![];
    let target = vec![
        make_table(
            "authors",
            vec![ColumnSchema::new("id", ColumnType::Integer).primary_key(true)],
        ),
        make_table(
            "books",
            vec![ColumnSchema::new("id", ColumnType::Integer).primary_key(true)],
        ),
    ];

    let ops = generate_diff(&current, &target);

    assert_eq!(ops.len(), 2);
    let table_names: Vec<_> = ops
        .iter()
        .filter_map(|op| {
            if let SchemaOperation::CreateTable(t) = op {
                Some(t.name.as_str())
            } else {
                None
            }
        })
        .collect();
    assert!(table_names.contains(&"authors"));
    assert!(table_names.contains(&"books"));
}

#[test]
fn test_diff_no_changes() {
    let schema = vec![make_table(
        "books",
        vec![
            ColumnSchema::new("id", ColumnType::Integer).primary_key(true),
            ColumnSchema::new("title", ColumnType::String(Some(200))),
        ],
    )];

    let ops = generate_diff(&schema, &schema);

    assert!(ops.is_empty());
}

#[test]
fn test_resolve_delta_rename_column() {
    let base = make_table(
        "authors",
        vec![
            ColumnSchema::new("id", ColumnType::Integer).primary_key(true),
            ColumnSchema::new("name", ColumnType::String(Some(100))),
        ],
    );

    let mut delta = TableSchema::new("authors");
    let mut renamed_col = ColumnSchema::new("full_name", ColumnType::String(Some(100)));
    renamed_col.renamed_from = Some("name".to_string());
    delta.columns.push(renamed_col);

    let result = resolve_delta(&base, &delta);

    assert_eq!(result.columns.len(), 2);
    assert!(result.find_column("id").is_some());
    assert!(result.find_column("full_name").is_some());
    assert!(result.find_column("name").is_none());
}

#[test]
fn test_resolve_delta_modify_existing_column() {
    let base = make_table(
        "books",
        vec![
            ColumnSchema::new("id", ColumnType::Integer).primary_key(true),
            ColumnSchema::new("title", ColumnType::String(Some(100))),
        ],
    );

    let mut delta = TableSchema::new("books");
    let mut modified_col = ColumnSchema::new("title", ColumnType::String(Some(500)));
    modified_col.unique = true;
    modified_col.max_length = Some(500);
    delta.columns.push(modified_col);

    let result = resolve_delta(&base, &delta);

    assert_eq!(result.columns.len(), 2);
    let title_col = result.find_column("title").unwrap();
    // When column exists, it gets replaced entirely by delta
    assert!(title_col.unique);
    assert_eq!(title_col.column_type, ColumnType::String(Some(500)));
}

#[test]
fn test_diff_add_index() {
    let current = vec![make_table(
        "books",
        vec![ColumnSchema::new("id", ColumnType::Integer).primary_key(true)],
    )];

    let mut target_table = make_table(
        "books",
        vec![ColumnSchema::new("id", ColumnType::Integer).primary_key(true)],
    );
    target_table
        .indexes
        .push(IndexSchema::new("idx_books_title", vec!["title".to_string()]));
    let target = vec![target_table];

    let ops = generate_diff(&current, &target);

    assert!(ops.iter().any(|op| matches!(op, SchemaOperation::CreateIndex { .. })));
}

#[test]
fn test_diff_add_foreign_key() {
    let current = vec![make_table(
        "books",
        vec![
            ColumnSchema::new("id", ColumnType::Integer).primary_key(true),
            ColumnSchema::new("author_id", ColumnType::Integer),
        ],
    )];

    let mut target_table = make_table(
        "books",
        vec![
            ColumnSchema::new("id", ColumnType::Integer).primary_key(true),
            ColumnSchema::new("author_id", ColumnType::Integer),
        ],
    );
    target_table.foreign_keys.push(ForeignKeySchema::new(
        "author_id",
        "authors",
        "id",
    ));
    let target = vec![target_table];

    let ops = generate_diff(&current, &target);

    assert!(ops.iter().any(|op| matches!(op, SchemaOperation::AddForeignKey { .. })));
}

#[test]
fn diff_drops_foreign_keys_before_tables_and_adds_columns_last() {
    let mut with_fk = make_table("posts", vec![ColumnSchema::new("id", ColumnType::Integer).primary_key(true)]);
    with_fk.columns.push(ColumnSchema::new("author_id", ColumnType::Integer));
    with_fk.foreign_keys.push(ForeignKeySchema::new("author_id", "authors", "id"));
    let current = vec![with_fk, make_table("old", vec![])];
    let mut target_posts = make_table("posts", vec![ColumnSchema::new("id", ColumnType::Integer).primary_key(true)]);
    target_posts.columns.push(ColumnSchema::new("author_id", ColumnType::Integer));
    target_posts.columns.push(ColumnSchema::new("body", ColumnType::Text));
    let target = vec![target_posts];
    let ops = generate_diff(&current, &target);
    assert_eq!(ops.len(), 3);
    assert!(matches!(&ops[0], SchemaOperation::DropForeignKey { table, name } if table == "posts" && name == "fk_posts_author_id"));
    assert!(matches!(&ops[1], SchemaOperation::DropTable(n) if n == "old"));
    assert!(matches!(&ops[2], SchemaOperation::AddColumn { column, .. } if column.name == "body"));
}

#[test]
fn empty_delta_leaves_base_columns() {
    let base = make_table("books", vec![ColumnSchema::new("id", ColumnType::Integer).primary_key(true)]);
    let delta = TableSchema::new("books");
    let result = resolve_delta(&base, &delta);
    assert_eq!(result.name, "books");
    assert_eq!(result.columns.len(), 1);
    assert_eq!(result.primary_key, vec!["id".to_string()]);
}
