use ormada::config::{
    generate_migration_id, migration_id, migration_id_at, timestamp_of, parse_cargo_metadata, parse_ormada_config, slugify,
    CliConfig,
};

#[test]
fn test_slugify() {
    assert_eq!(slugify("Add Books Table"), "add_books_table");
    assert_eq!(slugify("add-isbn-column"), "add_isbn_column");
    assert_eq!(slugify("Initial Migration!"), "initial_migration");
}

#[test]
fn slugify_collapses_runs_and_trims_separators() {
    assert_eq!(slugify("__Hello,,  World__"), "hello_world");
    assert_eq!(slugify("!!!"), "");
    assert_eq!(slugify("Crème Brûlée"), "crème_brûlée");
}

#[test]
fn test_parse_ormada_config() {
    let content = r#"
[migrations]
migrations_dir = "src/db/migrations"

[database]
url = "postgres://localhost/test"
"#;
    let mut config = CliConfig::default();
    parse_ormada_config(content, &mut config);

    assert_eq!(config.migrations_dir, "src/db/migrations");
    assert_eq!(config.database_url, Some("postgres://localhost/test".to_string()));
}

#[test]
fn test_parse_cargo_metadata() {
    let content = r#"
[package]
name = "my-app"
version = "0.1.0"

[dependencies]
ormada = "0.1"

[package.metadata.ormada]
migrations_dir = "db/migrations"
database_url = "sqlite://./dev.db"
"#;
    let mut config = CliConfig::default();
    parse_cargo_metadata(content, &mut config);

    assert_eq!(config.migrations_dir, "db/migrations");
    assert_eq!(config.database_url, Some("sqlite://./dev.db".to_string()));
}

#[test]
fn test_parse_cargo_metadata_with_dir_shorthand() {
    let content = r#"
[package.metadata.ormada]
dir = "migrations"
"#;
    let mut config = CliConfig::default();
    parse_cargo_metadata(content, &mut config);

    assert_eq!(config.migrations_dir, "migrations");
}

#[test]
fn cargo_settings_outside_the_section_are_ignored() {
    let content = "[package]\nmigrations_dir = \"nope\"\n[package.metadata.ormada]\n[dependencies]\ndatabase_url = \"x\"\n";
    let mut config = CliConfig::default();
    parse_cargo_metadata(content, &mut config);
    assert_eq!(config.migrations_dir, "migrations");
    assert_eq!(config.database_url, None);
}

#[test]
fn commented_url_is_ignored() {
    let mut config = CliConfig::default();
    parse_ormada_config("# url = \"x\"\r\nurl=\"y\"\r\n", &mut config);
    assert_eq!(config.database_url, Some("y".to_string()));
}

#[test]
fn test_generate_migration_id() {
    let id = generate_migration_id("add books").unwrap();
    assert!(id.starts_with("m20"));
    assert!(id.contains("add_books"));
}

#[test]
fn migration_id_is_m_timestamp_slug() {
    assert_eq!(migration_id("20240101_120000", "Add Users"), "m20240101_120000_add_users");
}

#[test]
fn default_config_and_migrations_path() {
    let config = CliConfig::default();
    assert_eq!(config.project_root, ".");
    assert_eq!(config.model_paths, vec!["src".to_string()]);
    let mut abs = CliConfig::default();
    abs.migrations_dir = "/var/migrations".to_string();
    assert_eq!(abs.migrations_path(), "/var/migrations");
    assert_eq!(config.migrations_path(), "./migrations");
}

#[test]
fn timestamp_is_zero_padded() {
    assert_eq!(timestamp_of((2024, 1, 2, 3, 4, 5)), "20240102_030405");
    assert_eq!(timestamp_of((812, 12, 31, 23, 59, 59)), "08121231_235959");
    assert_eq!(timestamp_of((12345, 6, 7, 8, 9, 10)), "+123450607_080910");
    let id = generate_migration_id("x").unwrap();
    assert_eq!(id.len(), "m20240102_030405_x".len());
    assert_eq!(&id[9..10], "_");
}

#[test]
fn migration_id_at_a_given_instant() {
    assert_eq!(migration_id_at(0, "Add Users"), Some("m19700101_000000_add_users".to_string()));
    assert_eq!(migration_id_at(1704110400, "init"), Some("m20240101_120000_init".to_string()));
    assert_eq!(migration_id_at(u64::MAX, "x"), None);
    assert_eq!(migration_id_at(i64::MAX as u64, "x"), None);
}
