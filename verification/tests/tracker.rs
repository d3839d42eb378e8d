use ormada::pending::{
    compute_checksum, filter_pending_migrations, next_step, record_outcome, start_run,
    verify_checksums_local, AppliedMigration, PendingMigration, RunStep,
};
use ormada::tracker::{split_sql_statements, MigrationValidator};

fn now_micros() -> i64 {
    chrono::Utc::now().timestamp_micros()
}

#[test]
fn test_split_sql_statements_simple() {
    let sql = "CREATE TABLE a; CREATE TABLE b;";
    let stmts = split_sql_statements(sql);
    assert_eq!(stmts.len(), 2);
    assert!(stmts[0].contains("CREATE TABLE a"));
    assert!(stmts[1].contains("CREATE TABLE b"));
}

#[test]
fn test_split_sql_statements_with_parentheses() {
    let sql = "CREATE TABLE a (id INT; name TEXT); CREATE TABLE b;";
    let stmts = split_sql_statements(sql);
    assert_eq!(stmts.len(), 2);
}

#[test]
fn test_split_sql_statements_with_strings() {
    let sql = "INSERT INTO a VALUES ('hello; world'); SELECT 1;";
    let stmts = split_sql_statements(sql);
    assert_eq!(stmts.len(), 2);
}

#[test]
fn test_split_sql_statements_multiline() {
    let sql = r#"
CREATE TABLE users (
    id INTEGER,
    name TEXT
);

CREATE TABLE posts (
    id INTEGER
);
"#;
    let stmts = split_sql_statements(sql);
    assert_eq!(stmts.len(), 2);
}

#[test]
fn split_keeps_a_trailing_statement_and_escaped_quotes() {
    let stmts = split_sql_statements("SELECT 'it\\'s; fine'; SELECT 2");
    assert_eq!(stmts, vec!["SELECT 'it\\'s; fine'".to_string(), " SELECT 2".to_string()]);
    assert!(split_sql_statements("  ;  ; ").is_empty());
}

#[test]
fn test_compute_checksum() {
    let checksum1 = compute_checksum("CREATE TABLE foo (id INT);");
    let checksum2 = compute_checksum("CREATE TABLE foo (id INT);");
    let checksum3 = compute_checksum("CREATE TABLE bar (id INT);");

    assert_eq!(checksum1, checksum2);
    assert_ne!(checksum1, checksum3);
    assert_eq!(checksum1.len(), 64);
}

#[test]
fn checksum_is_lowercase_hex_sha256() {
    assert_eq!(
        compute_checksum(""),
        "e3b0c44298fc1c149afbf4c8996fb92427ae41e4649b934ca495991b7852b855"
    );
    assert_eq!(
        compute_checksum("abc"),
        "ba7816bf8f01cfea414140de5dae2223b00361a396177a9cb410ff61f20015ad"
    );
}

#[test]
fn test_validator_detects_duplicates() {
    let mut v = MigrationValidator::new();
    v.add("m001", None);
    v.add("m001", None);

    let result = v.validate();
    assert!(result.is_err());
    assert!(result.unwrap_err().message().contains("Duplicate"));
}

#[test]
fn test_validator_detects_missing_dependency() {
    let mut v = MigrationValidator::new();
    v.add("m002", Some("m001"));

    let result = v.validate();
    assert!(result.is_err());
    assert!(result.unwrap_err().message().contains("does not exist"));
}

#[test]
fn test_validator_detects_circular_dependency() {
    let mut v = MigrationValidator::new();
    v.add("m001", Some("m002"));
    v.add("m002", Some("m001"));

    let result = v.validate();
    assert!(result.is_err());
    assert!(result.unwrap_err().message().contains("Circular"));
}

#[test]
fn test_validator_orders_correctly() {
    let mut v = MigrationValidator::new();
    v.add("m003", Some("m002"));
    v.add("m001", None);
    v.add("m002", Some("m001"));

    let result = v.validate().unwrap();
    assert_eq!(result, vec!["m001", "m002", "m003"]);
}

#[test]
fn test_validator_handles_no_dependencies() {
    let mut v = MigrationValidator::new();
    v.add("m001", None);
    v.add("m002", None);
    v.add("m003", None);

    let result = v.validate().unwrap();
    assert_eq!(result.len(), 3);
}

#[test]
fn validator_messages_name_the_migrations() {
    let mut v = MigrationValidator::new();
    v.add("m002", Some("m001"));
    assert_eq!(
        v.validate().unwrap_err().message(),
        "Migration 'm002' depends on 'm001' which does not exist"
    );
    let mut d = MigrationValidator::new();
    d.add("a", None);
    d.add("a", Some("a"));
    assert_eq!(d.validate().unwrap_err().message(), "Duplicate migration ID: a");
    let mut s = MigrationValidator::new();
    s.add("a", Some("a"));
    assert_eq!(s.validate().unwrap_err().message(), "Circular dependency detected in migrations");
}

#[test]
fn validator_on_nothing_gives_empty_order() {
    let v = MigrationValidator::new();
    assert!(v.validate().unwrap().is_empty());
}

#[test]
fn test_filter_pending_migrations_all_pending() {
    let all = vec![
        PendingMigration::new("m001", "initial", "CREATE TABLE a;"),
        PendingMigration::new("m002", "add_users", "CREATE TABLE b;"),
        PendingMigration::new("m003", "add_posts", "CREATE TABLE c;"),
    ];

    let pending = filter_pending_migrations(&all, &[]);
    assert_eq!(pending.len(), 3);
}

#[test]
fn test_filter_pending_migrations_some_applied() {
    let all = vec![
        PendingMigration::new("m001", "initial", "CREATE TABLE a;"),
        PendingMigration::new("m002", "add_users", "CREATE TABLE b;"),
        PendingMigration::new("m003", "add_posts", "CREATE TABLE c;"),
    ];

    let pending = filter_pending_migrations(&all, &["m001", "m002"]);
    assert_eq!(pending.len(), 1);
    assert_eq!(pending[0].version, "m003");
}

#[test]
fn test_filter_pending_migrations_all_applied() {
    let all = vec![
        PendingMigration::new("m001", "initial", "CREATE TABLE a;"),
        PendingMigration::new("m002", "add_users", "CREATE TABLE b;"),
    ];

    let pending = filter_pending_migrations(&all, &["m001", "m002"]);
    assert!(pending.is_empty());
}

#[test]
fn test_verify_checksums_local_match() {
    let local = vec![PendingMigration::new("m001", "initial", "CREATE TABLE a;")];
    let applied = vec![AppliedMigration {
        version: "m001".to_string(),
        name: "initial".to_string(),
        checksum: compute_checksum("CREATE TABLE a;"),
        applied_at: now_micros(),
    }];

    let mismatches = verify_checksums_local(&local, &applied);
    assert!(mismatches.is_empty());
}

#[test]
fn test_verify_checksums_local_mismatch() {
    let local = vec![PendingMigration::new("m001", "initial", "CREATE TABLE a;")];
    let applied = vec![AppliedMigration {
        version: "m001".to_string(),
        name: "initial".to_string(),
        checksum: "different_checksum_value_here_1234567890abcdef".to_string(),
        applied_at: now_micros(),
    }];

    let mismatches = verify_checksums_local(&local, &applied);
    assert_eq!(mismatches.len(), 1);
    assert!(mismatches[0].contains("m001"));
}

#[test]
fn test_verify_checksums_local_new_migration_not_mismatch() {
    let local = vec![
        PendingMigration::new("m001", "initial", "CREATE TABLE a;"),
        PendingMigration::new("m002", "add_users", "CREATE TABLE b;"),
    ];
    let applied = vec![AppliedMigration {
        version: "m001".to_string(),
        name: "initial".to_string(),
        checksum: compute_checksum("CREATE TABLE a;"),
        applied_at: now_micros(),
    }];

    let mismatches = verify_checksums_local(&local, &applied);
    assert!(mismatches.is_empty());
}

#[test]
fn mismatch_line_shows_eight_bytes_of_each_checksum() {
    let local = vec![PendingMigration::new("m001", "initial", "CREATE TABLE a;")];
    let applied = vec![AppliedMigration {
        version: "m001".to_string(),
        name: "initial".to_string(),
        checksum: "0123456789abcdef".to_string(),
        applied_at: 0,
    }];
    let expected_local = &local[0].checksum[..8];
    let mismatches = verify_checksums_local(&local, &applied);
    assert_eq!(mismatches, vec![format!("m001: local={expected_local}, applied=01234567")]);
}

#[test]
fn test_pending_migration_checksum_computed() {
    let m1 = PendingMigration::new("m001", "test", "SELECT 1;");
    let m2 = PendingMigration::new("m002", "test", "SELECT 1;");
    let m3 = PendingMigration::new("m003", "test", "SELECT 2;");

    assert_eq!(m1.checksum, m2.checksum);
    assert_ne!(m1.checksum, m3.checksum);
}

#[test]
fn test_migration_report_format() {
    let mut report = ormada::pending::MigrationReport::new(false);
    report.applied.push(AppliedMigration {
        version: "m001".to_string(),
        name: "initial".to_string(),
        checksum: "abc123".to_string(),
        applied_at: now_micros(),
    });

    let output = report.format();
    assert!(output.contains("Applied"));
    assert!(output.contains("m001"));
}

#[test]
fn test_dry_run_report() {
    let report = ormada::pending::MigrationReport::new(true);
    let output = report.format();
    assert!(output.contains("DRY RUN"));
}

#[test]
fn report_lists_skipped_and_failed() {
    let mut report = ormada::pending::MigrationReport::new(true);
    report.skipped.push("m000".to_string());
    report.failed = Some(("m009".to_string(), "boom".to_string()));
    assert!(!report.has_changes());
    assert_eq!(report.applied_count(), 0);
    let output = report.format();
    assert!(output.contains(" Skipped (already applied):\n"));
    assert!(output.contains(" m000\n"));
    assert!(output.contains(" Failed: m009\n"));
    let preview = report.format_sql_preview(&[PendingMigration::new("m010", "x", "SELECT 1;")]);
    assert!(preview.contains("SELECT 1;"));
    assert!(preview.contains("-- Migration: "));
}

#[test]
fn executed_statements_skip_comments_and_blanks() {
    let stmts = ormada::tracker::statements_to_execute("-- note\n; CREATE TABLE a (x INT) ;\n\n;  SELECT 1");
    assert_eq!(stmts, vec!["CREATE TABLE a (x INT)".to_string(), "SELECT 1".to_string()]);
}

#[test]
fn full_checksum_mismatch_lines() {
    let local = vec![PendingMigration::new("m001", "initial", "CREATE TABLE a;")];
    let applied = vec![
        AppliedMigration { version: "m001".to_string(), name: "initial".to_string(), checksum: "abc".to_string(), applied_at: 0 },
        AppliedMigration { version: "m002".to_string(), name: "gone".to_string(), checksum: "def".to_string(), applied_at: 0 },
    ];
    let lines = ormada::pending::checksum_mismatches(&local, &applied);
    assert_eq!(lines, vec![format!("m001: expected abc, got {}", local[0].checksum)]);
}

#[test]
fn run_steps_apply_in_order_and_stop_at_failure() {
    let done = vec![AppliedMigration {
        version: "m1".to_string(),
        name: "init".to_string(),
        checksum: "c".to_string(),
        applied_at: 5,
    }];
    let pending = vec![
        PendingMigration::new("m2", "add", "CREATE TABLE a (id INT);"),
        PendingMigration::new("m3", "more", "CREATE TABLE b (id INT);"),
        PendingMigration::new("m4", "last", "CREATE TABLE c (id INT);"),
    ];
    let mut report = start_run(&done, false);
    assert_eq!(report.skipped, vec!["m1".to_string()]);
    assert_eq!(next_step(&report, &pending), RunStep::Execute(0));
    record_outcome(&mut report, &pending[0], Ok(100));
    assert_eq!(report.applied[0].version, "m2");
    assert_eq!(report.applied[0].applied_at, 100);
    assert_eq!(next_step(&report, &pending), RunStep::Execute(1));
    record_outcome(&mut report, &pending[1], Err("syntax error".to_string()));
    assert_eq!(report.failed, Some(("m3".to_string(), "syntax error".to_string())));
    assert_eq!(report.applied.len(), 1);
    assert_eq!(next_step(&report, &pending), RunStep::Finish);
}

#[test]
fn dry_run_previews_every_pending_migration() {
    let pending = vec![PendingMigration::new("m1", "a", "SELECT 1;"), PendingMigration::new("m2", "b", "SELECT 2;")];
    let mut report = start_run(&[], true);
    let mut steps = Vec::new();
    loop {
        match next_step(&report, &pending) {
            RunStep::Preview(i) => {
                steps.push(i);
                record_outcome(&mut report, &pending[i], Ok(0));
            }
            other => {
                assert_eq!(other, RunStep::Finish);
                break;
            }
        }
    }
    assert_eq!(steps, vec![0, 1]);
    assert!(report.dry_run && report.has_changes());
    assert_eq!(report.applied_count(), 2);
}
