use ormada::error::OrmadaError;
use ormada::query::is_unique_violation;

#[test]
fn test_operational_error() {
    let error = OrmadaError::OperationalError("Database not initialized".into());
    assert!(error.message().contains("OperationalError"));
    assert!(error.message().contains("Database not initialized"));
}

#[test]
fn test_programming_error() {
    let error = OrmadaError::ProgrammingError("Invalid SQL syntax".into());
    assert!(error.message().contains("ProgrammingError"));
    assert!(error.message().contains("Invalid SQL syntax"));
}

#[test]
fn test_integrity_error() {
    let error = OrmadaError::IntegrityError("Duplicate key violation".into());
    assert!(error.message().contains("IntegrityError"));
    assert!(error.message().contains("Duplicate key"));
}

#[test]
fn test_error_is_send() {
    fn assert_send<T: Send>() {}
    assert_send::<OrmadaError>();
}

#[test]
fn test_error_is_sync() {
    fn assert_sync<T: Sync>() {}
    assert_sync::<OrmadaError>();
}

#[test]
fn test_error_trait_implementation() {
    let error = OrmadaError::validation_error("test", "field", "reason");
    assert_eq!(error.message(), "ValidationError: test.field: reason");
}

#[test]
fn test_does_not_exist_error() {
    let error = OrmadaError::does_not_exist("Book", 123);
    assert!(error.message().contains("Book"));
    assert!(error.message().contains("123"));
    assert!(error.message().contains("DoesNotExist"));
}

#[test]
fn test_does_not_exist_pattern_matching() {
    let error = OrmadaError::DoesNotExist { entity: "Author", id: "456".to_string() };

    match error {
        OrmadaError::DoesNotExist { entity, id } => {
            assert_eq!(entity, "Author");
            assert_eq!(id, "456");
        }
        _ => panic!("Expected DoesNotExist variant"),
    }
}

#[test]
fn test_multiple_objects_returned() {
    let error = OrmadaError::multiple_objects_returned("Book", 3);
    assert!(error.message().contains("Book"));
    assert!(error.message().contains("3"));
    assert!(error.message().contains("MultipleObjectsReturned"));
}

#[test]
fn test_validation_error() {
    let error = OrmadaError::validation_error("User", "email", "invalid format");
    assert!(error.message().contains("User"));
    assert!(error.message().contains("email"));
    assert!(error.message().contains("invalid format"));
    assert!(error.message().contains("ValidationError"));
}

#[test]
fn test_validation_pattern_matching() {
    let error = OrmadaError::ValidationError {
        entity: "Book",
        field: "title",
        reason: "too long".to_string(),
    };

    match error {
        OrmadaError::ValidationError { entity, field, reason } => {
            assert_eq!(entity, "Book");
            assert_eq!(field, "title");
            assert_eq!(reason, "too long");
        }
        _ => panic!("Expected ValidationError variant"),
    }
}

#[test]
fn test_error_variants_are_distinct() {
    let does_not_exist = OrmadaError::does_not_exist("Book", 1);
    let validation = OrmadaError::validation_error("Book", "title", "required");
    let empty = OrmadaError::empty_result_set("first");

    assert!(matches!(does_not_exist, OrmadaError::DoesNotExist { .. }));
    assert!(matches!(validation, OrmadaError::ValidationError { .. }));
    assert!(matches!(empty, OrmadaError::EmptyResultSet { .. }));
}

#[test]
fn test_empty_result_set_error() {
    let error = OrmadaError::empty_result_set("first");
    assert!(error.message().contains("DoesNotExist"));
    assert!(error.message().contains("first"));
}

#[test]
fn test_concurrency_error() {
    let error = OrmadaError::concurrency_error("get_or_create", 3);
    assert!(error.message().contains("get_or_create"));
    assert!(error.message().contains("3"));
    assert!(error.message().contains("ConcurrencyError"));
}

#[test]
fn test_data_error() {
    let error = OrmadaError::DataError {
        from: "String",
        to: "i32",
        reason: "invalid digit".into(),
    };
    assert!(error.message().contains("DataError"));
    assert!(error.message().contains("String"));
    assert!(error.message().contains("i32"));
}

#[test]
fn test_transaction_error() {
    let error = OrmadaError::TransactionError("Deadlock detected".into());
    assert!(error.message().contains("TransactionError"));
    assert!(error.message().contains("Deadlock"));
}

#[test]
fn test_migration_error() {
    let error = OrmadaError::MigrationError("Migration 003 failed".into());
    assert!(error.message().contains("MigrationError"));
    assert!(error.message().contains("003"));
}

#[test]
fn test_configuration_error() {
    let error = OrmadaError::ConfigurationError("DATABASE_URL not set".into());
    assert!(error.message().contains("ConfigurationError"));
    assert!(error.message().contains("DATABASE_URL"));
}

#[test]
fn test_record_not_inserted() {
    let error = OrmadaError::RecordNotInserted("All conflicted".into());
    assert!(error.message().contains("RecordNotInserted"));
}

#[test]
fn test_record_not_updated() {
    let error = OrmadaError::RecordNotUpdated("No matching rows".into());
    assert!(error.message().contains("RecordNotUpdated"));
}

#[test]
fn test_helper_methods() {
    let conn_err = OrmadaError::OperationalError("test".into());
    assert!(conn_err.is_operational_error());
    assert!(conn_err.is_retryable());
    assert!(!conn_err.is_does_not_exist());

    let does_not_exist = OrmadaError::does_not_exist("Book", 1);
    assert!(does_not_exist.is_does_not_exist());
    assert!(!does_not_exist.is_operational_error());

    let integrity = OrmadaError::IntegrityError("duplicate".into());
    assert!(integrity.is_integrity_error());

    let validation = OrmadaError::validation_error("User", "email", "invalid");
    assert!(validation.is_validation_error());
}

#[test]
fn test_django_style_does_not_exist() {
    // DoesNotExist variant
    let does_not_exist = OrmadaError::DoesNotExist { entity: "Book", id: "123".into() };
    assert!(does_not_exist.is_does_not_exist());

    // EmptyResultSet is also DoesNotExist
    let empty = OrmadaError::EmptyResultSet { operation: "first" };
    assert!(empty.is_does_not_exist());

    // Other errors are not DoesNotExist
    let conn = OrmadaError::OperationalError("test".into());
    assert!(!conn.is_does_not_exist());
}

#[test]
fn test_django_style_integrity_error() {
    let integrity = OrmadaError::IntegrityError("UNIQUE constraint failed".into());
    assert!(integrity.is_integrity_error());
    assert!(integrity.is_duplicate_entry());
    assert!(!integrity.is_foreign_key_violation());

    let fk_error = OrmadaError::IntegrityError("FOREIGN KEY constraint failed".into());
    assert!(fk_error.is_integrity_error());
    assert!(fk_error.is_foreign_key_violation());
    assert!(!fk_error.is_duplicate_entry());
}

#[test]
fn test_error_inspection() {
    let does_not_exist = OrmadaError::does_not_exist("Book", 123);
    assert_eq!(does_not_exist.entity(), Some("Book"));
    assert_eq!(does_not_exist.field(), None);

    let validation = OrmadaError::validation_error("Author", "email", "invalid");
    assert_eq!(validation.entity(), Some("Author"));
    assert_eq!(validation.field(), Some("email"));

    let conn = OrmadaError::OperationalError("test".into());
    assert_eq!(conn.entity(), None);
    assert_eq!(conn.field(), None);
}

#[test]
fn test_transaction_retryable() {
    let tx_err = OrmadaError::TransactionError("Deadlock".into());
    assert!(tx_err.is_transaction_error());
    assert!(tx_err.is_retryable());
}

#[test]
fn test_error_equality() {
    let err1 = OrmadaError::OperationalError("test".into());
    let err2 = OrmadaError::OperationalError("test".into());
    let err3 = OrmadaError::OperationalError("other".into());

    assert_eq!(err1, err2);
    assert_ne!(err1, err3);
}

#[test]
fn messages_are_exact() {
    assert_eq!(
        OrmadaError::does_not_exist("Book", 123).message(),
        "Book.DoesNotExist: Book matching query does not exist (id=123)"
    );
    assert_eq!(
        OrmadaError::multiple_objects_returned("Book", 3).message(),
        "Book.MultipleObjectsReturned: get() returned 3 objects"
    );
    assert_eq!(
        OrmadaError::concurrency_error("save", 255).message(),
        "ConcurrencyError: save failed after 255 attempts"
    );
    assert_eq!(
        OrmadaError::data_error("String", "i32", "bad").message(),
        "DataError: cannot convert String to i32: bad"
    );
    assert_eq!(OrmadaError::empty_result_set("last").message(), "DoesNotExist: last() returned no results");
}

#[test]
fn duplicate_and_foreign_key_checks_ignore_case() {
    assert!(OrmadaError::IntegrityError("Key Already EXISTS".into()).is_duplicate_entry());
    assert!(OrmadaError::IntegrityError("violates FK_books_author".into()).is_foreign_key_violation());
    assert!(OrmadaError::IntegrityError("x REFERENCES y".into()).is_foreign_key_violation());
    assert!(!OrmadaError::OperationalError("duplicate".into()).is_duplicate_entry());
    assert!(!OrmadaError::ProgrammingError("foreign key".into()).is_foreign_key_violation());
}

#[test]
fn retryable_errors_are_transient_ones() {
    assert!(OrmadaError::concurrency_error("x", 1).is_retryable());
    assert!(!OrmadaError::IntegrityError("x".into()).is_retryable());
    assert!(!OrmadaError::empty_result_set("first").is_retryable());
    assert!(OrmadaError::ProgrammingError("x".into()).is_programming_error());
}

#[test]
fn unique_violation_messages_across_backends() {
    assert!(is_unique_violation("UNIQUE constraint failed: users.email"));
    assert!(is_unique_violation("duplicate key value violates unique constraint \"users_email_key\""));
    assert!(is_unique_violation("Duplicate entry 'a@b.c' for key 'email'"));
    assert!(is_unique_violation("NOT NULL constraint failed: users.name"));
    assert!(!is_unique_violation("connection refused"));
}
