//! Error types for ormada - Django-style naming
//!
//! Each variant maps to a Django exception: `DoesNotExist`,
//! `MultipleObjectsReturned`, `IntegrityError`, `ValidationError`,
//! `OperationalError`, `ProgrammingError`, and so on. `message` gives the
//! text shown to users; the predicates classify an error.

use vstd::prelude::*;

use crate::text::{chars_of, contains, decimal, decimal_chars, has_sub, push_chars, push_str, spec_lowercase, to_lowercase_chars};

verus! {

/// Error type for all ormada operations (Django-style naming)
#[derive(Debug, Clone, PartialEq, Eq)]
pub enum OrmadaError {
    /// Database operational error (Django: `OperationalError`)
    OperationalError(String),
    /// SQL programming error (Django: `ProgrammingError`)
    ProgrammingError(String),
    /// Database integrity error (Django: `IntegrityError`)
    IntegrityError(String),
    /// Record does not exist (Django: `Model.DoesNotExist`)
    DoesNotExist {
        /// Entity/Model name (e.g., "Book", "Author")
        entity: &'static str,
        /// Identifier that was searched for
        id: String,
    },
    /// Empty query result (variant of DoesNotExist)
    EmptyResultSet {
        /// The operation that returned no results
        operation: &'static str,
    },
    /// Multiple objects returned (Django: `Model.MultipleObjectsReturned`)
    MultipleObjectsReturned {
        /// Entity/Model name
        entity: &'static str,
        /// Number of objects found
        count: usize,
    },
    /// Field validation error (Django: `ValidationError`)
    ValidationError {
        /// Entity/Model name
        entity: &'static str,
        /// Field name that failed validation
        field: &'static str,
        /// Reason for validation failure
        reason: String,
    },
    /// Data/type conversion error (Django: `DataError`)
    DataError {
        /// Source type name
        from: &'static str,
        /// Target type name
        to: &'static str,
        /// Conversion failure reason
        reason: String,
    },
    /// Transaction error (Django: `TransactionManagementError`)
    TransactionError(String),
    /// Migration error
    MigrationError(String),
    /// Record not inserted
    RecordNotInserted(String),
    /// Record not updated
    RecordNotUpdated(String),
    /// Concurrency conflict
    ConcurrencyError {
        /// The operation that failed
        operation: &'static str,
        /// Number of retry attempts made
        attempts: u8,
    },
    /// Configuration error (Django: `ImproperlyConfigured`)
    ConfigurationError(String),
}

/// The text of an error, as users see it.
pub open spec fn error_text(e: OrmadaError) -> Seq<char> {
    match e {
        OrmadaError::OperationalError(msg) => "OperationalError: "@ + msg@,
        OrmadaError::ProgrammingError(msg) => "ProgrammingError: "@ + msg@,
        OrmadaError::IntegrityError(msg) => "IntegrityError: "@ + msg@,
        OrmadaError::DoesNotExist { entity, id } => entity@ + ".DoesNotExist: "@ + entity@
            + " matching query does not exist (id="@ + id@ + ")"@,
        OrmadaError::EmptyResultSet { operation } => "DoesNotExist: "@ + operation@
            + "() returned no results"@,
        OrmadaError::MultipleObjectsReturned { entity, count } => entity@
            + ".MultipleObjectsReturned: get() returned "@ + decimal(count as nat) + " objects"@,
        OrmadaError::ValidationError { entity, field, reason } => "ValidationError: "@ + entity@
            + "."@ + field@ + ": "@ + reason@,
        OrmadaError::DataError { from, to, reason } => "DataError: cannot convert "@ + from@
            + " to "@ + to@ + ": "@ + reason@,
        OrmadaError::TransactionError(msg) => "TransactionError: "@ + msg@,
        OrmadaError::MigrationError(msg) => "MigrationError: "@ + msg@,
        OrmadaError::RecordNotInserted(msg) => "RecordNotInserted: "@ + msg@,
        OrmadaError::RecordNotUpdated(msg) => "RecordNotUpdated: "@ + msg@,
        OrmadaError::ConcurrencyError { operation, attempts } => "ConcurrencyError: "@ + operation@
            + " failed after "@ + decimal(attempts as nat) + " attempts"@,
        OrmadaError::ConfigurationError(msg) => "ConfigurationError: "@ + msg@,
    }
}

/// An integrity error whose lowercased message contains one of the phrases.
pub open spec fn integrity_mentions(e: OrmadaError, a: Seq<char>, b: Seq<char>, c: Seq<char>) -> bool {
    match e {
        OrmadaError::IntegrityError(msg) => {
            let lower = spec_lowercase(msg@);
            has_sub(lower, a) || has_sub(lower, b) || has_sub(lower, c)
        },
        _ => false,
    }
}

fn lower_contains(lower: &Vec<char>, phrase: &str) -> (res: bool)
    ensures
        res == has_sub(lower@, phrase@),
{
    let p = chars_of(phrase);
    contains(lower, &p)
}

impl OrmadaError {
    /// Create a `DoesNotExist` error (Django: `Model.DoesNotExist`)
    pub fn does_not_exist<T: std::fmt::Display>(entity: &'static str, id: T) -> (res: Self)
        ensures
            res matches OrmadaError::DoesNotExist { entity: e, id: s } && e == entity
                && vstd::string::to_string_from_display_ensures::<T>(&id, s),
    {
        OrmadaError::DoesNotExist { entity, id: id.to_string() }
    }

    /// Create a `MultipleObjectsReturned` error (Django: `Model.MultipleObjectsReturned`)
    pub fn multiple_objects_returned(entity: &'static str, count: usize) -> (res: Self)
        ensures
            res == (OrmadaError::MultipleObjectsReturned { entity, count }),
    {
        OrmadaError::MultipleObjectsReturned { entity, count }
    }

    /// Create a `ValidationError` (Django: `ValidationError`)
    pub fn validation_error<T: std::fmt::Display>(
        entity: &'static str,
        field: &'static str,
        reason: T,
    ) -> (res: Self)
        ensures
            res matches OrmadaError::ValidationError { entity: e, field: f, reason: r } && e == entity
                && f == field && vstd::string::to_string_from_display_ensures::<T>(&reason, r),
    {
        OrmadaError::ValidationError { entity, field, reason: reason.to_string() }
    }

    /// Create a `DataError` (Django: `DataError`)
    pub fn data_error<T: std::fmt::Display>(from: &'static str, to: &'static str, reason: T) -> (res: Self)
        ensures
            res matches OrmadaError::DataError { from: f, to: t, reason: r } && f == from && t == to
                && vstd::string::to_string_from_display_ensures::<T>(&reason, r),
    {
        OrmadaError::DataError { from, to, reason: reason.to_string() }
    }

    /// Create an `EmptyResultSet` error
    pub fn empty_result_set(operation: &'static str) -> (res: Self)
        ensures
            res == (OrmadaError::EmptyResultSet { operation }),
    {
        OrmadaError::EmptyResultSet { operation }
    }

    /// Create a `ConcurrencyError`
    pub fn concurrency_error(operation: &'static str, attempts: u8) -> (res: Self)
        ensures
            res == (OrmadaError::ConcurrencyError { operation, attempts }),
    {
        OrmadaError::ConcurrencyError { operation, attempts }
    }

    /// Check if this is a `DoesNotExist` error (Django: `ObjectDoesNotExist`):
    /// `true` for `DoesNotExist` and `EmptyResultSet`.
    pub fn is_does_not_exist(&self) -> (res: bool)
        ensures
            res == (self is DoesNotExist || self is EmptyResultSet),
    {
        match self {
            OrmadaError::DoesNotExist { .. } => true,
            OrmadaError::EmptyResultSet { .. } => true,
            _ => false,
        }
    }

    /// Check if this is an `IntegrityError` (Django: `IntegrityError`)
    pub fn is_integrity_error(&self) -> (res: bool)
        ensures
            res == self is IntegrityError,
    {
        match self {
            OrmadaError::IntegrityError(_) => true,
            _ => false,
        }
    }

    /// Check if this is a `ValidationError` (Django: `ValidationError`)
    pub fn is_validation_error(&self) -> (res: bool)
        ensures
            res == self is ValidationError,
    {
        match self {
            OrmadaError::ValidationError { .. } => true,
            _ => false,
        }
    }

    /// Check if this is an `OperationalError` (Django: `OperationalError`)
    pub fn is_operational_error(&self) -> (res: bool)
        ensures
            res == self is OperationalError,
    {
        match self {
            OrmadaError::OperationalError(_) => true,
            _ => false,
        }
    }

    /// Check if this is a `ProgrammingError` (Django: `ProgrammingError`)
    pub fn is_programming_error(&self) -> (res: bool)
        ensures
            res == self is ProgrammingError,
    {
        match self {
            OrmadaError::ProgrammingError(_) => true,
            _ => false,
        }
    }

    /// Check if this is a `TransactionError`
    pub fn is_transaction_error(&self) -> (res: bool)
        ensures
            res == self is TransactionError,
    {
        match self {
            OrmadaError::TransactionError(_) => true,
            _ => false,
        }
    }

    /// Check if this error is retryable: operational, concurrency and
    /// transaction errors are transient.
    pub fn is_retryable(&self) -> (res: bool)
        ensures
            res == (self is OperationalError || self is ConcurrencyError || self is TransactionError),
    {
        match self {
            OrmadaError::OperationalError(_) => true,
            OrmadaError::ConcurrencyError { .. } => true,
            OrmadaError::TransactionError(_) => true,
            _ => false,
        }
    }

    /// Get the entity name if this is a `DoesNotExist`, `MultipleObjectsReturned`, or `ValidationError`
    pub fn entity(&self) -> (res: Option<&'static str>)
        ensures
            res == match *self {
                OrmadaError::DoesNotExist { entity, .. } => Some(entity),
                OrmadaError::MultipleObjectsReturned { entity, .. } => Some(entity),
                OrmadaError::ValidationError { entity, .. } => Some(entity),
                _ => None::<&'static str>,
            },
    {
        match self {
            OrmadaError::DoesNotExist { entity, .. } => Some(*entity),
            OrmadaError::MultipleObjectsReturned { entity, .. } => Some(*entity),
            OrmadaError::ValidationError { entity, .. } => Some(*entity),
            _ => None,
        }
    }

    /// Get the field name if this is a `ValidationError`
    pub fn field(&self) -> (res: Option<&'static str>)
        ensures
            res == match *self {
                OrmadaError::ValidationError { field, .. } => Some(field),
                _ => None::<&'static str>,
            },
    {
        match self {
            OrmadaError::ValidationError { field, .. } => Some(*field),
            _ => None,
        }
    }

    /// Get the error message
    pub fn message(&self) -> (res: String)
        ensures
            res@ == error_text(*self),
    {
        let mut s = String::new();
        match self {
            OrmadaError::OperationalError(msg) => {
                push_str(&mut s, "OperationalError: ");
                push_str(&mut s, msg.as_str());
            },
            OrmadaError::ProgrammingError(msg) => {
                push_str(&mut s, "ProgrammingError: ");
                push_str(&mut s, msg.as_str());
            },
            OrmadaError::IntegrityError(msg) => {
                push_str(&mut s, "IntegrityError: ");
                push_str(&mut s, msg.as_str());
            },
            OrmadaError::DoesNotExist { entity, id } => {
                push_str(&mut s, entity);
                push_str(&mut s, ".DoesNotExist: ");
                push_str(&mut s, entity);
                push_str(&mut s, " matching query does not exist (id=");
                push_str(&mut s, id.as_str());
                push_str(&mut s, ")");
            },
            OrmadaError::EmptyResultSet { operation } => {
                push_str(&mut s, "DoesNotExist: ");
                push_str(&mut s, operation);
                push_str(&mut s, "() returned no results");
            },
            OrmadaError::MultipleObjectsReturned { entity, count } => {
                push_str(&mut s, entity);
                push_str(&mut s, ".MultipleObjectsReturned: get() returned ");
                let digits = decimal_chars(*count as u64);
                push_chars(&mut s, &digits);
                push_str(&mut s, " objects");
            },
            OrmadaError::ValidationError { entity, field, reason } => {
                push_str(&mut s, "ValidationError: ");
                push_str(&mut s, entity);
                push_str(&mut s, ".");
                push_str(&mut s, field);
                push_str(&mut s, ": ");
                push_str(&mut s, reason.as_str());
            },
            OrmadaError::DataError { from, to, reason } => {
                push_str(&mut s, "DataError: cannot convert ");
                push_str(&mut s, from);
                push_str(&mut s, " to ");
                push_str(&mut s, to);
                push_str(&mut s, ": ");
                push_str(&mut s, reason.as_str());
            },
            OrmadaError::TransactionError(msg) => {
                push_str(&mut s, "TransactionError: ");
                push_str(&mut s, msg.as_str());
            },
            OrmadaError::MigrationError(msg) => {
                push_str(&mut s, "MigrationError: ");
                push_str(&mut s, msg.as_str());
            },
            OrmadaError::RecordNotInserted(msg) => {
                push_str(&mut s, "RecordNotInserted: ");
                push_str(&mut s, msg.as_str());
            },
            OrmadaError::RecordNotUpdated(msg) => {
                push_str(&mut s, "RecordNotUpdated: ");
                push_str(&mut s, msg.as_str());
            },
            OrmadaError::ConcurrencyError { operation, attempts } => {
                push_str(&mut s, "ConcurrencyError: ");
                push_str(&mut s, operation);
                push_str(&mut s, " failed after ");
                let digits = decimal_chars(*attempts as u64);
                push_chars(&mut s, &digits);
                push_str(&mut s, " attempts");
            },
            OrmadaError::ConfigurationError(msg) => {
                push_str(&mut s, "ConfigurationError: ");
                push_str(&mut s, msg.as_str());
            },
        }
        proof {
            assert(s@ =~= error_text(*self));
        }
        s
    }

    /// Check if this is a duplicate entry error (subset of IntegrityError)
    pub fn is_duplicate_entry(&self) -> (res: bool)
        ensures
            res == integrity_mentions(*self, "duplicate"@, "unique"@, "already exists"@),
    {
        match self {
            OrmadaError::IntegrityError(msg) => {
                let chars = chars_of(msg.as_str());
                let lower = to_lowercase_chars(&chars);
                lower_contains(&lower, "duplicate") || lower_contains(&lower, "unique")
                    || lower_contains(&lower, "already exists")
            },
            _ => false,
        }
    }

    /// Check if this is a foreign key violation (subset of IntegrityError)
    pub fn is_foreign_key_violation(&self) -> (res: bool)
        ensures
            res == integrity_mentions(*self, "foreign key"@, "fk_"@, "references"@),
    {
        match self {
            OrmadaError::IntegrityError(msg) => {
                let chars = chars_of(msg.as_str());
                let lower = to_lowercase_chars(&chars);
                lower_contains(&lower, "foreign key") || lower_contains(&lower, "fk_")
                    || lower_contains(&lower, "references")
            },
            _ => false,
        }
    }
}

/// Duplicate-entry and foreign-key errors are integrity errors.
pub proof fn law_specific_violations_are_integrity_errors(e: OrmadaError)
    ensures
        integrity_mentions(e, "duplicate"@, "unique"@, "already exists"@) ==> e is IntegrityError,
        integrity_mentions(e, "foreign key"@, "fk_"@, "references"@) ==> e is IntegrityError,
        (e is DoesNotExist || e is EmptyResultSet) ==> !(e is OperationalError || e is ConcurrencyError
            || e is TransactionError),
{
}

} // verus!
