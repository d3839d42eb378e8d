//! Foreign-key deletion behaviour, as written in model definitions.

use vstd::prelude::*;

verus! {

/// Defines the behavior when a referenced object is deleted in a foreign key
/// relationship; maps to SQL `ON DELETE` clauses.
#[derive(Debug, Clone, Copy, PartialEq, Eq, Hash, Structural)]
pub enum OnDelete {
    /// Delete related objects when the referenced object is deleted (`ON DELETE CASCADE`).
    Cascade,
    /// Set the foreign key to `NULL` (`ON DELETE SET NULL`); the field must be `Option<T>`.
    SetNull,
    /// Prevent deletion of the referenced object if related objects exist (`ON DELETE RESTRICT`).
    Restrict,
    /// Set the foreign key to its default value (`ON DELETE SET DEFAULT`).
    SetDefault,
    /// Let the database handle the deletion behavior (`ON DELETE NO ACTION`).
    NoAction,
}

/// The SQL keyword(s) of an `ON DELETE` behaviour.
pub open spec fn on_delete_keyword(o: OnDelete) -> Seq<char> {
    match o {
        OnDelete::Cascade => "CASCADE"@,
        OnDelete::SetNull => "SET NULL"@,
        OnDelete::Restrict => "RESTRICT"@,
        OnDelete::SetDefault => "SET DEFAULT"@,
        OnDelete::NoAction => "NO ACTION"@,
    }
}

impl OnDelete {
    /// Convert the enum variant to its SQL string representation.
    pub fn to_sql(&self) -> (res: &'static str)
        ensures
            res@ == on_delete_keyword(*self),
    {
        match self {
            OnDelete::Cascade => "CASCADE",
            OnDelete::SetNull => "SET NULL",
            OnDelete::Restrict => "RESTRICT",
            OnDelete::SetDefault => "SET DEFAULT",
            OnDelete::NoAction => "NO ACTION",
        }
    }

    /// Check if this `OnDelete` variant requires the field to be nullable:
    /// `true` for `SetNull`, `false` for all others.
    pub fn requires_nullable(&self) -> (res: bool)
        ensures
            res == (*self == OnDelete::SetNull),
    {
        match self {
            OnDelete::SetNull => true,
            _ => false,
        }
    }

    /// The text shown for this behaviour, which is its SQL form.
    pub fn display(&self) -> (res: String)
        ensures
            res@ == on_delete_keyword(*self),
    {
        self.to_sql().to_owned()
    }
}

} // verus!
