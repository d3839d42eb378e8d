//! Entity capabilities: whether an entity is soft-deleted, and by which column.

use vstd::prelude::*;

verus! {

/// Soft delete configuration for an entity
#[derive(Debug, Clone, Copy, PartialEq, Eq)]
pub enum SoftDeleteConfig {
    /// Soft delete is disabled - records are permanently deleted
    Disabled,
    /// Soft delete is enabled - records are marked with a timestamp
    Enabled {
        /// Column name storing the deletion timestamp (e.g., `deleted_at`)
        column: &'static str,
    },
}

impl SoftDeleteConfig {
    /// Check if soft delete is enabled
    pub fn is_enabled(&self) -> (res: bool)
        ensures
            res == self is Enabled,
    {
        match self {
            SoftDeleteConfig::Enabled { .. } => true,
            SoftDeleteConfig::Disabled => false,
        }
    }

    /// Get the column name if soft delete is enabled
    pub fn column(&self) -> (res: Option<&'static str>)
        ensures
            res == match *self {
                SoftDeleteConfig::Disabled => None::<&'static str>,
                SoftDeleteConfig::Enabled { column } => Some(column),
            },
    {
        match self {
            SoftDeleteConfig::Disabled => None,
            SoftDeleteConfig::Enabled { column } => Some(*column),
        }
    }
}

impl Default for SoftDeleteConfig {
    fn default() -> (res: Self)
        ensures
            res == SoftDeleteConfig::Disabled,
    {
        SoftDeleteConfig::Disabled
    }
}

/// An entity has a soft-delete column exactly when soft delete is enabled.
pub proof fn law_soft_delete_column_iff_enabled(c: SoftDeleteConfig)
    ensures
        (c is Enabled) <==> (match c {
            SoftDeleteConfig::Disabled => None::<&'static str>,
            SoftDeleteConfig::Enabled { column } => Some(column),
        }) is Some,
{
}

} // verus!
