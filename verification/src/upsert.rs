//! Typestate markers of the bulk upsert builder: `on_conflict` and
//! `update_fields` must both be given before the upsert can run.

use vstd::prelude::*;

verus! {

/// Typestate: needs `on_conflict()` to be called
pub struct NeedsConflict;

/// Typestate: needs `update_fields()` to be called
pub struct NeedsUpdateFields;

/// Typestate: ready to execute
pub struct Ready;

} // verus!
