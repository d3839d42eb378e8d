//! Aggregation results read back from the database.

use vstd::prelude::*;

verus! {

/// An integer aggregation result as a query returns it: the aggregate of no
/// rows is NULL.
#[derive(Debug, Clone, Copy, PartialEq, Eq, Structural)]
pub struct AggregateValueInt {
    pub value: Option<i64>,
}

} // verus!
