//! Statistics of the query result cache.

use vstd::prelude::*;

verus! {

/// Cache statistics for debugging.
#[derive(Debug, Clone, Copy, PartialEq, Eq, Structural)]
pub struct CacheStats {
    /// Number of cached query results
    pub entries: usize,
    /// Total bytes stored in cache
    pub total_bytes: usize,
}

} // verus!
