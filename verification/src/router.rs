//! Read routing for a primary database with read replicas: read-your-writes
//! consistency, and which database serves a read.

use vstd::prelude::*;

use std::sync::atomic::AtomicBool;
use std::sync::Arc;

verus! {

/// Database routing strategy
#[derive(Debug, Clone, Copy, PartialEq, Eq, Structural)]
pub enum RoutingStrategy {
    /// Always use primary database
    Primary,
    /// Use read replicas with round-robin load balancing
    RoundRobin,
}

/// Context tracking for read-your-writes consistency
///
/// Tracks whether writes have occurred in the current context. Once a write
/// happens, subsequent reads in the same context use primary. Clones share the
/// same flag.
#[derive(Debug, Clone)]
pub struct ConsistencyContext {
    write_occurred: Arc<AtomicBool>,
}

impl ConsistencyContext {
    /// Create a new consistency context
    pub fn new() -> (res: Self) {
        ConsistencyContext { write_occurred: Arc::new(AtomicBool::new(false)) }
    }

    /// Mark that a write has occurred
    pub fn mark_write(&self) {
        self.write_occurred.store(true, std::sync::atomic::Ordering::Release);
    }

    /// Check if a write has occurred
    pub fn has_write_occurred(&self) -> (res: bool) {
        self.write_occurred.load(std::sync::atomic::Ordering::Acquire)
    }

    /// Reset the context (for testing or explicit consistency boundaries)
    pub fn reset(&self) {
        self.write_occurred.store(false, std::sync::atomic::Ordering::Release);
    }
}

impl Default for ConsistencyContext {
    fn default() -> (res: Self) {
        ConsistencyContext::new()
    }
}

/// The database that serves a read.
#[derive(Debug, Clone, Copy, PartialEq, Eq, Structural)]
pub enum ReadTarget {
    /// The primary database
    Primary,
    /// The read replica at this position
    Replica(usize),
}

/// Where a read goes: the primary inside a transaction, after a write in the
/// same context, or when there are no replicas; otherwise the replica that the
/// round-robin counter selects.
pub open spec fn read_target(in_transaction: bool, write_occurred: bool, replicas: usize, counter: usize) -> ReadTarget {
    if in_transaction || write_occurred || replicas == 0 {
        ReadTarget::Primary
    } else {
        ReadTarget::Replica(counter % replicas)
    }
}

/// Decide which database serves a read, given whether a transaction is open,
/// whether this context has written, the number of replicas, and the value the
/// round-robin counter had before this read.
pub fn route_read(in_transaction: bool, write_occurred: bool, replicas: usize, counter: usize) -> (res: ReadTarget)
    ensures
        res == read_target(in_transaction, write_occurred, replicas, counter),
        res matches ReadTarget::Replica(i) ==> i < replicas,
{
    if in_transaction {
        return ReadTarget::Primary;
    }
    if write_occurred {
        return ReadTarget::Primary;
    }
    if replicas == 0 {
        return ReadTarget::Primary;
    }
    ReadTarget::Replica(counter % replicas)
}

/// The round-robin counter after a read: one more (wrapping at the end of
/// `usize`, as `fetch_add` does) when the read went to a replica, unchanged
/// when it went to the primary.
pub open spec fn counter_after_read(in_transaction: bool, write_occurred: bool, replicas: usize, counter: usize) -> usize {
    if read_target(in_transaction, write_occurred, replicas, counter) is Replica {
        if counter == usize::MAX {
            0
        } else {
            (counter + 1) as usize
        }
    } else {
        counter
    }
}

/// Route a read and step the round-robin counter: the database that serves
/// the read, and the value the counter has afterwards.
pub fn route_read_step(in_transaction: bool, write_occurred: bool, replicas: usize, counter: usize) -> (res: (
    ReadTarget,
    usize,
))
    ensures
        res.0 == read_target(in_transaction, write_occurred, replicas, counter),
        res.1 == counter_after_read(in_transaction, write_occurred, replicas, counter),
{
    let target = route_read(in_transaction, write_occurred, replicas, counter);
    match target {
        ReadTarget::Replica(_) => (target, counter.wrapping_add(1)),
        ReadTarget::Primary => (target, counter),
    }
}

/// Read-your-writes and transaction safety: once a context has written, or
/// while a transaction is open, every read goes to the primary.
pub proof fn law_reads_after_writes_use_primary(in_transaction: bool, write_occurred: bool, replicas: usize, counter: usize)
    requires
        in_transaction || write_occurred,
    ensures
        read_target(in_transaction, write_occurred, replicas, counter) == ReadTarget::Primary,
{
}

/// Round-robin: while reads go to the replicas, the next value of the counter
/// selects the next replica, and the first again after the last.
pub proof fn law_round_robin_advances(replicas: usize, counter: usize)
    requires
        replicas > 0,
        counter < usize::MAX,
    ensures
        read_target(false, false, replicas, (counter + 1) as usize) == ReadTarget::Replica(
            (((counter % replicas) + 1) % (replicas as int)) as usize,
        ),
{
    vstd::arithmetic::div_mod::lemma_add_mod_noop(counter as int, 1, replicas as int);
    if replicas > 1 {
        vstd::arithmetic::div_mod::lemma_small_mod(1, replicas as nat);
    }
}

/// Round-robin: reads made with consecutive counter values, fewer than there
/// are replicas, go to different replicas; so `n` such reads use each of the
/// `n` replicas once.
pub proof fn law_round_robin_spreads(replicas: usize, counter: usize, i: usize, j: usize)
    requires
        i < j < replicas,
        counter + j <= usize::MAX,
    ensures
        read_target(false, false, replicas, (counter + i) as usize) != read_target(
            false,
            false,
            replicas,
            (counter + j) as usize,
        ),
{
    vstd::arithmetic::div_mod::lemma_mod_equivalence(
        (counter + j) as int,
        (counter + i) as int,
        replicas as int,
    );
    vstd::arithmetic::div_mod::lemma_small_mod((j - i) as nat, replicas as nat);
}

} // verus!
