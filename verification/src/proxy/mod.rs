//! The decisions taken while proxying connections.
use vstd::prelude::*;

use crate::config::Strategy;

verus! {

/// The failures in a row after which a server's state is changed.
pub const THRESHOLD: u32 = 3;

/// What `count` failures call for: `None` below the threshold; at or above
/// it, `Some(rem)`, where `Some(true)` removes the server from the active list
/// and `Some(false)` adds it.
pub fn failure_step(count: usize, rem: bool) -> (r: Option<bool>)
    ensures
        r == (if count >= THRESHOLD {
            Some(rem)
        } else {
            None
        }),
{
    if count >= THRESHOLD as usize {
        Some(rem)
    } else {
        None
    }
}

/// Whether connections to a server are counted while they are open: only
/// the least-connections strategy reads the counts, so only it keeps them.
pub fn counts_connections(strategy: Strategy) -> (r: bool)
    ensures
        r == (strategy == Strategy::LeastConnections),
{
    match strategy {
        Strategy::LeastConnections => true,
        Strategy::RoundRobin => false,
    }
}

} // verus!
