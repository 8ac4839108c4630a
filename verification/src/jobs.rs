//! The background snapshot pass: what a user's snapshot records.
use vstd::prelude::*;

verus! {

/// What a user's periodic snapshot records beside the raw figures.
#[derive(Debug, Clone, Copy, PartialEq, Eq, Structural)]
pub struct SnapshotFlags {
    /// In-flight points strictly over a set capacity (never without one).
    pub over_capacity: bool,
    /// WIP strictly over the effective limit.
    pub over_wip_limit: bool,
}

/// The flags of a snapshot from the user's current figures.
pub fn snapshot_flags(
    current_wip: i64,
    effective_wip_limit: i64,
    in_flight_points: i64,
    capacity_points: Option<i64>,
) -> (r: SnapshotFlags)
    ensures
        r.over_capacity == (capacity_points matches Some(cap) && in_flight_points > cap),
        r.over_wip_limit == (current_wip > effective_wip_limit),
{
    let over_capacity = match capacity_points {
        Some(cap) => in_flight_points > cap,
        None => false,
    };
    SnapshotFlags { over_capacity, over_wip_limit: current_wip > effective_wip_limit }
}

} // verus!
