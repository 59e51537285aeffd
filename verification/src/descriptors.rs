//! How many file descriptors a journal may need.

use vstd::prelude::*;
use crate::journal::{says, JournalError, GRAPH_VNODE_FD_HEADROOM, MAX_DESCRIPTOR_OCCUPANCY_SCAN};

verus! {

/// Up to which descriptor the open ones are counted; none where the limit is so high that counting
/// is left out.
pub fn descriptor_scan_ceiling(limit: u64) -> (result: Result<Option<usize>, JournalError>)
    ensures
        match result {
            Ok(ceiling) => limit <= usize::MAX && ceiling == if limit
                <= MAX_DESCRIPTOR_OCCUPANCY_SCAN {
                Some(limit as usize)
            } else {
                None
            },
            Err(error) => limit > usize::MAX && says(
                error,
                "macOS graph descriptor limit was not representable"@,
            ),
        },
        result matches Ok(Some(ceiling)) ==> ceiling <= 100_000,
{
    if limit as u128 > usize::MAX as u128 {
        return Err(
            JournalError {
                message: "macOS graph descriptor limit was not representable".to_owned(),
            },
        );
    }
    let ceiling: usize = limit as usize;
    if ceiling <= MAX_DESCRIPTOR_OCCUPANCY_SCAN {
        Ok(Some(ceiling))
    } else {
        Ok(None)
    }
}

/// What is known of one descriptor.
pub enum DescriptorStatus {
    Open,
    Closed,
    /// It could not be asked.
    Failed(String),
}

/// How many of the descriptors are open.
pub open spec fn open_among(statuses: Seq<DescriptorStatus>) -> nat
    decreases statuses.len(),
{
    if statuses.len() == 0 {
        0
    } else {
        open_among(statuses.drop_last()) + if statuses.last() is Open {
            1nat
        } else {
            0nat
        }
    }
}

/// One more than the highest descriptor that is open; zero where none is.
pub open spec fn high_water_of(statuses: Seq<DescriptorStatus>) -> nat
    decreases statuses.len(),
{
    if statuses.len() == 0 {
        0
    } else if statuses.last() is Open {
        statuses.len()
    } else {
        high_water_of(statuses.drop_last())
    }
}

/// Whether every descriptor could be asked.
pub open spec fn all_asked(statuses: Seq<DescriptorStatus>) -> bool {
    forall|i: int| 0 <= i < statuses.len() ==> !((#[trigger] statuses[i]) is Failed)
}

/// No more descriptors are open than the highest open one allows.
pub proof fn occupancy_is_bounded(statuses: Seq<DescriptorStatus>)
    ensures
        open_among(statuses) <= high_water_of(statuses) <= statuses.len(),
    decreases statuses.len(),
{
    if statuses.len() > 0 {
        occupancy_is_bounded(statuses.drop_last());
    }
}

/// Counts the open descriptors, and how high they reach.
pub fn descriptor_occupancy(statuses: &Vec<DescriptorStatus>) -> (result: Result<
    (usize, usize),
    JournalError,
>)
    ensures
        match result {
            Ok((open_count, high_water)) => all_asked(statuses@) && open_count == open_among(
                statuses@,
            ) && high_water == high_water_of(statuses@),
            Err(error) => exists|i: int|
                0 <= i < statuses@.len() && all_asked(statuses@.take(i)) && (
                #[trigger] statuses@[i] matches DescriptorStatus::Failed(reason) && says(
                    error,
                    reason@,
                )),
        },
{
    let mut open_count: usize = 0;
    let mut high_water: usize = 0;
    let mut i: usize = 0;
    assert(statuses@.take(0) =~= Seq::<DescriptorStatus>::empty());
    while i < statuses.len()
        invariant
            i <= statuses@.len(),
            open_count <= i,
            open_count == open_among(statuses@.take(i as int)),
            high_water == high_water_of(statuses@.take(i as int)),
            forall|k: int| 0 <= k < i ==> !((#[trigger] statuses@[k]) is Failed),
        decreases statuses@.len() - i,
    {
        assert(statuses@.take(i + 1).drop_last() =~= statuses@.take(i as int));
        assert(statuses@.take(i + 1).last() == statuses@[i as int]);
        match &statuses[i] {
            DescriptorStatus::Open => {
                open_count = open_count + 1;
                high_water = i + 1;
            },
            DescriptorStatus::Closed => {},
            DescriptorStatus::Failed(reason) => {
                return Err(JournalError { message: reason.clone() });
            },
        }
        i = i + 1;
    }
    assert(statuses@.take(i as int) =~= statuses@);
    Ok((open_count, high_water))
}

/// How many descriptors must be allowed: those that are open, or below the highest open one, and
/// those that are planned with some left free.
pub open spec fn required_descriptors(
    additional: usize,
    open_count: usize,
    high_water: usize,
) -> int {
    let planned = additional + GRAPH_VNODE_FD_HEADROOM;
    let busy = if high_water >= open_count {
        high_water
    } else {
        open_count
    };
    busy + planned + 1
}

/// What is to be done about the limit.
#[derive(Debug, Clone, Copy, PartialEq, Eq, Structural)]
pub enum LimitStep {
    /// It is high enough.
    Keep,
    /// It is raised to this.
    Raise(u64),
}

/// Decides what is to be done about the limit so that `additional` descriptors can be opened.
pub fn descriptor_limit_step(
    soft_limit: u64,
    hard_limit: u64,
    additional: usize,
    open_count: usize,
    high_water: usize,
) -> (result: Result<LimitStep, JournalError>)
    ensures
        ({
            let required = required_descriptors(additional, open_count, high_water);
            match result {
                Ok(LimitStep::Keep) => required <= usize::MAX && required <= soft_limit,
                Ok(LimitStep::Raise(limit)) => required <= usize::MAX && soft_limit < required
                    <= hard_limit && limit == required,
                Err(error) => if required > usize::MAX {
                    says(error, "macOS graph descriptor budget overflowed"@)
                } else {
                    required > soft_limit && required > hard_limit && says(
                        error,
                        "macOS graph journal exceeds the process descriptor ceiling"@,
                    )
                },
            }
        }),
{
    let busy: usize = if high_water >= open_count {
        high_water
    } else {
        open_count
    };
    let exact: u128 = busy as u128 + additional as u128 + GRAPH_VNODE_FD_HEADROOM as u128 + 1;
    if exact > usize::MAX as u128 {
        return Err(
            JournalError { message: "macOS graph descriptor budget overflowed".to_owned() },
        );
    }
    let required: u64 = exact as u64;
    if required <= soft_limit {
        return Ok(LimitStep::Keep);
    }
    if required > hard_limit {
        return Err(
            JournalError {
                message: "macOS graph journal exceeds the process descriptor ceiling".to_owned(),
            },
        );
    }
    Ok(LimitStep::Raise(required))
}

/// What is required leaves room for every descriptor that is open, or below the highest open one,
/// for those that are planned, and for some more.
pub proof fn required_descriptors_leave_room(
    additional: usize,
    open_count: usize,
    high_water: usize,
)
    ensures
        required_descriptors(additional, open_count, high_water) > open_count + additional
            + GRAPH_VNODE_FD_HEADROOM,
        required_descriptors(additional, open_count, high_water) > high_water + additional
            + GRAPH_VNODE_FD_HEADROOM,
{
}

} // verus!
